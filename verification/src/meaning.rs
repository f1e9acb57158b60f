//! What the operators, the escapes of string literals and deep equality mean, stated in
//! terms of integers, booleans and texts.
use vstd::prelude::*;
use crate::value::ValueV;
use crate::vm::{VmV, EventV, overflow};
use crate::heap::HeapV;
use crate::ast::{BinaryOperator, ExprV, LitV};
use crate::bytecode::{OP_ADD, OP_SUBTRACT, OP_MULTIPLY, OP_DIVIDE, OP_EQUALS, OP_NOT_EQUALS,
    OP_GREATER, OP_LESS, OP_GREATER_EQUAL, OP_LESS_EQUAL, OP_AND, OP_OR, OP_ADD_GLOBAL,
    OP_INC_GLOBAL, u32_bytes, i64_bytes, lemma_u32_roundtrip, lemma_i64_roundtrip};
use crate::ops_values::binary_result;
use crate::compile_opt::fold_spec;
use crate::compile_spec::{binop_code, lit_value, special_assignment, self_update};
use crate::compiler::CompilerV;
use crate::machine::step_spec;
use crate::parser::{comparison_op, additive_op, multiplicative_op};
use crate::lexer::{TokenV, string_body};
use crate::render::values_equal;

verus! {

/// `a + b` as a machine number: the sum when it fits in an `i64`.
pub open spec fn sum_in_range(a: i64, b: i64) -> bool {
    i64::MIN <= a + b <= i64::MAX
}

/// The arithmetic instructions compute the integer sum, difference and product of two
/// numbers, and fault on overflow; division truncates toward zero and refuses zero.
pub proof fn law_arithmetic_on_numbers(h: HeapV, a: i64, b: i64)
    ensures
        binary_result(h, OP_ADD, ValueV::Number(a), ValueV::Number(b)) == if i64::MIN <= a + b
            <= i64::MAX {
            Ok::<ValueV, EventV>(ValueV::Number((a + b) as i64))
        } else {
            Err(overflow())
        },
        binary_result(h, OP_SUBTRACT, ValueV::Number(a), ValueV::Number(b)) == if i64::MIN <= a
            - b <= i64::MAX {
            Ok::<ValueV, EventV>(ValueV::Number((a - b) as i64))
        } else {
            Err(overflow())
        },
        binary_result(h, OP_MULTIPLY, ValueV::Number(a), ValueV::Number(b)) == if i64::MIN <= a
            * b <= i64::MAX {
            Ok::<ValueV, EventV>(ValueV::Number((a * b) as i64))
        } else {
            Err(overflow())
        },
        b == 0 ==> binary_result(h, OP_DIVIDE, ValueV::Number(a), ValueV::Number(b)) == Err::<
            ValueV,
            EventV,
        >(EventV::Error("Division by zero"@)),
        a >= 0 && b > 0 ==> binary_result(h, OP_DIVIDE, ValueV::Number(a), ValueV::Number(b))
            == Ok::<ValueV, EventV>(ValueV::Number((a / b) as i64)),
        a < 0 && b > 0 ==> binary_result(h, OP_DIVIDE, ValueV::Number(a), ValueV::Number(b))
            == Ok::<ValueV, EventV>(ValueV::Number((-((-a) / (b as int))) as i64)),
{
    if a >= 0 && b > 0 {
        assert(0 <= a / b <= a) by (nonlinear_arith)
            requires
                a >= 0,
                b > 0,
        ;
    }
    if a < 0 && b > 0 {
        assert(0 <= (-a) / (b as int) <= -a) by (nonlinear_arith)
            requires
                a < 0,
                b > 0,
        ;
    }
}

/// The comparison instructions compare two numbers as integers, and the equality
/// instructions tell whether they are the same number.
pub proof fn law_comparisons_on_numbers(h: HeapV, a: i64, b: i64)
    ensures
        binary_result(h, OP_LESS, ValueV::Number(a), ValueV::Number(b)) == Ok::<ValueV, EventV>(
            ValueV::Boolean(a < b),
        ),
        binary_result(h, OP_LESS_EQUAL, ValueV::Number(a), ValueV::Number(b)) == Ok::<
            ValueV,
            EventV,
        >(ValueV::Boolean(a <= b)),
        binary_result(h, OP_GREATER, ValueV::Number(a), ValueV::Number(b)) == Ok::<ValueV, EventV>(
            ValueV::Boolean(a > b),
        ),
        binary_result(h, OP_GREATER_EQUAL, ValueV::Number(a), ValueV::Number(b)) == Ok::<
            ValueV,
            EventV,
        >(ValueV::Boolean(a >= b)),
        binary_result(h, OP_EQUALS, ValueV::Number(a), ValueV::Number(b)) == Ok::<ValueV, EventV>(
            ValueV::Boolean(a == b),
        ),
        binary_result(h, OP_NOT_EQUALS, ValueV::Number(a), ValueV::Number(b)) == Ok::<
            ValueV,
            EventV,
        >(ValueV::Boolean(a != b)),
{
}

/// `and` and `or` are the logical connectives on booleans; `+` joins two strings, and two
/// strings are equal exactly when their texts are.
pub proof fn law_booleans_and_strings(h: HeapV, x: bool, y: bool, s: Seq<char>, t: Seq<char>)
    ensures
        binary_result(h, OP_AND, ValueV::Boolean(x), ValueV::Boolean(y)) == Ok::<ValueV, EventV>(
            ValueV::Boolean(x && y),
        ),
        binary_result(h, OP_OR, ValueV::Boolean(x), ValueV::Boolean(y)) == Ok::<ValueV, EventV>(
            ValueV::Boolean(x || y),
        ),
        binary_result(h, OP_ADD, ValueV::Str(s), ValueV::Str(t)) == Ok::<ValueV, EventV>(
            ValueV::Str(s + t),
        ),
        binary_result(h, OP_EQUALS, ValueV::Str(s), ValueV::Str(t)) == Ok::<ValueV, EventV>(
            ValueV::Boolean(s == t),
        ),
        binary_result(h, OP_NOT_EQUALS, ValueV::Str(s), ValueV::Str(t)) == Ok::<ValueV, EventV>(
            ValueV::Boolean(s != t),
        ),
{
}

/// Deep equality on plain values: numbers, strings and booleans are equal exactly when they
/// hold the same number, text or truth value, `null` equals `null`, and values of two
/// different kinds are never equal; all this whatever the heap and the fuel.
pub proof fn law_plain_equality(h: HeapV, fuel: nat, a: i64, b: i64, s: Seq<char>, t: Seq<char>, x: bool, y: bool)
    ensures
        values_equal(h, ValueV::Number(a), ValueV::Number(b), fuel) == Some(a == b),
        values_equal(h, ValueV::Str(s), ValueV::Str(t), fuel) == Some(s == t),
        values_equal(h, ValueV::Boolean(x), ValueV::Boolean(y), fuel) == Some(x == y),
        values_equal(h, ValueV::Null, ValueV::Null, fuel) == Some(true),
        values_equal(h, ValueV::Number(a), ValueV::Str(t), fuel) == Some(false),
        values_equal(h, ValueV::Str(s), ValueV::Number(b), fuel) == Some(false),
        values_equal(h, ValueV::Number(a), ValueV::Boolean(y), fuel) == Some(false),
        values_equal(h, ValueV::Boolean(x), ValueV::Str(t), fuel) == Some(false),
        values_equal(h, ValueV::Null, ValueV::Number(b), fuel) == Some(false),
        values_equal(h, ValueV::Str(s), ValueV::Null, fuel) == Some(false),
{
}

/// Folding two literals at compile time gives what the operator means on them: integer
/// arithmetic when the result fits, comparisons as integers, connectives on booleans, and
/// joining of strings; an overflowing result is not folded.
pub proof fn law_folding_means_the_operator(a: i64, b: i64, x: bool, y: bool, s: Seq<char>, t: Seq<char>)
    ensures
        fold_spec(num(a), BinaryOperator::Add, num(b)) == if i64::MIN <= a + b <= i64::MAX {
            Some(ValueV::Number((a + b) as i64))
        } else {
            None
        },
        fold_spec(num(a), BinaryOperator::Subtract, num(b)) == if i64::MIN <= a - b <= i64::MAX {
            Some(ValueV::Number((a - b) as i64))
        } else {
            None
        },
        fold_spec(num(a), BinaryOperator::Multiply, num(b)) == if i64::MIN <= a * b <= i64::MAX {
            Some(ValueV::Number((a * b) as i64))
        } else {
            None
        },
        b == 0 ==> fold_spec(num(a), BinaryOperator::Divide, num(b)) is None,
        a >= 0 && b > 0 ==> fold_spec(num(a), BinaryOperator::Divide, num(b)) == Some(
            ValueV::Number((a / b) as i64),
        ),
        fold_spec(num(a), BinaryOperator::LessThan, num(b)) == Some(ValueV::Boolean(a < b)),
        fold_spec(num(a), BinaryOperator::LessOrEqual, num(b)) == Some(ValueV::Boolean(a <= b)),
        fold_spec(num(a), BinaryOperator::GreaterThan, num(b)) == Some(ValueV::Boolean(a > b)),
        fold_spec(num(a), BinaryOperator::GreaterOrEqual, num(b)) == Some(ValueV::Boolean(a >= b)),
        fold_spec(num(a), BinaryOperator::Equals, num(b)) == Some(ValueV::Boolean(a == b)),
        fold_spec(num(a), BinaryOperator::NotEquals, num(b)) == Some(ValueV::Boolean(a != b)),
        fold_spec(boolean(x), BinaryOperator::And, boolean(y)) == Some(ValueV::Boolean(x && y)),
        fold_spec(boolean(x), BinaryOperator::Or, boolean(y)) == Some(ValueV::Boolean(x || y)),
        fold_spec(text(s), BinaryOperator::Add, text(t)) == Some(ValueV::Str(s + t)),
{
    if a >= 0 && b > 0 {
        assert(0 <= a / b <= a) by (nonlinear_arith)
            requires
                a >= 0,
                b > 0,
        ;
    }
}

pub open spec fn num(n: i64) -> ExprV {
    ExprV::Literal(LitV::Number(n))
}

pub open spec fn boolean(b: bool) -> ExprV {
    ExprV::Literal(LitV::Boolean(b))
}

pub open spec fn text(s: Seq<char>) -> ExprV {
    ExprV::Literal(LitV::Str(s))
}

/// Each operator token is read as the operator it spells: on numbers `a` and `b`, the
/// operator the parser makes of `<=` computes `a <= b`, that of `<` computes `a < b`, and so
/// on for `>`, `>=`, `!=`, `+`, `-` and `*`.
pub proof fn law_operator_tokens(h: HeapV, a: i64, b: i64)
    ensures
        comparison_op(TokenV::LessEqual) matches Some(op) && binary_result(
            h,
            binop_code(op),
            ValueV::Number(a),
            ValueV::Number(b),
        ) == Ok::<ValueV, EventV>(ValueV::Boolean(a <= b)),
        comparison_op(TokenV::Less) matches Some(op) && binary_result(
            h,
            binop_code(op),
            ValueV::Number(a),
            ValueV::Number(b),
        ) == Ok::<ValueV, EventV>(ValueV::Boolean(a < b)),
        comparison_op(TokenV::GreaterEqual) matches Some(op) && binary_result(
            h,
            binop_code(op),
            ValueV::Number(a),
            ValueV::Number(b),
        ) == Ok::<ValueV, EventV>(ValueV::Boolean(a >= b)),
        comparison_op(TokenV::Greater) matches Some(op) && binary_result(
            h,
            binop_code(op),
            ValueV::Number(a),
            ValueV::Number(b),
        ) == Ok::<ValueV, EventV>(ValueV::Boolean(a > b)),
        comparison_op(TokenV::NotEqual) matches Some(op) && binary_result(
            h,
            binop_code(op),
            ValueV::Number(a),
            ValueV::Number(b),
        ) == Ok::<ValueV, EventV>(ValueV::Boolean(a != b)),
        additive_op(TokenV::Plus) matches Some(op) && (i64::MIN <= a + b <= i64::MAX
            ==> binary_result(h, binop_code(op), ValueV::Number(a), ValueV::Number(b)) == Ok::<
            ValueV,
            EventV,
        >(ValueV::Number((a + b) as i64))),
        additive_op(TokenV::Minus) matches Some(op) && (i64::MIN <= a - b <= i64::MAX
            ==> binary_result(h, binop_code(op), ValueV::Number(a), ValueV::Number(b)) == Ok::<
            ValueV,
            EventV,
        >(ValueV::Number((a - b) as i64))),
        multiplicative_op(TokenV::Star) matches Some(op) && (i64::MIN <= a * b <= i64::MAX
            ==> binary_result(h, binop_code(op), ValueV::Number(a), ValueV::Number(b)) == Ok::<
            ValueV,
            EventV,
        >(ValueV::Number((a * b) as i64))),
        multiplicative_op(TokenV::Slash) matches Some(op) && (b == 0 ==> binary_result(
            h,
            binop_code(op),
            ValueV::Number(a),
            ValueV::Number(b),
        ) == Err::<ValueV, EventV>(EventV::Error("Division by zero"@))),
{
}

/// Escapes in a string literal: `\n`, `\t` and `\r` stand for a newline, a tab and a carriage
/// return, `\"` and `\\` for a quote and a backslash, and a backslash before any other
/// character is kept with it. The rest of the literal is read on after the two characters.
pub proof fn law_string_escapes(s: Seq<char>, p: int)
    requires
        0 <= p,
        p + 1 < s.len(),
        s[p] == '\\',
    ensures
        ({
            let (rest, end) = string_body(s, p + 2);
            let c = s[p + 1];
            &&& string_body(s, p).1 == end
            &&& c == 'n' ==> string_body(s, p).0 == seq!['\n'] + rest
            &&& c == 't' ==> string_body(s, p).0 == seq!['\t'] + rest
            &&& c == 'r' ==> string_body(s, p).0 == seq!['\r'] + rest
            &&& c == '"' ==> string_body(s, p).0 == seq!['"'] + rest
            &&& c == '\\' ==> string_body(s, p).0 == seq!['\\'] + rest
            &&& !(c == 'n' || c == 't' || c == 'r' || c == '"' || c == '\\') ==> string_body(s, p).0
                == seq!['\\', c] + rest
        }),
{
}

/// A string literal without escapes stands for its own characters: when the text from `p` to
/// the closing quote at `q` holds no quote and no backslash, the literal's text is exactly
/// that text, and reading goes on after the quote.
pub proof fn law_plain_string(s: Seq<char>, p: int, q: int)
    requires
        0 <= p <= q < s.len(),
        s[q] == '"',
        forall|i: int| p <= i < q ==> s[i] != '"' && s[i] != '\\',
    ensures
        string_body(s, p) == (s.subrange(p, q), q + 1),
    decreases q - p,
{
    if p < q {
        law_plain_string(s, p + 1, q);
        assert(s.subrange(p, q) =~= seq![s[p]] + s.subrange(p + 1, q));
    } else {
        assert(s.subrange(p, q) =~= Seq::<char>::empty());
    }
}

/// The value an operand of `name op n` (or `n op name`) has when the global holds `v`.
pub open spec fn update_operand(e: ExprV, v: i64) -> ValueV {
    match e {
        ExprV::Literal(l) => lit_value(l),
        _ => ValueV::Number(v),
    }
}

/// A self-update compiled to one instruction (`set x = x + n`, `set x = n + x`,
/// `set x = x - n` outside functions) does what the operator does on the global's value:
/// run from where it was compiled, the instruction leaves the global equal to the operator's
/// result on the old value and `n`, and goes on after itself.
pub proof fn law_self_update_computes_operator(
    c: CompilerV,
    name: Seq<char>,
    value: ExprV,
    s: VmV,
    rest: Seq<u8>,
    consts: Seq<ValueV>,
    v: i64,
)
    requires
        special_assignment(c, name, value).1,
        s.ip == c.code.len(),
        c.global(name).1 < s.globals.len(),
        c.global(name).1 <= u32::MAX,
        s.globals[c.global(name).1 as int] == ValueV::Number(v),
        value is BinaryOp,
        binary_result(
            s.heap,
            binop_code(value->BinaryOp_op),
            update_operand(*value->BinaryOp_left, v),
            update_operand(*value->BinaryOp_right, v),
        ) is Ok,
    ensures
        ({
            let c2 = special_assignment(c, name, value).0;
            let g = c.global(name).1 as int;
            let w = binary_result(
                s.heap,
                binop_code(value->BinaryOp_op),
                update_operand(*value->BinaryOp_left, v),
                update_operand(*value->BinaryOp_right, v),
            )->Ok_0;
            step_spec(s, c2.code + rest, consts) == (
                s.with_ip(c2.code.len() as int).with_globals(s.globals.update(g, w)),
                EventV::Continue,
            )
        }),
{
    let (n, name_first) = self_update(name, value)->0;
    let (c1, g) = c.global(name);
    let op = value->BinaryOp_op;
    let code0 = c.code;
    assert(c1.code == code0);
    if op == BinaryOperator::Add && n == 1 {
        let code = code0.push(OP_INC_GLOBAL) + u32_bytes(g as u32) + rest;
        assert(special_assignment(c, name, value).0.code + rest =~= code);
        assert(code =~= code0.push(OP_INC_GLOBAL) + u32_bytes(g as u32) + rest);
        lemma_u32_roundtrip(code0.push(OP_INC_GLOBAL), g as u32, rest);
        assert(code[s.ip] == OP_INC_GLOBAL);
        assert(crate::bytecode::u32_at(code, s.ip + 1) == g as u32);
        let s1 = s.with_ip(s.ip + 1);
        assert(step_spec(s, code, consts) == crate::ops_vars::inc_global_spec(s1, code));
    } else {
        let k = if op == BinaryOperator::Add { n } else { crate::compile_spec::negated(n) };
        let head = code0.push(OP_ADD_GLOBAL);
        let code = head + u32_bytes(g as u32) + i64_bytes(k) + rest;
        assert(special_assignment(c, name, value).0.code + rest =~= code);
        lemma_u32_roundtrip(head, g as u32, i64_bytes(k) + rest);
        assert(head + u32_bytes(g as u32) + (i64_bytes(k) + rest) =~= code);
        lemma_i64_roundtrip(head + u32_bytes(g as u32), k, rest);
        assert(code[s.ip] == OP_ADD_GLOBAL);
        assert(crate::bytecode::u32_at(code, s.ip + 1) == g as u32);
        assert(crate::bytecode::i64_at(code, s.ip + 5) == k);
        let s1 = s.with_ip(s.ip + 1);
        assert(step_spec(s, code, consts) == crate::ops_vars::add_global_spec(s1, code));
    }
}

/// `not` negates a boolean: the instruction replaces the boolean on top of the stack by its
/// negation.
pub proof fn law_not_negates(s: VmV, b: bool)
    ensures
        crate::ops_values::not_spec(s.push(ValueV::Boolean(b))) == (
            s.push(ValueV::Boolean(!b)),
            EventV::Continue,
        ),
{
    let t = s.push(ValueV::Boolean(b));
    assert(t.popped().stack =~= s.stack);
    assert(t.popped() == s);
}

/// The operator characters are read as the tokens they spell, the two-character ones
/// taking both characters: `<=` is `LessEqual`, `<` alone is `Less`, and so on.
pub proof fn law_operator_characters(s: Seq<char>, p: int)
    requires
        0 <= p < s.len(),
        crate::lexer::skip_spaces_from(s, p) == p,
    ensures
        ({
            let two = p + 1 < s.len() && s[p + 1] == '=';
            let t = crate::lexer::next_token_from(s, p);
            &&& s[p] == '<' ==> t == if two { (TokenV::LessEqual, p + 2) } else { (TokenV::Less, p + 1) }
            &&& s[p] == '>' ==> t == if two { (TokenV::GreaterEqual, p + 2) } else { (TokenV::Greater, p + 1) }
            &&& s[p] == '=' ==> t == if two { (TokenV::EqualEqual, p + 2) } else { (TokenV::Equal, p + 1) }
            &&& s[p] == '!' ==> t == if two { (TokenV::NotEqual, p + 2) } else { (TokenV::Not, p + 1) }
            &&& s[p] == '+' ==> t == (TokenV::Plus, p + 1)
            &&& s[p] == '-' ==> t == (TokenV::Minus, p + 1)
            &&& s[p] == '*' ==> t == (TokenV::Star, p + 1)
            &&& s[p] == '/' && !(p + 1 < s.len() && s[p + 1] == '/') ==> t == (TokenV::Slash, p + 1)
        }),
{
}

/// A binary expression compiles to its operands followed by the instruction of its own
/// operator, the instruction whose meaning `law_comparisons_on_numbers` and
/// `law_arithmetic_on_numbers` state: the left operand's code first, then the right's.
pub proof fn law_binary_compiles_operator(c: CompilerV, l: ExprV, op: BinaryOperator, r: ExprV)
    ensures
        ({
            let e = ExprV::BinaryOp { left: Box::new(l), op, right: Box::new(r) };
            let (c1, e1) = crate::compile_spec::cexpr(c, l);
            let (c2, e2) = crate::compile_spec::cexpr(c1, r);
            e1 is None && e2 is None ==> crate::compile_spec::cexpr(c, e) == (c2.emit1(binop_code(op)), None::<Seq<char>>)
        }),
{
    let e = ExprV::BinaryOp { left: Box::new(l), op, right: Box::new(r) };
    assert(crate::compile_spec::cexpr(c, e) == crate::compile_spec::cbinary(c, e));
}

} // verus!
