//! What compiling each kind of statement and expression emits, as functions from the
//! compiler's state to its next state and the error, if any (`None` when it succeeded).
//! An error stops compilation where it happened; the state is then what was done so far.
use vstd::prelude::*;
use crate::ast::{ExprV, StmtV, LitV, BinaryOperator, UnaryOperator, InputType};
use crate::value::ValueV;
use crate::bytecode::{OP_ADD, OP_SUBTRACT, OP_MULTIPLY, OP_DIVIDE, OP_EQUALS, OP_NOT_EQUALS,
    OP_GREATER, OP_LESS, OP_GREATER_EQUAL, OP_LESS_EQUAL, OP_AND, OP_OR, OP_NOT, OP_PRINT, OP_POP,
    OP_JUMP, OP_JUMP_IF_FALSE, OP_INC_GLOBAL, OP_ADD_GLOBAL, OP_LESS_CONST_JUMP_IF_FALSE,
    OP_LOOP_INC_LESS, OP_NULL, OP_CALL_FUNCTION, OP_RETURN, OP_INPUT, OP_BUILD_ARRAY,
    OP_INDEX_GET, OP_INDEX_SET, OP_ARRAY_LEN, OP_ARRAY_PUSH, OP_ARRAY_POP, OP_BUILD_OBJECT,
    OP_OBJECT_GET_CONST, OP_OBJECT_GET, OP_OBJECT_SET, OP_OBJECT_DELETE,
    OP_OBJECT_GET_OR_CREATE_CONST, OP_OBJECT_GET_OR_CREATE, OP_OBJECT_KEYS, OP_IS_ARRAY,
    OP_IS_OBJECT, OP_MEMBER_LENGTH, OP_LOAD_GLOBAL, OP_STORE_GLOBAL, OP_CONSTANT};
use crate::show::nat_text;
use crate::compiler::{CompilerV, ScopeV, LoopV, import_get, table_get};

verus! {

/// The opcode of a binary operator.
pub open spec fn binop_code(op: BinaryOperator) -> u8 {
    match op {
        BinaryOperator::Add => OP_ADD,
        BinaryOperator::Subtract => OP_SUBTRACT,
        BinaryOperator::Multiply => OP_MULTIPLY,
        BinaryOperator::Divide => OP_DIVIDE,
        BinaryOperator::Equals => OP_EQUALS,
        BinaryOperator::NotEquals => OP_NOT_EQUALS,
        BinaryOperator::GreaterThan => OP_GREATER,
        BinaryOperator::LessThan => OP_LESS,
        BinaryOperator::GreaterOrEqual => OP_GREATER_EQUAL,
        BinaryOperator::LessOrEqual => OP_LESS_EQUAL,
        BinaryOperator::And => OP_AND,
        BinaryOperator::Or => OP_OR,
    }
}

/// The constant a scalar literal stands for.
pub open spec fn lit_value(l: LitV) -> ValueV {
    match l {
        LitV::Number(n) => ValueV::Number(n),
        LitV::Str(s) => ValueV::Str(s),
        LitV::Boolean(b) => ValueV::Boolean(b),
        _ => ValueV::Null,
    }
}

pub open spec fn input_bit(t: InputType) -> u8 {
    match t {
        InputType::String => 1,
        InputType::Int => 2,
        InputType::Float => 4,
    }
}

/// The kinds of the first `n` input types as a mask.
pub open spec fn input_mask(types: Seq<InputType>, n: int) -> u8
    decreases n,
{
    if n <= 0 || n > types.len() {
        0
    } else {
        input_mask(types, n - 1) | input_bit(types[n - 1])
    }
}

/// `value` is `name + n` or `n + name` (or `name - n`, `n - name`) for a number literal `n`:
/// the literal and whether the name came first.
pub open spec fn self_update(name: Seq<char>, value: ExprV) -> Option<(i64, bool)> {
    match value {
        ExprV::BinaryOp { left, op, right } => match (*left, *right) {
            (ExprV::Identifier(src), ExprV::Literal(LitV::Number(n))) => if src == name {
                Some((n, true))
            } else {
                None
            },
            (ExprV::Literal(LitV::Number(n)), ExprV::Identifier(src)) => if src == name {
                Some((n, false))
            } else {
                None
            },
            _ => None,
        },
        _ => None,
    }
}

pub open spec fn negated(n: i64) -> i64 {
    if n == i64::MIN { i64::MIN } else { (-n) as i64 }
}

/// The single-instruction forms of `set name = name + n` and `set name = name - n`, which
/// address the global slot of `name`; they apply only outside functions, where every name is
/// a global. Also says whether they applied.
pub open spec fn special_assignment(c: CompilerV, name: Seq<char>, value: ExprV) -> (CompilerV, bool) {
    if c.scopes.len() > 0 {
        (c, false)
    } else {
    match self_update(name, value) {
        None => (c, false),
        Some((n, name_first)) => {
            let (c1, g) = c.global(name);
            let op = value->BinaryOp_op;
            if op == BinaryOperator::Add {
                if n == 1 {
                    (c1.op4(OP_INC_GLOBAL, g as u32), true)
                } else {
                    (c1.op4(OP_ADD_GLOBAL, g as u32).emit8(n), true)
                }
            } else if op == BinaryOperator::Subtract && name_first && n != i64::MIN {
                (c1.op4(OP_ADD_GLOBAL, g as u32).emit8(negated(n)), true)
            } else {
                (c1, false)
            }
        },
    }
    }
}

/// The body of a `while cond_var < limit` loop is exactly `set cond_var = cond_var + 1`.
pub open spec fn counting_body(body: Seq<StmtV>, cond_var: Seq<char>) -> bool {
    &&& body.len() == 1
    &&& body[0] matches StmtV::Assignment { name, value }
    &&& name == cond_var
    &&& value matches ExprV::BinaryOp { op: BinaryOperator::Add, .. }
    &&& self_update(cond_var, value) matches Some((n, _))
    &&& n == 1
}

/// The keys of an object literal from field `i` on: each a string constant's index.
pub open spec fn field_keys(c: CompilerV, fs: Seq<(Seq<char>, ExprV)>, i: int) -> CompilerV
    decreases fs.len() - i,
{
    if i < 0 || i >= fs.len() {
        c
    } else {
        let (c1, k) = c.constant(ValueV::Str(fs[i].0));
        field_keys(c1.emit4(k), fs, i + 1)
    }
}

pub open spec fn next_count(n: usize) -> usize {
    if n == usize::MAX { 0 } else { (n + 1) as usize }
}

pub open spec fn loop_frame(start: int) -> LoopV {
    LoopV { start: start as usize, continues: Seq::empty(), exits: Seq::empty() }
}

/// Closes the innermost loop: the condition's exit jump and every `break` go to the current
/// end, every `continue` to `cont`.
pub open spec fn close_loop(c: CompilerV, exit: int, cont: int) -> CompilerV {
    let end = c.pos();
    let ctx = c.loops.last();
    c.with_loops(c.loops.drop_last()).patched(exit, end as u32).patched_all(ctx.exits, end as u32).patched_all(
        ctx.continues,
        cont as u32,
    )
}

/// Compiles an expression: its value ends up on the stack.
pub open spec fn cexpr(c: CompilerV, e: ExprV) -> (CompilerV, Option<Seq<char>>)
    decreases e, 1nat,
{
    match e {
        ExprV::Literal(_) => clit(c, e),
        ExprV::Identifier(name) => {
            let (c1, r) = c.resolve(name);
            (c1.load(r), None)
        },
        ExprV::Input { .. } => cinput(c, e),
        ExprV::UnaryOp { .. } => cunary(c, e),
        ExprV::BinaryOp { .. } => cbinary(c, e),
        ExprV::FunctionCall { .. } => ccall(c, e),
        ExprV::Index { .. } => cindex(c, e),
        ExprV::MemberAccess { .. } => cmember(c, e),
        ExprV::Call { .. } => ccall_value(c, e),
        ExprV::FunctionExpr { .. } => cfunction_expr(c, e),
    }
}

/// A literal: arrays and objects are built from their compiled parts, anything else is a
/// constant.
pub open spec fn clit(c: CompilerV, e: ExprV) -> (CompilerV, Option<Seq<char>>)
    decreases e, 0nat,
{
    match e {
        ExprV::Literal(l) => match l {
            LitV::Array { elements, mutable } => match cexprs(c, elements, 0) {
                (c1, Some(err)) => (c1, Some(err)),
                (c1, None) => (
                    c1.emit1(OP_BUILD_ARRAY).emit4(elements.len() as u32).emit1(
                        if mutable { 1u8 } else { 0u8 },
                    ),
                    None,
                ),
            },
            LitV::Object { fields } => match cfield_values(c, fields, 0) {
                (c1, Some(err)) => (c1, Some(err)),
                (c1, None) => (
                    field_keys(c1.emit1(OP_BUILD_OBJECT).emit4(fields.len() as u32), fields, 0),
                    None,
                ),
            },
            _ => (c.emit_constant(lit_value(l)), None),
        },
        _ => (c, None),
    }
}

/// `input<types>(prompt)`.
pub open spec fn cinput(c: CompilerV, e: ExprV) -> (CompilerV, Option<Seq<char>>)
    decreases e, 0nat,
{
    match e {
        ExprV::Input { types, prompt } => match cexpr(c, *prompt) {
            (c1, Some(err)) => (c1, Some(err)),
            (c1, None) => (c1.emit1(OP_INPUT).emit1(input_mask(types, types.len() as int)), None),
        },
        _ => (c, None),
    }
}

/// `not x`.
pub open spec fn cunary(c: CompilerV, e: ExprV) -> (CompilerV, Option<Seq<char>>)
    decreases e, 0nat,
{
    match e {
        ExprV::UnaryOp { expr, .. } => match cexpr(c, *expr) {
            (c1, Some(err)) => (c1, Some(err)),
            (c1, None) => (c1.emit1(OP_NOT), None),
        },
        _ => (c, None),
    }
}

/// `l op r`: both operands, then the operator.
pub open spec fn cbinary(c: CompilerV, e: ExprV) -> (CompilerV, Option<Seq<char>>)
    decreases e, 0nat,
{
    match e {
        ExprV::BinaryOp { left, op, right } => match cexpr(c, *left) {
            (c1, Some(err)) => (c1, Some(err)),
            (c1, None) => match cexpr(c1, *right) {
                (c2, Some(err)) => (c2, Some(err)),
                (c2, None) => (c2.emit1(binop_code(op)), None),
            },
        },
        _ => (c, None),
    }
}

/// `name(args)`: the built-ins `push`, `pop` and `rmv`, or a call of the function `name`.
pub open spec fn ccall(c: CompilerV, e: ExprV) -> (CompilerV, Option<Seq<char>>)
    decreases e, 0nat,
{
    match e {
        ExprV::FunctionCall { name, args } => {
            if name == "push"@ {
                if args.len() != 2 {
                    (c, Some("push() expects 2 arguments"@))
                } else {
                    match cexpr(c, args[0]) {
                        (c1, Some(err)) => (c1, Some(err)),
                        (c1, None) => match cexpr(c1, args[1]) {
                            (c2, Some(err)) => (c2, Some(err)),
                            (c2, None) => (c2.emit1(OP_ARRAY_PUSH).emit1(OP_NULL), None),
                        },
                    }
                }
            } else if name == "pop"@ {
                if args.len() != 1 {
                    (c, Some("pop() expects 1 argument"@))
                } else {
                    match cexpr(c, args[0]) {
                        (c1, Some(err)) => (c1, Some(err)),
                        (c1, None) => (c1.emit1(OP_ARRAY_POP), None),
                    }
                }
            } else if name == "rmv"@ {
                if args.len() != 1 {
                    (c, Some("rmv() expects 1 argument"@))
                } else {
                    proof {
                        assert(decreases_to!(e => args));
                        assert(decreases_to!(args => args[0]));
                    }
                    match cdelete_path(c, args[0]) {
                        (c1, Some(err)) => (c1, Some(err)),
                        (c1, None) => (c1.emit1(OP_NULL), None),
                    }
                }
            } else {
                match cexprs(c, args, 0) {
                    (c1, Some(err)) => (c1, Some(err)),
                    (c1, None) => {
                        let (c2, r) = c1.resolve(name);
                        (c2.load(r).op4(OP_CALL_FUNCTION, args.len() as u32), None)
                    },
                }
            }
        },
        _ => (c, None),
    }
}

/// `object[index]`.
pub open spec fn cindex(c: CompilerV, e: ExprV) -> (CompilerV, Option<Seq<char>>)
    decreases e, 0nat,
{
    match e {
        ExprV::Index { object, index } => match cexpr(c, *object) {
            (c1, Some(err)) => (c1, Some(err)),
            (c1, None) => match cexpr(c1, *index) {
                (c2, Some(err)) => (c2, Some(err)),
                (c2, None) => (c2.emit1(OP_INDEX_GET), None),
            },
        },
        _ => (c, None),
    }
}

/// `object.member`: an imported module's exported function, the `length` of an array, or a
/// property.
pub open spec fn cmember(c: CompilerV, e: ExprV) -> (CompilerV, Option<Seq<char>>)
    decreases e, 0nat,
{
    match e {
        ExprV::MemberAccess { object, member } => {
            let bound = match *object {
                ExprV::Identifier(alias) => import_get(c.imports, alias, 0),
                _ => None,
            };
            match bound {
                Some(exports) => match table_get(exports, member, 0) {
                    Some(g) => (c.op4(OP_LOAD_GLOBAL, g as u32), None),
                    None => (
                        c,
                        Some(
                            "Module '"@ + object->Identifier_0 + "' has no exported function '"@
                                + member + "'"@,
                        ),
                    ),
                },
                None => match cexpr(c, *object) {
                    (c1, Some(err)) => (c1, Some(err)),
                    (c1, None) => if member == "length"@ {
                        (c1.emit1(OP_MEMBER_LENGTH), None)
                    } else {
                        let (c2, k) = c1.constant(ValueV::Str(member));
                        (c2.op4(OP_OBJECT_GET_CONST, k), None)
                    },
                },
            }
        },
        _ => (c, None),
    }
}

/// `callee(args)` for any callee expression.
pub open spec fn ccall_value(c: CompilerV, e: ExprV) -> (CompilerV, Option<Seq<char>>)
    decreases e, 0nat,
{
    match e {
        ExprV::Call { callee, args } => match cexprs(c, args, 0) {
            (c1, Some(err)) => (c1, Some(err)),
            (c1, None) => match cexpr(c1, *callee) {
                (c2, Some(err)) => (c2, Some(err)),
                (c2, None) => (c2.op4(OP_CALL_FUNCTION, args.len() as u32), None),
            },
        },
        _ => (c, None),
    }
}

/// `fn(params) { body }`: the body, then a closure of it.
pub open spec fn cfunction_expr(c: CompilerV, e: ExprV) -> (CompilerV, Option<Seq<char>>)
    decreases e, 0nat,
{
    match e {
        ExprV::FunctionExpr { params, body } => match cfunction(c, params, body) {
            (c1, Err(err)) => (c1, Some(err)),
            (c1, Ok((offset, nparams, caps))) => (c1.make_closure(offset, nparams, caps), None),
        },
        _ => (c, None),
    }
}

/// Compiles `es` from position `i` on, in order.
pub open spec fn cexprs(c: CompilerV, es: Seq<ExprV>, i: int) -> (CompilerV, Option<Seq<char>>)
    decreases es, es.len() - i,
{
    if i < 0 || i >= es.len() {
        (c, None)
    } else {
        match cexpr(c, es[i]) {
            (c1, Some(err)) => (c1, Some(err)),
            (c1, None) => cexprs(c1, es, i + 1),
        }
    }
}

/// Compiles the values of an object literal from field `i` on.
pub open spec fn cfield_values(c: CompilerV, fs: Seq<(Seq<char>, ExprV)>, i: int) -> (
    CompilerV,
    Option<Seq<char>>,
)
    decreases fs, fs.len() - i,
{
    if i < 0 || i >= fs.len() {
        (c, None)
    } else {
        proof {
            assert(decreases_to!(fs => fs[i]));
            assert(decreases_to!(fs[i] => fs[i].1));
        }
        match cexpr(c, fs[i].1) {
            (c1, Some(err)) => (c1, Some(err)),
            (c1, None) => cfield_values(c1, fs, i + 1),
        }
    }
}

/// Compiles a function body behind a jump over it: its offset, parameter count and the
/// values it captures.
pub open spec fn cfunction(c: CompilerV, params: Seq<Seq<char>>, body: Seq<StmtV>) -> (
    CompilerV,
    Result<(u32, u32, Seq<(u8, u32)>), Seq<char>>,
)
    decreases body, body.len() + 1,
{
    let c1 = c.emit1(OP_JUMP);
    let skip = c1.pos();
    let c2 = c1.emit4(0);
    let offset = c2.pos() as u32;
    let c3 = c2.with_scopes(
        c2.scopes.push(ScopeV { locals: params, upvalue_names: Seq::empty(), captures: Seq::empty() }),
    );
    match cblock(c3, body, 0) {
        (c4, Some(err)) => (c4, Err(err)),
        (c4, None) => {
            let c5 = if body.len() > 0 && body.last() is Return {
                c4
            } else {
                c4.emit1(OP_NULL).emit1(OP_RETURN)
            };
            let scope = c5.scopes.last();
            let c6 = c5.with_scopes(c5.scopes.drop_last());
            (c6.patched(skip, c6.pos() as u32), Ok((offset, params.len() as u32, scope.captures)))
        },
    }
}

/// Compiles the statements of a block from position `i` on.
pub open spec fn cblock(c: CompilerV, ss: Seq<StmtV>, i: int) -> (CompilerV, Option<Seq<char>>)
    decreases ss, ss.len() - i,
{
    if i < 0 || i >= ss.len() {
        (c, None)
    } else {
        match cstmt(c, ss[i], false) {
            (c1, Some(err)) => (c1, Some(err)),
            (c1, None) => cblock(c1, ss, i + 1),
        }
    }
}

/// The `if`/`elseif` branches from `i` on: each condition jumps past its block when false,
/// each block ends with a jump to the end. Gives the positions of those jumps.
pub open spec fn cbranches(c: CompilerV, bs: Seq<(ExprV, Seq<StmtV>)>, i: int, jumps: Seq<usize>) -> (
    CompilerV,
    Result<Seq<usize>, Seq<char>>,
)
    decreases bs, bs.len() - i,
{
    if i < 0 || i >= bs.len() {
        (c, Ok(jumps))
    } else {
        proof {
            assert(decreases_to!(bs => bs[i]));
            assert(decreases_to!(bs[i] => bs[i].0));
            assert(decreases_to!(bs[i] => bs[i].1));
        }
        match cexpr(c, bs[i].0) {
            (c1, Some(err)) => (c1, Err(err)),
            (c1, None) => {
                let c2 = c1.emit1(OP_JUMP_IF_FALSE);
                let next = c2.pos();
                match cblock(c2.emit4(0), bs[i].1, 0) {
                    (c4, Some(err)) => (c4, Err(err)),
                    (c4, None) => {
                        let c5 = c4.emit1(OP_JUMP);
                        let over = c5.pos();
                        let c6 = c5.emit4(0);
                        cbranches(c6.patched(next, c6.pos() as u32), bs, i + 1, jumps.push(over as usize))
                    },
                }
            },
        }
    }
}

/// The walk down a property path to the object that holds its last step: the root's value
/// is kept in global `cur_name`, and each step but the last replaces it. With `create`,
/// missing or `null` steps become new objects. Gives the global's slot.
pub open spec fn cwalk(c: CompilerV, e: ExprV, cur_name: Seq<char>, create: bool) -> (
    CompilerV,
    Result<usize, Seq<char>>,
)
    decreases e, 2nat,
{
    match e {
        ExprV::MemberAccess { object, member } => match cwalk(c, *object, cur_name, create) {
            (c1, Err(err)) => (c1, Err(err)),
            (c1, Ok(cur)) => {
                let (c2, k) = c1.op4(OP_LOAD_GLOBAL, cur as u32).constant(ValueV::Str(member));
                (
                    c2.op4(
                        if create { OP_OBJECT_GET_OR_CREATE_CONST } else { OP_OBJECT_GET_CONST },
                        k,
                    ).op4(OP_STORE_GLOBAL, cur as u32),
                    Ok(cur),
                )
            },
        },
        ExprV::Index { object, index } => match cwalk(c, *object, cur_name, create) {
            (c1, Err(err)) => (c1, Err(err)),
            (c1, Ok(cur)) => match cexpr(c1.op4(OP_LOAD_GLOBAL, cur as u32), *index) {
                (c3, Some(err)) => (c3, Err(err)),
                (c3, None) => (
                    c3.emit1(if create { OP_OBJECT_GET_OR_CREATE } else { OP_OBJECT_GET }).op4(
                        OP_STORE_GLOBAL,
                        cur as u32,
                    ),
                    Ok(cur),
                ),
            },
        },
        _ => match cexpr(c, e) {
            (c1, Some(err)) => (c1, Err(err)),
            (c1, None) => {
                let (c2, cur) = c1.global(cur_name);
                (c2.op4(OP_STORE_GLOBAL, cur as u32), Ok(cur))
            },
        },
    }
}

/// The object expression a property path starts from: `target` without its last step.
pub open spec fn path_object(target: ExprV) -> ExprV {
    match target {
        ExprV::MemberAccess { object, .. } => *object,
        ExprV::Index { object, .. } => *object,
        _ => target,
    }
}

/// The start of a property path: a fresh hidden global is named for it, the path is walked
/// (see `cwalk`) and the object that holds the last step is loaded. Gives the global's slot.
pub open spec fn begin_path(c: CompilerV, object: ExprV, create: bool) -> (CompilerV, Result<usize, Seq<char>>)
    decreases object, 3nat,
{
    let id = c.path_counter;
    let c0 = CompilerV { path_counter: next_count(id), ..c };
    match cwalk(c0, object, "__path_cur_"@ + nat_text(id as nat), create) {
        (c1, Err(err)) => (c1, Err(err)),
        (c1, Ok(cur)) => (c1.op4(OP_LOAD_GLOBAL, cur as u32), Ok(cur)),
    }
}

/// `target = value` for a property path `target` (`a.b.c` or `a[k]`...): the objects along
/// the path are made as needed, then the last step is set.
pub open spec fn cassign_path(c: CompilerV, s: StmtV) -> (CompilerV, Option<Seq<char>>)
    decreases s, 1nat,
{
    match s {
        StmtV::PropertyAssign { target, value } => {
            if !(target is MemberAccess || target is Index) {
                (c, Some("Invalid property assignment target"@))
            } else {
                proof {
                    assert(decreases_to!(s => target));
                    assert(decreases_to!(target => path_object(target)));
                }
                match begin_path(c, path_object(target), true) {
                    (c1, Err(err)) => (c1, Some(err)),
                    (c2, Ok(cur)) => {
                        match target {
                            ExprV::MemberAccess { member, .. } => {
                                let (c3, k) = c2.constant(ValueV::Str(member));
                                match cexpr(c3.op4(OP_CONSTANT, k), value) {
                                    (c5, Some(err)) => (c5, Some(err)),
                                    (c5, None) => (c5.emit1(OP_OBJECT_SET), None),
                                }
                            },
                            _ => {
                                proof {
                                    assert(decreases_to!(target => *target->Index_index));
                                }
                                match cexpr(c2, *target->Index_index) {
                                    (c3, Some(err)) => (c3, Some(err)),
                                    (c3, None) => match cexpr(c3, value) {
                                        (c5, Some(err)) => (c5, Some(err)),
                                        (c5, None) => (c5.emit1(OP_OBJECT_SET), None),
                                    },
                                }
                            },
                        }
                    },
                }
            }
        },
        _ => (c, None),
    }
}

/// `rmv(target)` for a property path `target`: the path is followed without making
/// anything, then the last step is removed.
pub open spec fn cdelete_path(c: CompilerV, target: ExprV) -> (CompilerV, Option<Seq<char>>)
    decreases target, 2nat,
{
    if !(target is MemberAccess || target is Index) {
        (c, Some("rmv() requires a property access target"@))
    } else {
        match begin_path(c, path_object(target), false) {
            (c1, Err(err)) => (c1, Some(err)),
            (c2, Ok(cur)) => {
                match target {
                    ExprV::MemberAccess { member, .. } => {
                        let (c3, k) = c2.constant(ValueV::Str(member));
                        (c3.op4(OP_CONSTANT, k).emit1(OP_OBJECT_DELETE), None)
                    },
                    _ => match cexpr(c2, *target->Index_index) {
                        (c3, Some(err)) => (c3, Some(err)),
                        (c3, None) => (c3.emit1(OP_OBJECT_DELETE), None),
                    },
                }
            },
        }
    }
}

/// `break` (or `continue`): a jump the innermost loop patches when it is closed.
pub open spec fn cjump(c: CompilerV, is_break: bool) -> (CompilerV, Option<Seq<char>>) {
    if c.loops.len() == 0 {
        (
            c,
            Some(
                if is_break {
                    "break can only be used inside a loop"@
                } else {
                    "continue can only be used inside a loop"@
                },
            ),
        )
    } else {
        let c1 = c.emit1(OP_JUMP);
        let p = c1.pos() as usize;
        let c2 = c1.emit4(0);
        let l = c2.loops.last();
        let l2 = if is_break {
            LoopV { exits: l.exits.push(p), ..l }
        } else {
            LoopV { continues: l.continues.push(p), ..l }
        };
        (c2.with_loops(c2.loops.update(c2.loops.len() - 1, l2)), None)
    }
}

/// A statement.
pub open spec fn cstmt(c: CompilerV, s: StmtV, repl_print: bool) -> (CompilerV, Option<Seq<char>>)
    decreases s, 2nat,
{
    match s {
        StmtV::Assignment { .. } => cassign(c, s),
        StmtV::Print(e) => match cexpr(c, e) {
            (c1, Some(err)) => (c1, Some(err)),
            (c1, None) => (c1.emit1(OP_PRINT), None),
        },
        StmtV::If { .. } => cif(c, s),
        StmtV::While { .. } => cwhile(c, s),
        StmtV::FunctionDef { .. } => cfundef(c, s),
        StmtV::Import { .. } => (c, None),
        StmtV::Return(e) => match e {
            Some(x) => match cexpr(c, x) {
                (c1, Some(err)) => (c1, Some(err)),
                (c1, None) => (c1.emit1(OP_RETURN), None),
            },
            None => (c.emit1(OP_NULL).emit1(OP_RETURN), None),
        },
        StmtV::IndexAssign { .. } => cindex_assign(c, s),
        StmtV::ForIn { value_name, .. } => match value_name {
            None => cfor_array(c, s),
            Some(_) => cfor_object(c, s),
        },
        StmtV::PropertyAssign { .. } => cassign_path(c, s),
        StmtV::Break => cjump(c, true),
        StmtV::Continue => cjump(c, false),
        StmtV::Expression(e) => match cexpr(c, e) {
            (c1, Some(err)) => (c1, Some(err)),
            (c1, None) => (c1.emit1(if repl_print { OP_PRINT } else { OP_POP }), None),
        },
    }
}

/// `set name = value`: a combined instruction when it applies, else the value stored into
/// the variable `name` resolves to.
pub open spec fn cassign(c: CompilerV, s: StmtV) -> (CompilerV, Option<Seq<char>>)
    decreases s, 1nat,
{
    match s {
        StmtV::Assignment { name, value } => {
            let (c1, done) = special_assignment(c, name, value);
            if done {
                (c1, None)
            } else {
                let (c2, r) = c1.resolve(name);
                match cexpr(c2, value) {
                    (c3, Some(err)) => (c3, Some(err)),
                    (c3, None) => (c3.store(r), None),
                }
            }
        },
        _ => (c, None),
    }
}

/// `if` / `elseif` / `else`: all branch ends jump to the end of the statement.
pub open spec fn cif(c: CompilerV, s: StmtV) -> (CompilerV, Option<Seq<char>>)
    decreases s, 1nat,
{
    match s {
        StmtV::If { branches, else_branch } => match cbranches(c, branches, 0, Seq::empty()) {
            (c1, Err(err)) => (c1, Some(err)),
            (c1, Ok(jumps)) => match else_branch {
                Some(b) => match cblock(c1, b, 0) {
                    (c2, Some(err)) => (c2, Some(err)),
                    (c2, None) => (c2.patched_all(jumps, c2.pos() as u32), None),
                },
                None => (c1.patched_all(jumps, c1.pos() as u32), None),
            },
        },
        _ => (c, None),
    }
}

/// `while cond { body }`: the combined forms when they apply, else the condition, a jump out
/// when it is false, the body and a jump back.
pub open spec fn cwhile(c: CompilerV, s: StmtV) -> (CompilerV, Option<Seq<char>>)
    decreases s, 1nat,
{
    match s {
        StmtV::While { condition, body } => match ccounted_while(c, s) {
            Some(r) => r,
            None => {
                let start = c.pos();
                let c1 = c.with_loops(c.loops.push(loop_frame(start)));
                match cexpr(c1, condition) {
                    (c2, Some(err)) => (c2, Some(err)),
                    (c2, None) => {
                        let c3 = c2.emit1(OP_JUMP_IF_FALSE);
                        let exit = c3.pos();
                        match cblock(c3.emit4(0), body, 0) {
                            (c4, Some(err)) => (c4, Some(err)),
                            (c4, None) => (close_loop(c4.op4(OP_JUMP, start as u32), exit, start), None),
                        }
                    },
                }
            },
        },
        _ => (c, None),
    }
}

/// `fn name(params) { body }`: the function's closure stored into the global `name`.
pub open spec fn cfundef(c: CompilerV, s: StmtV) -> (CompilerV, Option<Seq<char>>)
    decreases s, 1nat,
{
    match s {
        StmtV::FunctionDef { name, params, body, .. } => match cfunction(c, params, body) {
            (c1, Err(err)) => (c1, Some(err)),
            (c1, Ok((offset, nparams, caps))) => {
                let (c2, g) = c1.global(name);
                (c2.make_closure(offset, nparams, caps).op4(OP_STORE_GLOBAL, g as u32), None)
            },
        },
        _ => (c, None),
    }
}

/// `object[index] = value`.
pub open spec fn cindex_assign(c: CompilerV, s: StmtV) -> (CompilerV, Option<Seq<char>>)
    decreases s, 1nat,
{
    match s {
        StmtV::IndexAssign { object, index, value } => match cexpr(c, object) {
            (c1, Some(err)) => (c1, Some(err)),
            (c1, None) => match cexpr(c1, index) {
                (c2, Some(err)) => (c2, Some(err)),
                (c2, None) => match cexpr(c2, value) {
                    (c3, Some(err)) => (c3, Some(err)),
                    (c3, None) => (c3.emit1(OP_INDEX_SET), None),
                },
            },
        },
        _ => (c, None),
    }
}

/// `while v < limit { ... }` with a number literal `limit` compiles to the combined
/// instructions, which address the global slot of `v`; `None` when the condition has another
/// shape, or inside a function, where `v` may be a local.
pub open spec fn ccounted_while(c: CompilerV, s: StmtV) -> Option<(CompilerV, Option<Seq<char>>)>
    decreases s, 0nat,
{
    if c.scopes.len() > 0 {
        None
    } else {
    match s {
        StmtV::While { condition, body } => match condition {
            ExprV::BinaryOp { left, op, right } => if op != BinaryOperator::LessThan {
                None
            } else {
                match (*left, *right) {
                    (ExprV::Identifier(v), ExprV::Literal(LitV::Number(limit))) => {
                        let (c1, g) = c.global(v);
                        if counting_body(body, v) {
                            Some((c1.op4(OP_LOOP_INC_LESS, g as u32).emit8(limit), None))
                        } else {
                            let start = c1.pos();
                            let c2 = c1.with_loops(c1.loops.push(loop_frame(start))).op4(
                                OP_LESS_CONST_JUMP_IF_FALSE,
                                g as u32,
                            ).emit8(limit);
                            let exit = c2.pos();
                            match cblock(c2.emit4(0), body, 0) {
                                (c4, Some(err)) => Some((c4, Some(err))),
                                (c4, None) => Some(
                                    (close_loop(c4.op4(OP_JUMP, start as u32), exit, start), None),
                                ),
                            }
                        }
                    },
                    _ => None,
                }
            },
            _ => None,
        },
        _ => None,
    }
    }
}

/// `for item in array { ... }`: the array and the position live in two hidden globals
/// numbered by the loop; a value that is not an array prints a message instead.
pub open spec fn cfor_array(c: CompilerV, s: StmtV) -> (CompilerV, Option<Seq<char>>)
    decreases s, 1nat,
{
    match s {
        StmtV::ForIn { key_name, iterable, body, .. } => {
            let id = c.for_counter;
            let c0 = CompilerV { for_counter: next_count(id), ..c };
            let arr_name = "__for_arr_"@ + nat_text(id as nat);
            let i_name = "__for_i_"@ + nat_text(id as nat);
            match cexpr(c0, iterable) {
                (c1, Some(err)) => (c1, Some(err)),
                (c1, None) => {
                    let (c2, arr) = c1.global(arr_name);
                    let c3 = c2.op4(OP_STORE_GLOBAL, arr as u32).op4(OP_LOAD_GLOBAL, arr as u32).emit1(
                        OP_IS_ARRAY,
                    ).emit1(OP_JUMP_IF_FALSE);
                    let type_err = c3.pos();
                    let (c5, iv) = c3.emit4(0).emit_constant(ValueV::Number(0)).global(i_name);
                    let c6 = c5.op4(OP_STORE_GLOBAL, iv as u32);
                    let start = c6.pos();
                    let c7 = c6.with_loops(c6.loops.push(loop_frame(start))).op4(OP_LOAD_GLOBAL, iv as u32).op4(
                        OP_LOAD_GLOBAL,
                        arr as u32,
                    ).emit1(OP_ARRAY_LEN).emit1(OP_LESS).emit1(OP_JUMP_IF_FALSE);
                    let exit = c7.pos();
                    let c8 = c7.emit4(0).op4(OP_LOAD_GLOBAL, arr as u32).op4(OP_LOAD_GLOBAL, iv as u32).emit1(
                        OP_INDEX_GET,
                    );
                    let (c9, r) = c8.resolve(key_name);
                    match cblock(c9.store(r), body, 0) {
                        (c11, Some(err)) => (c11, Some(err)),
                        (c11, None) => {
                            let cont = c11.pos();
                            let c12 = c11.op4(OP_LOAD_GLOBAL, iv as u32).emit_constant(ValueV::Number(1)).emit1(
                                OP_ADD,
                            ).op4(OP_STORE_GLOBAL, iv as u32).op4(OP_JUMP, start as u32);
                            let c15 = close_loop(c12, exit, cont).emit1(OP_JUMP);
                            let skip = c15.pos();
                            let c16 = c15.emit4(0);
                            let c18 = c16.patched(type_err, c16.pos() as u32).emit_constant(
                                ValueV::Str("for item in ... requires an array iterable"@),
                            ).emit1(OP_PRINT).emit1(OP_NULL);
                            (c18.patched(skip, c18.pos() as u32), None)
                        },
                    }
                },
            }
        },
        _ => (c, None),
    }
}

/// `for key, value in object { ... }`: the object, its key array and the position live in
/// hidden globals numbered by the loop; a value that is not an object prints a message.
pub open spec fn cfor_object(c: CompilerV, s: StmtV) -> (CompilerV, Option<Seq<char>>)
    decreases s, 1nat,
{
    match s {
        StmtV::ForIn { key_name, value_name: Some(value_name), iterable, body } => {
            let id = c.for_counter;
            let c0 = CompilerV { for_counter: next_count(id), ..c };
            let obj_name = "__for_obj_"@ + nat_text(id as nat);
            let keys_name = "__for_keys_"@ + nat_text(id as nat);
            let i_name = "__for_i_"@ + nat_text(id as nat);
            match cexpr(c0, iterable) {
                (c1, Some(err)) => (c1, Some(err)),
                (c1, None) => {
                    let (c2, obj) = c1.global(obj_name);
                    let c3 = c2.op4(OP_STORE_GLOBAL, obj as u32).op4(OP_LOAD_GLOBAL, obj as u32).emit1(
                        OP_IS_OBJECT,
                    ).emit1(OP_JUMP_IF_FALSE);
                    let type_err = c3.pos();
                    let (c4, keys) = c3.emit4(0).op4(OP_LOAD_GLOBAL, obj as u32).emit1(OP_OBJECT_KEYS).global(
                        keys_name,
                    );
                    let (c5, iv) = c4.op4(OP_STORE_GLOBAL, keys as u32).emit_constant(ValueV::Number(0)).global(
                        i_name,
                    );
                    let c6 = c5.op4(OP_STORE_GLOBAL, iv as u32);
                    let start = c6.pos();
                    let c7 = c6.with_loops(c6.loops.push(loop_frame(start))).op4(OP_LOAD_GLOBAL, iv as u32).op4(
                        OP_LOAD_GLOBAL,
                        keys as u32,
                    ).emit1(OP_ARRAY_LEN).emit1(OP_LESS).emit1(OP_JUMP_IF_FALSE);
                    let exit = c7.pos();
                    let c8 = c7.emit4(0).op4(OP_LOAD_GLOBAL, keys as u32).op4(OP_LOAD_GLOBAL, iv as u32).emit1(
                        OP_INDEX_GET,
                    );
                    let (c9, kr) = c8.resolve(key_name);
                    let c10 = c9.store(kr).op4(OP_LOAD_GLOBAL, obj as u32).load(kr).emit1(OP_OBJECT_GET);
                    let (c11, vr) = c10.resolve(value_name);
                    match cblock(c11.store(vr), body, 0) {
                        (c12, Some(err)) => (c12, Some(err)),
                        (c12, None) => {
                            let cont = c12.pos();
                            let c13 = c12.op4(OP_LOAD_GLOBAL, iv as u32).emit_constant(ValueV::Number(1)).emit1(
                                OP_ADD,
                            ).op4(OP_STORE_GLOBAL, iv as u32).op4(OP_JUMP, start as u32);
                            let c15 = close_loop(c13, exit, cont).emit1(OP_JUMP);
                            let skip = c15.pos();
                            let c16 = c15.emit4(0);
                            let c18 = c16.patched(type_err, c16.pos() as u32).emit_constant(
                                ValueV::Str("for key, value in ... requires an object iterable"@),
                            ).emit1(OP_PRINT).emit1(OP_NULL);
                            (c18.patched(skip, c18.pos() as u32), None)
                        },
                    }
                },
            }
        },
        _ => (c, None),
    }
}

} // verus!
