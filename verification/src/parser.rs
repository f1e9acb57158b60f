//! Recursive-descent parser from tokens to statements.
use vstd::prelude::*;
use crate::ast::{Statement, Expression, Literal, BinaryOperator, UnaryOperator, StmtV, ExprV, LitV, stmts_view, branches_view, lemma_stmts_view_push, lemma_branches_view_push};
use crate::lexer::{Token, TokenV, tokens_view};
use crate::show::{token_text, token_to_string};

verus! {

// ---------------------------------------------------------------------------
// The grammar, stated over the token sequence.
// ---------------------------------------------------------------------------

/// A parse result: the value and the position after it, or the error message.
pub type ExprParse = Result<(ExprV, int), Seq<char>>;

pub type StmtParse = Result<(StmtV, int), Seq<char>>;

pub type BlockParse = Result<(Seq<StmtV>, int), Seq<char>>;

/// The token at `pos`; past the end the parser sees `Eof`.
pub open spec fn tok_at(ts: Seq<TokenV>, pos: int) -> TokenV {
    if 0 <= pos < ts.len() {
        ts[pos]
    } else {
        TokenV::Eof
    }
}

/// The position after consuming one token (the parser never moves past the end).
pub open spec fn next_pos(ts: Seq<TokenV>, pos: int) -> int {
    if pos < ts.len() {
        pos + 1
    } else {
        pos
    }
}

pub open spec fn skip_newlines(ts: Seq<TokenV>, pos: int) -> int
    decreases ts.len() - pos,
{
    if 0 <= pos < ts.len() && ts[pos] is Newline {
        skip_newlines(ts, pos + 1)
    } else {
        pos
    }
}

/// The variant of a token, as a number; tokens of one variant are alike to `expect`.
pub open spec fn kind_index(t: TokenV) -> int {
    match t {
        TokenV::SetKw => 0,
        TokenV::If => 1,
        TokenV::Else => 2,
        TokenV::ElseIf => 3,
        TokenV::While => 4,
        TokenV::True => 5,
        TokenV::False => 6,
        TokenV::Null => 7,
        TokenV::Print => 8,
        TokenV::Identifier(_) => 9,
        TokenV::Number(_) => 10,
        TokenV::Str(_) => 11,
        TokenV::Plus => 12,
        TokenV::Minus => 13,
        TokenV::Star => 14,
        TokenV::Slash => 15,
        TokenV::Equal => 16,
        TokenV::EqualEqual => 17,
        TokenV::NotEqual => 18,
        TokenV::Greater => 19,
        TokenV::Less => 20,
        TokenV::GreaterEqual => 21,
        TokenV::LessEqual => 22,
        TokenV::And => 23,
        TokenV::Or => 24,
        TokenV::Not => 25,
        TokenV::LParen => 26,
        TokenV::RParen => 27,
        TokenV::LBrace => 28,
        TokenV::RBrace => 29,
        TokenV::Newline => 30,
        TokenV::Eof => 31,
        TokenV::Fn => 32,
        TokenV::Return => 33,
        TokenV::Import => 34,
        TokenV::From => 35,
        TokenV::Export => 36,
        TokenV::Break => 37,
        TokenV::Continue => 38,
        TokenV::LBracket => 39,
        TokenV::RBracket => 40,
        TokenV::Comma => 41,
        TokenV::Dot => 42,
        TokenV::For => 44,
        TokenV::In => 45,
        TokenV::Colon => 46,
        TokenV::Hash => 47,
    }
}

pub open spec fn expect_message(expected: TokenV, found: TokenV) -> Seq<char> {
    "Expected "@ + token_text(expected) + ", found "@ + token_text(found)
}

/// Consumes a token of the expected variant, or fails naming both tokens.
pub open spec fn expect_tok(ts: Seq<TokenV>, pos: int, expected: TokenV) -> Result<int, Seq<char>> {
    if kind_index(tok_at(ts, pos)) == kind_index(expected) {
        Ok(next_pos(ts, pos))
    } else {
        Err(expect_message(expected, tok_at(ts, pos)))
    }
}

/// A statement ends at a newline (consumed), or before `}` or the end of input.
pub open spec fn stmt_end(ts: Seq<TokenV>, pos: int) -> Result<int, Seq<char>> {
    match tok_at(ts, pos) {
        TokenV::Newline => Ok(next_pos(ts, pos)),
        TokenV::Eof => Ok(pos),
        TokenV::RBrace => Ok(pos),
        t => Err("Expected newline or end of file, found "@ + token_text(t)),
    }
}

pub open spec fn bin(l: ExprV, op: BinaryOperator, r: ExprV) -> ExprV {
    ExprV::BinaryOp { left: Box::new(l), op, right: Box::new(r) }
}

pub open spec fn p_expr(ts: Seq<TokenV>, pos: int) -> ExprParse
    decreases ts.len() - pos, 9nat,
{
    p_or(ts, pos)
}

pub open spec fn p_or(ts: Seq<TokenV>, pos: int) -> ExprParse
    decreases ts.len() - pos, 8nat,
{
    match p_and(ts, pos) {
        Ok((l, p)) => if pos <= p <= ts.len() { or_tail(ts, l, p) } else { Err(Seq::empty()) },
        Err(m) => Err(m),
    }
}

pub open spec fn or_tail(ts: Seq<TokenV>, left: ExprV, pos: int) -> ExprParse
    decreases ts.len() - pos, 0nat,
{
    if tok_at(ts, pos) is Or {
        match p_and(ts, pos + 1) {
            Ok((r, p)) => if pos < p <= ts.len() {
                or_tail(ts, bin(left, BinaryOperator::Or, r), p)
            } else {
                Err(Seq::empty())
            },
            Err(m) => Err(m),
        }
    } else {
        Ok((left, pos))
    }
}

pub open spec fn p_and(ts: Seq<TokenV>, pos: int) -> ExprParse
    decreases ts.len() - pos, 7nat,
{
    match p_equality(ts, pos) {
        Ok((l, p)) => if pos <= p <= ts.len() { and_tail(ts, l, p) } else { Err(Seq::empty()) },
        Err(m) => Err(m),
    }
}

pub open spec fn and_tail(ts: Seq<TokenV>, left: ExprV, pos: int) -> ExprParse
    decreases ts.len() - pos, 0nat,
{
    if tok_at(ts, pos) is And {
        match p_equality(ts, pos + 1) {
            Ok((r, p)) => if pos < p <= ts.len() {
                and_tail(ts, bin(left, BinaryOperator::And, r), p)
            } else {
                Err(Seq::empty())
            },
            Err(m) => Err(m),
        }
    } else {
        Ok((left, pos))
    }
}

pub open spec fn p_equality(ts: Seq<TokenV>, pos: int) -> ExprParse
    decreases ts.len() - pos, 6nat,
{
    match p_comparison(ts, pos) {
        Ok((l, p)) => if pos <= p <= ts.len() {
            equality_tail(ts, l, p)
        } else {
            Err(Seq::empty())
        },
        Err(m) => Err(m),
    }
}

pub open spec fn equality_tail(ts: Seq<TokenV>, left: ExprV, pos: int) -> ExprParse
    decreases ts.len() - pos, 0nat,
{
    if tok_at(ts, pos) is EqualEqual {
        match p_comparison(ts, pos + 1) {
            Ok((r, p)) => if pos < p <= ts.len() {
                equality_tail(ts, bin(left, BinaryOperator::Equals, r), p)
            } else {
                Err(Seq::empty())
            },
            Err(m) => Err(m),
        }
    } else {
        Ok((left, pos))
    }
}

/// The comparison operator a token stands for (`!=` binds at this level).
pub open spec fn comparison_op(t: TokenV) -> Option<BinaryOperator> {
    match t {
        TokenV::Greater => Some(BinaryOperator::GreaterThan),
        TokenV::Less => Some(BinaryOperator::LessThan),
        TokenV::GreaterEqual => Some(BinaryOperator::GreaterOrEqual),
        TokenV::LessEqual => Some(BinaryOperator::LessOrEqual),
        TokenV::NotEqual => Some(BinaryOperator::NotEquals),
        _ => None,
    }
}

pub open spec fn p_comparison(ts: Seq<TokenV>, pos: int) -> ExprParse
    decreases ts.len() - pos, 5nat,
{
    match p_additive(ts, pos) {
        Ok((l, p)) => if pos <= p <= ts.len() {
            comparison_tail(ts, l, p)
        } else {
            Err(Seq::empty())
        },
        Err(m) => Err(m),
    }
}

pub open spec fn comparison_tail(ts: Seq<TokenV>, left: ExprV, pos: int) -> ExprParse
    decreases ts.len() - pos, 0nat,
{
    match comparison_op(tok_at(ts, pos)) {
        Some(op) => if pos < ts.len() {
            match p_additive(ts, pos + 1) {
                Ok((r, p)) => if pos < p <= ts.len() {
                    comparison_tail(ts, bin(left, op, r), p)
                } else {
                    Err(Seq::empty())
                },
                Err(m) => Err(m),
            }
        } else {
            Err(Seq::empty())
        },
        None => Ok((left, pos)),
    }
}

/// The additive operator a token stands for.
pub open spec fn additive_op(t: TokenV) -> Option<BinaryOperator> {
    match t {
        TokenV::Plus => Some(BinaryOperator::Add),
        TokenV::Minus => Some(BinaryOperator::Subtract),
        _ => None,
    }
}

pub open spec fn p_additive(ts: Seq<TokenV>, pos: int) -> ExprParse
    decreases ts.len() - pos, 4nat,
{
    match p_multiplicative(ts, pos) {
        Ok((l, p)) => if pos <= p <= ts.len() {
            additive_tail(ts, l, p)
        } else {
            Err(Seq::empty())
        },
        Err(m) => Err(m),
    }
}

pub open spec fn additive_tail(ts: Seq<TokenV>, left: ExprV, pos: int) -> ExprParse
    decreases ts.len() - pos, 0nat,
{
    match additive_op(tok_at(ts, pos)) {
        Some(op) => if pos < ts.len() {
            match p_multiplicative(ts, pos + 1) {
                Ok((r, p)) => if pos < p <= ts.len() {
                    additive_tail(ts, bin(left, op, r), p)
                } else {
                    Err(Seq::empty())
                },
                Err(m) => Err(m),
            }
        } else {
            Err(Seq::empty())
        },
        None => Ok((left, pos)),
    }
}

/// The multiplicative operator a token stands for.
pub open spec fn multiplicative_op(t: TokenV) -> Option<BinaryOperator> {
    match t {
        TokenV::Star => Some(BinaryOperator::Multiply),
        TokenV::Slash => Some(BinaryOperator::Divide),
        _ => None,
    }
}

/// A unary operand followed by `*`/`/` operands; the right operands are primaries.
pub open spec fn p_multiplicative(ts: Seq<TokenV>, pos: int) -> ExprParse
    decreases ts.len() - pos, 3nat,
{
    match p_unary(ts, pos) {
        Ok((l, p)) => if pos <= p <= ts.len() {
            multiplicative_tail(ts, l, p)
        } else {
            Err(Seq::empty())
        },
        Err(m) => Err(m),
    }
}

pub open spec fn multiplicative_tail(ts: Seq<TokenV>, left: ExprV, pos: int) -> ExprParse
    decreases ts.len() - pos, 0nat,
{
    match multiplicative_op(tok_at(ts, pos)) {
        Some(op) => if pos < ts.len() {
            match p_primary(ts, pos + 1) {
                Ok((r, p)) => if pos < p <= ts.len() {
                    multiplicative_tail(ts, bin(left, op, r), p)
                } else {
                    Err(Seq::empty())
                },
                Err(m) => Err(m),
            }
        } else {
            Err(Seq::empty())
        },
        None => Ok((left, pos)),
    }
}

pub open spec fn p_unary(ts: Seq<TokenV>, pos: int) -> ExprParse
    decreases ts.len() - pos, 2nat,
{
    if tok_at(ts, pos) is Not {
        match p_unary(ts, pos + 1) {
            Ok((e, p)) => Ok((ExprV::UnaryOp { op: UnaryOperator::Not, expr: Box::new(e) }, p)),
            Err(m) => Err(m),
        }
    } else {
        p_postfix(ts, pos)
    }
}

/// A primary expression followed by member accesses `.name`, calls `(args)` and indexing
/// `[index]`.
pub open spec fn p_postfix(ts: Seq<TokenV>, pos: int) -> ExprParse
    decreases ts.len() - pos, 1nat,
{
    match p_primary(ts, pos) {
        Ok((e, p)) => if pos < p <= ts.len() { postfix_tail(ts, e, p) } else { Err(Seq::empty()) },
        Err(m) => Err(m),
    }
}

pub open spec fn postfix_tail(ts: Seq<TokenV>, e: ExprV, pos: int) -> ExprParse
    decreases ts.len() - pos, 0nat,
{
    match tok_at(ts, pos) {
        TokenV::Dot => match tok_at(ts, pos + 1) {
            TokenV::Identifier(m) => postfix_tail(
                ts,
                ExprV::MemberAccess { object: Box::new(e), member: m },
                pos + 2,
            ),
            t => Err("Expected property name after '.', found "@ + token_text(t)),
        },
        TokenV::LParen => match p_items(ts, Seq::empty(), pos + 1, TokenV::RParen) {
            Ok((args, p)) => if pos < p <= ts.len() {
                postfix_tail(ts, ExprV::Call { callee: Box::new(e), args }, p)
            } else {
                Err(Seq::empty())
            },
            Err(m) => Err(m),
        },
        TokenV::LBracket => match p_expr(ts, pos + 1) {
            Ok((i, p)) => match expect_tok(ts, p, TokenV::RBracket) {
                Ok(q) => if pos < q <= ts.len() {
                    postfix_tail(ts, ExprV::Index { object: Box::new(e), index: Box::new(i) }, q)
                } else {
                    Err(Seq::empty())
                },
                Err(m) => Err(m),
            },
            Err(m) => Err(m),
        },
        _ => Ok((e, pos)),
    }
}

/// Expressions separated by commas up to the closing token `close` (consumed); a comma may
/// follow the last one.
pub open spec fn p_items(ts: Seq<TokenV>, acc: Seq<ExprV>, pos: int, close: TokenV) -> Result<
    (Seq<ExprV>, int),
    Seq<char>,
>
    decreases ts.len() - pos, 10nat,
{
    if kind_index(tok_at(ts, pos)) == kind_index(close) {
        Ok((acc, next_pos(ts, pos)))
    } else {
        match p_expr(ts, pos) {
            Ok((e, p1)) => if tok_at(ts, p1) is Comma {
                if pos < p1 + 1 <= ts.len() {
                    p_items(ts, acc.push(e), p1 + 1, close)
                } else {
                    Err(Seq::empty())
                }
            } else {
                match expect_tok(ts, p1, close) {
                    Ok(p2) => Ok((acc.push(e), p2)),
                    Err(m) => Err(m),
                }
            },
            Err(m) => Err(m),
        }
    }
}

/// The name a property key token gives: an identifier or a string.
pub open spec fn key_name(t: TokenV) -> Option<Seq<char>> {
    match t {
        TokenV::Identifier(k) => Some(k),
        TokenV::Str(k) => Some(k),
        _ => None,
    }
}

/// The fields `key: value` of an object literal, separated by commas, up to `}` (consumed);
/// newlines may come before each field and before the `}`.
pub open spec fn p_fields(ts: Seq<TokenV>, acc: Seq<(Seq<char>, ExprV)>, pos: int) -> Result<
    (Seq<(Seq<char>, ExprV)>, int),
    Seq<char>,
>
    decreases ts.len() - pos, 10nat,
{
    let q = skip_newlines(ts, pos);
    if tok_at(ts, q) is RBrace {
        Ok((acc, next_pos(ts, q)))
    } else {
        match key_name(tok_at(ts, q)) {
            Some(k) => match expect_tok(ts, q + 1, TokenV::Colon) {
                Ok(p1) => if p1 < pos { Err(Seq::empty()) } else { match p_expr(ts, p1) {
                    Ok((v, p2)) => {
                        let q2 = skip_newlines(ts, p2);
                        if tok_at(ts, q2) is Comma {
                            if pos < q2 + 1 <= ts.len() {
                                p_fields(ts, acc.push((k, v)), q2 + 1)
                            } else {
                                Err(Seq::empty())
                            }
                        } else {
                            match expect_tok(ts, q2, TokenV::RBrace) {
                                Ok(p3) => Ok((acc.push((k, v)), p3)),
                                Err(m) => Err(m),
                            }
                        }
                    },
                    Err(m) => Err(m),
                } },
                Err(m) => Err(m),
            },
            None => Err("Expected property name, found "@ + token_text(tok_at(ts, q))),
        }
    }
}

/// The expression that a single literal or identifier token stands for.
pub open spec fn atom(t: TokenV) -> Option<ExprV> {
    match t {
        TokenV::Number(n) => Some(ExprV::Literal(LitV::Number(n))),
        TokenV::Str(s) => Some(ExprV::Literal(LitV::Str(s))),
        TokenV::True => Some(ExprV::Literal(LitV::Boolean(true))),
        TokenV::False => Some(ExprV::Literal(LitV::Boolean(false))),
        TokenV::Null => Some(ExprV::Literal(LitV::Null)),
        TokenV::Identifier(n) => Some(ExprV::Identifier(n)),
        _ => None,
    }
}

/// A parenthesized expression, a function expression `fn(params) { body }`, an array literal
/// `[a, b]` or `#[a, b]`, an object literal `{ key: value }`, a call `name(args)`, or an atom.
pub open spec fn p_primary(ts: Seq<TokenV>, pos: int) -> ExprParse
    decreases ts.len() - pos, 0nat,
{
    let t = tok_at(ts, pos);
    if t is LParen {
        match p_expr(ts, pos + 1) {
            Ok((e, p)) => match expect_tok(ts, p, TokenV::RParen) {
                Ok(q) => Ok((e, q)),
                Err(m) => Err(m),
            },
            Err(m) => Err(m),
        }
    } else if t is LBracket {
        match p_items(ts, Seq::empty(), pos + 1, TokenV::RBracket) {
            Ok((es, p)) => Ok((ExprV::Literal(LitV::Array { elements: es, mutable: true }), p)),
            Err(m) => Err(m),
        }
    } else if t is Fn {
        match expect_tok(ts, pos + 1, TokenV::LParen) {
            Ok(p1) => match p_params(ts, Seq::empty(), p1) {
                Ok((params, p2)) => {
                    let q = skip_newlines(ts, p2);
                    if pos < q <= ts.len() {
                        match p_block(ts, q) {
                            Ok((body, p3)) => Ok((ExprV::FunctionExpr { params, body }, p3)),
                            Err(m) => Err(m),
                        }
                    } else {
                        Err(Seq::empty())
                    }
                },
                Err(m) => Err(m),
            },
            Err(m) => Err(m),
        }
    } else if t is Hash && tok_at(ts, pos + 1) is LBracket {
        match p_items(ts, Seq::empty(), pos + 2, TokenV::RBracket) {
            Ok((es, p)) => Ok((ExprV::Literal(LitV::Array { elements: es, mutable: false }), p)),
            Err(m) => Err(m),
        }
    } else if t is LBrace {
        match p_fields(ts, Seq::empty(), pos + 1) {
            Ok((fs, p)) => Ok((ExprV::Literal(LitV::Object { fields: fs }), p)),
            Err(m) => Err(m),
        }
    } else if t is Identifier && tok_at(ts, pos + 1) is LParen {
        match p_items(ts, Seq::empty(), pos + 2, TokenV::RParen) {
            Ok((args, p)) => Ok((ExprV::FunctionCall { name: t->Identifier_0, args }, p)),
            Err(m) => Err(m),
        }
    } else {
        match atom(t) {
            Some(e) => Ok((e, pos + 1)),
            None => Err("Unexpected token in expression: "@ + token_text(t)),
        }
    }
}

/// A statement, chosen by its first token; anything else is an expression statement.
pub open spec fn p_statement(ts: Seq<TokenV>, pos: int) -> StmtParse
    decreases ts.len() - pos, 12nat,
{
    match tok_at(ts, pos) {
        TokenV::SetKw => p_assignment(ts, pos),
        TokenV::Print => p_print(ts, pos),
        TokenV::If => p_if(ts, pos),
        TokenV::While => p_while(ts, pos),
        TokenV::Fn => p_function(ts, pos, false),
        TokenV::Export => if tok_at(ts, pos + 1) is Fn {
            p_function(ts, pos + 1, true)
        } else {
            Err("Expected 'fn' after 'export', found "@ + token_text(tok_at(ts, pos + 1)))
        },
        TokenV::Return => p_return(ts, pos),
        TokenV::Break => match stmt_end(ts, pos + 1) {
            Ok(p) => Ok((StmtV::Break, p)),
            Err(m) => Err(m),
        },
        TokenV::Continue => match stmt_end(ts, pos + 1) {
            Ok(p) => Ok((StmtV::Continue, p)),
            Err(m) => Err(m),
        },
        TokenV::Import => p_import(ts, pos),
        TokenV::For => p_for(ts, pos),
        _ => p_expr_statement(ts, pos),
    }
}

/// An expression used as a statement.
pub open spec fn p_expr_statement(ts: Seq<TokenV>, pos: int) -> StmtParse
    decreases ts.len() - pos, 11nat,
{
    match p_expr(ts, pos) {
        Ok((e, p1)) => match stmt_end(ts, p1) {
            Ok(p2) => Ok((StmtV::Expression(e), p2)),
            Err(m) => Err(m),
        },
        Err(m) => Err(m),
    }
}

/// `return` with an optional value.
pub open spec fn p_return(ts: Seq<TokenV>, pos: int) -> StmtParse
    decreases ts.len() - pos, 11nat,
{
    let p1 = pos + 1;
    match tok_at(ts, p1) {
        TokenV::Newline | TokenV::Eof | TokenV::RBrace => match stmt_end(ts, p1) {
            Ok(p2) => Ok((StmtV::Return(None), p2)),
            Err(m) => Err(m),
        },
        _ => match p_expr(ts, p1) {
            Ok((e, p2)) => match stmt_end(ts, p2) {
                Ok(p3) => Ok((StmtV::Return(Some(e)), p3)),
                Err(m) => Err(m),
            },
            Err(m) => Err(m),
        },
    }
}

/// `import alias from "path"`.
pub open spec fn p_import(ts: Seq<TokenV>, pos: int) -> StmtParse {
    match tok_at(ts, pos + 1) {
        TokenV::Identifier(alias) => match tok_at(ts, pos + 2) {
            TokenV::From => match tok_at(ts, pos + 3) {
                TokenV::Str(path) => match stmt_end(ts, pos + 4) {
                    Ok(p) => Ok((StmtV::Import { alias, path }, p)),
                    Err(m) => Err(m),
                },
                t => Err("Expected module path string, found "@ + token_text(t)),
            },
            t => Err(expect_message(TokenV::From, t)),
        },
        t => Err("Expected module alias after 'import', found "@ + token_text(t)),
    }
}

/// Parameter names separated by commas, up to `)` (consumed).
pub open spec fn p_params(ts: Seq<TokenV>, acc: Seq<Seq<char>>, pos: int) -> Result<
    (Seq<Seq<char>>, int),
    Seq<char>,
>
    decreases ts.len() - pos,
{
    match tok_at(ts, pos) {
        TokenV::RParen => Ok((acc, pos + 1)),
        TokenV::Identifier(n) => match tok_at(ts, pos + 1) {
            TokenV::Comma => p_params(ts, acc.push(n), pos + 2),
            TokenV::RParen => Ok((acc.push(n), pos + 2)),
            t => Err(expect_message(TokenV::RParen, t)),
        },
        t => Err("Expected parameter name, found "@ + token_text(t)),
    }
}

/// `fn name(params) { body }`, at the `fn` token.
pub open spec fn p_function(ts: Seq<TokenV>, pos: int, exported: bool) -> StmtParse
    decreases ts.len() - pos, 2nat,
{
    match tok_at(ts, pos + 1) {
        TokenV::Identifier(name) => match expect_tok(ts, pos + 2, TokenV::LParen) {
            Ok(p1) => match p_params(ts, Seq::empty(), p1) {
                Ok((params, p2)) => {
                    let q = skip_newlines(ts, p2);
                    if pos < q <= ts.len() {
                        match p_block(ts, q) {
                            Ok((body, p3)) => Ok(
                                (StmtV::FunctionDef { name, params, body, exported }, p3),
                            ),
                            Err(m) => Err(m),
                        }
                    } else {
                        Err(Seq::empty())
                    }
                },
                Err(m) => Err(m),
            },
            Err(m) => Err(m),
        },
        t => Err("Expected function name after 'fn', found "@ + token_text(t)),
    }
}

/// The loop variables of `for k in` or `for k, v in`, and the position after them.
pub open spec fn for_head(ts: Seq<TokenV>, pos: int) -> Result<(Seq<char>, Option<Seq<char>>, int), Seq<char>> {
    match tok_at(ts, pos + 1) {
        TokenV::Identifier(k) => if tok_at(ts, pos + 2) is Comma {
            match tok_at(ts, pos + 3) {
                TokenV::Identifier(v) => Ok((k, Some(v), pos + 4)),
                t => Err("Expected variable name after ',', found "@ + token_text(t)),
            }
        } else {
            Ok((k, None, pos + 2))
        },
        t => Err("Expected loop variable after 'for', found "@ + token_text(t)),
    }
}

/// `for item in iterable { body }` or `for key, value in iterable { body }`, at `for`.
pub open spec fn p_for(ts: Seq<TokenV>, pos: int) -> StmtParse
    decreases ts.len() - pos, 2nat,
{
    match for_head(ts, pos) {
        Ok((k, v, p1)) => match expect_tok(ts, p1, TokenV::In) {
            Ok(p2) => match p_expr(ts, p2) {
                Ok((it, p3)) => {
                    let q = skip_newlines(ts, p3);
                    if pos < q <= ts.len() {
                        match p_block(ts, q) {
                            Ok((body, p4)) => Ok(
                                (StmtV::ForIn { key_name: k, value_name: v, iterable: it, body }, p4),
                            ),
                            Err(m) => Err(m),
                        }
                    } else {
                        Err(Seq::empty())
                    }
                },
                Err(m) => Err(m),
            },
            Err(m) => Err(m),
        },
        Err(m) => Err(m),
    }
}

/// `while cond { body }`, at the `while` token.
pub open spec fn p_while(ts: Seq<TokenV>, pos: int) -> StmtParse
    decreases ts.len() - pos, 2nat,
{
    if pos >= ts.len() {
        Err(Seq::empty())
    } else {
    match p_expr(ts, pos + 1) {
        Ok((cond, p1)) => {
            let q = skip_newlines(ts, p1);
            if pos < q <= ts.len() {
                match p_block(ts, q) {
                    Ok((body, p2)) => Ok((StmtV::While { condition: cond, body }, p2)),
                    Err(m) => Err(m),
                }
            } else {
                Err(Seq::empty())
            }
        },
        Err(m) => Err(m),
    }
    }
}

/// The statement that assigns `value` to `target`: a variable, a property or an element.
pub open spec fn assign_to(target: ExprV, value: ExprV) -> Result<StmtV, Seq<char>> {
    match target {
        ExprV::Identifier(name) => Ok(StmtV::Assignment { name, value }),
        ExprV::MemberAccess { .. } => Ok(StmtV::PropertyAssign { target, value }),
        ExprV::Index { object, index } => Ok(StmtV::IndexAssign { object: *object, index: *index, value }),
        _ => Err("Invalid assignment target"@),
    }
}

/// `set target = value`, where the target is a name, possibly followed by `.name` and
/// `[index]`.
pub open spec fn p_assignment(ts: Seq<TokenV>, pos: int) -> StmtParse
    decreases ts.len() - pos, 2nat,
{
    match expect_tok(ts, pos, TokenV::SetKw) {
        Ok(p1) => match tok_at(ts, p1) {
            TokenV::Identifier(_) => match p_postfix(ts, p1) {
                Ok((target, p2)) => {
                    let p3 = skip_newlines(ts, p2);
                    match expect_tok(ts, p3, TokenV::Equal) {
                        Ok(p4) => if p4 <= pos { Err(Seq::empty()) } else { match p_expr(ts, p4) {
                            Ok((value, p5)) => match stmt_end(ts, p5) {
                                Ok(p6) => match assign_to(target, value) {
                                    Ok(st) => Ok((st, p6)),
                                    Err(m) => Err(m),
                                },
                                Err(m) => Err(m),
                            },
                            Err(m) => Err(m),
                        } },
                        Err(m) => Err(m),
                    }
                },
                Err(m) => Err(m),
            },
            _ => Err("Expected identifier after 'set'"@),
        },
        Err(m) => Err(m),
    }
}

pub open spec fn p_print(ts: Seq<TokenV>, pos: int) -> StmtParse
    decreases ts.len() - pos, 2nat,
{
    match expect_tok(ts, pos, TokenV::Print) {
        Ok(p1) => match expect_tok(ts, p1, TokenV::LParen) {
            Ok(p2) => match p_expr(ts, p2) {
                Ok((e, p3)) => match expect_tok(ts, p3, TokenV::RParen) {
                    Ok(p4) => match stmt_end(ts, p4) {
                        Ok(p5) => Ok((StmtV::Print(e), p5)),
                        Err(m) => Err(m),
                    },
                    Err(m) => Err(m),
                },
                Err(m) => Err(m),
            },
            Err(m) => Err(m),
        },
        Err(m) => Err(m),
    }
}

pub open spec fn p_if(ts: Seq<TokenV>, pos: int) -> StmtParse
    decreases ts.len() - pos, 2nat,
{
    match expect_tok(ts, pos, TokenV::If) {
        Ok(p1) => match p_expr(ts, p1) {
            Ok((cond, p2)) => {
                let q1 = skip_newlines(ts, p2);
                if pos < q1 <= ts.len() {
                    match p_block(ts, q1) {
                        Ok((body, p3)) => {
                            let q2 = skip_newlines(ts, p3);
                            if pos < q2 <= ts.len() {
                                elseif_tail(ts, seq![(cond, body)], q2)
                            } else {
                                Err(Seq::empty())
                            }
                        },
                        Err(m) => Err(m),
                    }
                } else {
                    Err(Seq::empty())
                }
            },
            Err(m) => Err(m),
        },
        Err(m) => Err(m),
    }
}

/// The `elseif` branches and the optional `else` block after an `if` block.
pub open spec fn elseif_tail(
    ts: Seq<TokenV>,
    branches: Seq<(ExprV, Seq<StmtV>)>,
    pos: int,
) -> StmtParse
    decreases ts.len() - pos, 0nat,
{
    if tok_at(ts, pos) is ElseIf {
        match p_expr(ts, pos + 1) {
            Ok((cond, p1)) => {
                let q1 = skip_newlines(ts, p1);
                if pos < q1 <= ts.len() {
                    match p_block(ts, q1) {
                        Ok((body, p2)) => {
                            let q2 = skip_newlines(ts, p2);
                            if pos < q2 <= ts.len() {
                                elseif_tail(ts, branches.push((cond, body)), q2)
                            } else {
                                Err(Seq::empty())
                            }
                        },
                        Err(m) => Err(m),
                    }
                } else {
                    Err(Seq::empty())
                }
            },
            Err(m) => Err(m),
        }
    } else if tok_at(ts, pos) is Else {
        let q = skip_newlines(ts, pos + 1);
        if pos < q <= ts.len() {
            match p_block(ts, q) {
                Ok((body, p)) => Ok((StmtV::If { branches, else_branch: Some(body) }, p)),
                Err(m) => Err(m),
            }
        } else {
            Err(Seq::empty())
        }
    } else {
        Ok((StmtV::If { branches, else_branch: None }, pos))
    }
}

pub open spec fn p_block(ts: Seq<TokenV>, pos: int) -> BlockParse
    decreases ts.len() - pos, 1nat,
{
    match expect_tok(ts, pos, TokenV::LBrace) {
        Ok(p1) => if pos < p1 <= ts.len() { block_items(ts, Seq::empty(), p1) } else { Err(Seq::empty()) },
        Err(m) => Err(m),
    }
}

/// The statements of a block from `pos` up to and including its `}`.
pub open spec fn block_items(ts: Seq<TokenV>, acc: Seq<StmtV>, pos: int) -> BlockParse
    decreases ts.len() - pos, 13nat,
{
    if tok_at(ts, pos) is RBrace {
        Ok((acc, pos + 1))
    } else if tok_at(ts, pos) is Newline {
        block_items(ts, acc, pos + 1)
    } else {
        match p_statement(ts, pos) {
            Ok((s, p1)) => {
                let p2 = if tok_at(ts, p1) is Newline { p1 + 1 } else { p1 };
                if pos < p2 <= ts.len() {
                    block_items(ts, acc.push(s), p2)
                } else {
                    Err(Seq::empty())
                }
            },
            Err(m) => Err(m),
        }
    }
}

/// A whole program from `pos`: statements separated by newlines, up to `Eof`.
pub open spec fn p_program(ts: Seq<TokenV>, acc: Seq<StmtV>, pos: int) -> Result<Seq<StmtV>, Seq<char>>
    decreases ts.len() - pos,
{
    let p = skip_newlines(ts, pos);
    if tok_at(ts, p) is Eof {
        Ok(acc)
    } else {
        match p_statement(ts, p) {
            Ok((s, p1)) => if pos < p1 <= ts.len() {
                p_program(ts, acc.push(s), p1)
            } else {
                Err(Seq::empty())
            },
            Err(m) => Err(m),
        }
    }
}

/// The statements of a token sequence.
pub open spec fn parse_spec(ts: Seq<TokenV>) -> Result<Seq<StmtV>, Seq<char>> {
    p_program(ts, Seq::empty(), 0)
}


// ---------------------------------------------------------------------------
// The parser.
// ---------------------------------------------------------------------------

/// An expression parse as the spec describes it: the same tree and end, or the same message.
pub open spec fn expr_agrees(r: Result<Expression, String>, end: int, s: ExprParse) -> bool {
    match (r, s) {
        (Ok(e), Ok((v, p))) => e@ == v && end == p,
        (Err(m), Err(sm)) => m@ == sm,
        _ => false,
    }
}

pub open spec fn stmt_agrees(r: Result<Statement, String>, end: int, s: StmtParse) -> bool {
    match (r, s) {
        (Ok(st), Ok((v, p))) => st@ == v && end == p,
        (Err(m), Err(sm)) => m@ == sm,
        _ => false,
    }
}

pub open spec fn block_agrees(r: Result<Vec<Statement>, String>, end: int, s: BlockParse) -> bool {
    match (r, s) {
        (Ok(b), Ok((v, p))) => stmts_view(b@) == v && end == p,
        (Err(m), Err(sm)) => m@ == sm,
        _ => false,
    }
}

fn kind_of(t: &Token) -> (k: u8)
    ensures
        k as int == kind_index(t@),
{
    match t {
        Token::SetKw => 0,
        Token::If => 1,
        Token::Else => 2,
        Token::ElseIf => 3,
        Token::While => 4,
        Token::True => 5,
        Token::False => 6,
        Token::Null => 7,
        Token::Print => 8,
        Token::Identifier(_) => 9,
        Token::Number(_) => 10,
        Token::String(_) => 11,
        Token::Plus => 12,
        Token::Minus => 13,
        Token::Star => 14,
        Token::Slash => 15,
        Token::Equal => 16,
        Token::EqualEqual => 17,
        Token::NotEqual => 18,
        Token::Greater => 19,
        Token::Less => 20,
        Token::GreaterEqual => 21,
        Token::LessEqual => 22,
        Token::And => 23,
        Token::Or => 24,
        Token::Not => 25,
        Token::LParen => 26,
        Token::RParen => 27,
        Token::LBrace => 28,
        Token::RBrace => 29,
        Token::Newline => 30,
        Token::Eof => 31,
        Token::Fn => 32,
        Token::Return => 33,
        Token::Import => 34,
        Token::From => 35,
        Token::Export => 36,
        Token::Break => 37,
        Token::Continue => 38,
        Token::LBracket => 39,
        Token::RBracket => 40,
        Token::Comma => 41,
        Token::Dot => 42,
        Token::For => 44,
        Token::In => 45,
        Token::Colon => 46,
        Token::Hash => 47,
    }
}

const KIND_IDENTIFIER: u8 = 9;
const KIND_EQUAL_EQUAL: u8 = 17;
const KIND_AND: u8 = 23;
const KIND_OR: u8 = 24;
const KIND_NOT: u8 = 25;
const KIND_LPAREN: u8 = 26;
const KIND_RBRACE: u8 = 29;
const KIND_NEWLINE: u8 = 30;
const KIND_EOF: u8 = 31;
const KIND_ELSE: u8 = 2;
const KIND_SET: u8 = 0;
const KIND_IF: u8 = 1;
const KIND_PRINT: u8 = 8;
const KIND_ELSE_IF: u8 = 3;
const KIND_WHILE: u8 = 4;
const KIND_RPAREN: u8 = 27;
const KIND_FN: u8 = 32;
const KIND_RETURN: u8 = 33;
const KIND_IMPORT: u8 = 34;
const KIND_FROM: u8 = 35;
const KIND_EXPORT: u8 = 36;
const KIND_BREAK: u8 = 37;
const KIND_CONTINUE: u8 = 38;
const KIND_LBRACKET: u8 = 39;
const KIND_DOT: u8 = 42;
const KIND_COMMA: u8 = 41;
const KIND_LBRACE: u8 = 28;
const KIND_FOR: u8 = 44;
const KIND_HASH: u8 = 47;

pub struct Parser {
    tokens: Vec<Token>,
    position: usize,
}

impl Parser {
    #[verifier::type_invariant]
    spec fn inv(self) -> bool {
        self.position <= self.tokens.len()
    }

    /// The tokens being parsed.
    pub closed spec fn toks(&self) -> Seq<TokenV> {
        tokens_view(self.tokens@)
    }

    /// The position of the next token to read.
    pub closed spec fn pos(&self) -> int {
        self.position as int
    }

    pub fn new(tokens: Vec<Token>) -> (p: Parser)
        ensures
            p.toks() == tokens_view(tokens@),
            p.pos() == 0,
    {
        Parser { tokens, position: 0 }
    }

    fn current_token(&self) -> (t: &Token)
        ensures
            t@ == tok_at(self.toks(), self.pos()),
    {
        if self.position < self.tokens.len() {
            &self.tokens[self.position]
        } else {
            &Token::Eof
        }
    }

    fn current_kind(&self) -> (k: u8)
        ensures
            k as int == kind_index(tok_at(self.toks(), self.pos())),
    {
        kind_of(self.current_token())
    }

    fn advance(&mut self)
        ensures
            final(self).toks() == old(self).toks(),
            final(self).pos() == next_pos(old(self).toks(), old(self).pos()),
    {
        if self.position < self.tokens.len() {
            self.position = self.position + 1;
        }
    }

    fn skip_newlines(&mut self)
        ensures
            final(self).toks() == old(self).toks(),
            final(self).pos() == skip_newlines(old(self).toks(), old(self).pos()),
            old(self).pos() <= final(self).pos(),
    {
        let ghost ts = self.toks();
        let ghost target = skip_newlines(ts, self.pos());
        let ghost start = self.pos();
        loop
            invariant
                self.toks() == ts,
                skip_newlines(ts, self.pos()) == target,
                start <= self.pos(),
            ensures
                self.toks() == ts,
                self.pos() == target,
                start <= self.pos(),
            decreases ts.len() - self.pos(),
        {
            proof {
                use_type_invariant(&*self);
            }
            if self.current_kind() == KIND_NEWLINE {
                self.advance();
            } else {
                break;
            }
        }
    }

    fn expect(&mut self, expected: Token) -> (r: Result<(), String>)
        ensures
            final(self).toks() == old(self).toks(),
            match (r, expect_tok(old(self).toks(), old(self).pos(), expected@)) {
                (Ok(()), Ok(p)) => final(self).pos() == p,
                (Err(m), Err(sm)) => m@ == sm,
                _ => false,
            },
    {
        if kind_of(self.current_token()) == kind_of(&expected) {
            self.advance();
            Ok(())
        } else {
            let mut msg = "Expected ".to_owned();
            msg.append(token_to_string(&expected).as_str());
            msg.append(", found ");
            msg.append(token_to_string(self.current_token()).as_str());
            Err(msg)
        }
    }

    fn expect_statement_end(&mut self) -> (r: Result<(), String>)
        ensures
            final(self).toks() == old(self).toks(),
            match (r, stmt_end(old(self).toks(), old(self).pos())) {
                (Ok(()), Ok(p)) => final(self).pos() == p,
                (Err(m), Err(sm)) => m@ == sm,
                _ => false,
            },
    {
        match self.current_token() {
            Token::Newline => {
                self.advance();
                Ok(())
            },
            Token::Eof | Token::RBrace => Ok(()),
            t => {
                let mut msg = "Expected newline or end of file, found ".to_owned();
                msg.append(token_to_string(t).as_str());
                Err(msg)
            },
        }
    }

    fn parse_expression(&mut self) -> (r: Result<Expression, String>)
        ensures
            final(self).toks() == old(self).toks(),
            expr_agrees(r, final(self).pos(), p_expr(old(self).toks(), old(self).pos())),
            r is Ok ==> final(self).pos() > old(self).pos(),
        decreases old(self).toks().len() - old(self).pos(), 9nat,
    {
        self.parse_or()
    }

    fn parse_or(&mut self) -> (r: Result<Expression, String>)
        ensures
            final(self).toks() == old(self).toks(),
            expr_agrees(r, final(self).pos(), p_or(old(self).toks(), old(self).pos())),
            r is Ok ==> final(self).pos() > old(self).pos(),
        decreases old(self).toks().len() - old(self).pos(), 8nat,
    {
        let ghost ts = self.toks();
        let ghost start = self.pos();
        let mut left = match self.parse_and() {
            Ok(e) => e,
            Err(m) => return Err(m),
        };
        proof {
            use_type_invariant(&*self);
        }
        let ghost target = or_tail(ts, left@, self.pos());
        assert(p_or(ts, start) == target);
        let mut outcome: Result<Expression, String>;
        loop
            invariant_except_break
                start < self.pos(),
                or_tail(ts, left@, self.pos()) == target,
            invariant
                self.toks() == ts,
                start == old(self).pos(),
                ts == old(self).toks(),
            ensures
                outcome is Ok ==> start < self.pos(),
                expr_agrees(outcome, self.pos(), target),
            decreases ts.len() - self.pos(),
        {
            proof {
                use_type_invariant(&*self);
            }
            if self.current_kind() != KIND_OR {
                outcome = Ok(left);
                break;
            }
            self.advance();
            let right = match self.parse_and() {
                Ok(e) => e,
                Err(m) => {
                    outcome = Err(m);
                    break;
                },
            };
            proof {
                use_type_invariant(&*self);
            }
            left = Expression::BinaryOp {
                left: Box::new(left),
                op: BinaryOperator::Or,
                right: Box::new(right),
            };
        }
        outcome
    }

    fn parse_and(&mut self) -> (r: Result<Expression, String>)
        ensures
            final(self).toks() == old(self).toks(),
            expr_agrees(r, final(self).pos(), p_and(old(self).toks(), old(self).pos())),
            r is Ok ==> final(self).pos() > old(self).pos(),
        decreases old(self).toks().len() - old(self).pos(), 7nat,
    {
        let ghost ts = self.toks();
        let ghost start = self.pos();
        let mut left = match self.parse_equality() {
            Ok(e) => e,
            Err(m) => return Err(m),
        };
        proof {
            use_type_invariant(&*self);
        }
        let ghost target = and_tail(ts, left@, self.pos());
        assert(p_and(ts, start) == target);
        let mut outcome: Result<Expression, String>;
        loop
            invariant_except_break
                start < self.pos(),
                and_tail(ts, left@, self.pos()) == target,
            invariant
                self.toks() == ts,
                start == old(self).pos(),
                ts == old(self).toks(),
            ensures
                outcome is Ok ==> start < self.pos(),
                expr_agrees(outcome, self.pos(), target),
            decreases ts.len() - self.pos(),
        {
            proof {
                use_type_invariant(&*self);
            }
            if self.current_kind() != KIND_AND {
                outcome = Ok(left);
                break;
            }
            self.advance();
            let right = match self.parse_equality() {
                Ok(e) => e,
                Err(m) => {
                    outcome = Err(m);
                    break;
                },
            };
            proof {
                use_type_invariant(&*self);
            }
            left = Expression::BinaryOp {
                left: Box::new(left),
                op: BinaryOperator::And,
                right: Box::new(right),
            };
        }
        outcome
    }

    fn parse_equality(&mut self) -> (r: Result<Expression, String>)
        ensures
            final(self).toks() == old(self).toks(),
            expr_agrees(r, final(self).pos(), p_equality(old(self).toks(), old(self).pos())),
            r is Ok ==> final(self).pos() > old(self).pos(),
        decreases old(self).toks().len() - old(self).pos(), 6nat,
    {
        let ghost ts = self.toks();
        let ghost start = self.pos();
        let mut left = match self.parse_comparison() {
            Ok(e) => e,
            Err(m) => return Err(m),
        };
        proof {
            use_type_invariant(&*self);
        }
        let ghost target = equality_tail(ts, left@, self.pos());
        assert(p_equality(ts, start) == target);
        let mut outcome: Result<Expression, String>;
        loop
            invariant_except_break
                start < self.pos(),
                equality_tail(ts, left@, self.pos()) == target,
            invariant
                self.toks() == ts,
                start == old(self).pos(),
                ts == old(self).toks(),
            ensures
                outcome is Ok ==> start < self.pos(),
                expr_agrees(outcome, self.pos(), target),
            decreases ts.len() - self.pos(),
        {
            proof {
                use_type_invariant(&*self);
            }
            if self.current_kind() != KIND_EQUAL_EQUAL {
                outcome = Ok(left);
                break;
            }
            self.advance();
            let right = match self.parse_comparison() {
                Ok(e) => e,
                Err(m) => {
                    outcome = Err(m);
                    break;
                },
            };
            proof {
                use_type_invariant(&*self);
            }
            left = Expression::BinaryOp {
                left: Box::new(left),
                op: BinaryOperator::Equals,
                right: Box::new(right),
            };
        }
        outcome
    }

    fn comparison_operator(&self) -> (r: Option<BinaryOperator>)
        ensures
            r == comparison_op(tok_at(self.toks(), self.pos())),
    {
        match self.current_token() {
            Token::Greater => Some(BinaryOperator::GreaterThan),
            Token::Less => Some(BinaryOperator::LessThan),
            Token::GreaterEqual => Some(BinaryOperator::GreaterOrEqual),
            Token::LessEqual => Some(BinaryOperator::LessOrEqual),
            Token::NotEqual => Some(BinaryOperator::NotEquals),
            _ => None,
        }
    }

    fn parse_comparison(&mut self) -> (r: Result<Expression, String>)
        ensures
            final(self).toks() == old(self).toks(),
            expr_agrees(r, final(self).pos(), p_comparison(old(self).toks(), old(self).pos())),
            r is Ok ==> final(self).pos() > old(self).pos(),
        decreases old(self).toks().len() - old(self).pos(), 5nat,
    {
        let ghost ts = self.toks();
        let ghost start = self.pos();
        let mut left = match self.parse_additive() {
            Ok(e) => e,
            Err(m) => return Err(m),
        };
        proof {
            use_type_invariant(&*self);
        }
        let ghost target = comparison_tail(ts, left@, self.pos());
        assert(p_comparison(ts, start) == target);
        let mut outcome: Result<Expression, String>;
        loop
            invariant_except_break
                start < self.pos(),
                comparison_tail(ts, left@, self.pos()) == target,
            invariant
                self.toks() == ts,
                start == old(self).pos(),
                ts == old(self).toks(),
            ensures
                outcome is Ok ==> start < self.pos(),
                expr_agrees(outcome, self.pos(), target),
            decreases ts.len() - self.pos(),
        {
            proof {
                use_type_invariant(&*self);
            }
            let op = match self.comparison_operator() {
                Some(op) => op,
                None => {
                    outcome = Ok(left);
                    break;
                },
            };
            self.advance();
            let right = match self.parse_additive() {
                Ok(e) => e,
                Err(m) => {
                    outcome = Err(m);
                    break;
                },
            };
            proof {
                use_type_invariant(&*self);
            }
            left = Expression::BinaryOp { left: Box::new(left), op, right: Box::new(right) };
        }
        outcome
    }

    fn additive_operator(&self) -> (r: Option<BinaryOperator>)
        ensures
            r == additive_op(tok_at(self.toks(), self.pos())),
    {
        match self.current_token() {
            Token::Plus => Some(BinaryOperator::Add),
            Token::Minus => Some(BinaryOperator::Subtract),
            _ => None,
        }
    }

    fn parse_additive(&mut self) -> (r: Result<Expression, String>)
        ensures
            final(self).toks() == old(self).toks(),
            expr_agrees(r, final(self).pos(), p_additive(old(self).toks(), old(self).pos())),
            r is Ok ==> final(self).pos() > old(self).pos(),
        decreases old(self).toks().len() - old(self).pos(), 4nat,
    {
        let ghost ts = self.toks();
        let ghost start = self.pos();
        let mut left = match self.parse_multiplicative() {
            Ok(e) => e,
            Err(m) => return Err(m),
        };
        proof {
            use_type_invariant(&*self);
        }
        let ghost target = additive_tail(ts, left@, self.pos());
        assert(p_additive(ts, start) == target);
        let mut outcome: Result<Expression, String>;
        loop
            invariant_except_break
                start < self.pos(),
                additive_tail(ts, left@, self.pos()) == target,
            invariant
                self.toks() == ts,
                start == old(self).pos(),
                ts == old(self).toks(),
            ensures
                outcome is Ok ==> start < self.pos(),
                expr_agrees(outcome, self.pos(), target),
            decreases ts.len() - self.pos(),
        {
            proof {
                use_type_invariant(&*self);
            }
            let op = match self.additive_operator() {
                Some(op) => op,
                None => {
                    outcome = Ok(left);
                    break;
                },
            };
            self.advance();
            let right = match self.parse_multiplicative() {
                Ok(e) => e,
                Err(m) => {
                    outcome = Err(m);
                    break;
                },
            };
            proof {
                use_type_invariant(&*self);
            }
            left = Expression::BinaryOp { left: Box::new(left), op, right: Box::new(right) };
        }
        outcome
    }

    fn multiplicative_operator(&self) -> (r: Option<BinaryOperator>)
        ensures
            r == multiplicative_op(tok_at(self.toks(), self.pos())),
    {
        match self.current_token() {
            Token::Star => Some(BinaryOperator::Multiply),
            Token::Slash => Some(BinaryOperator::Divide),
            _ => None,
        }
    }

    fn parse_multiplicative(&mut self) -> (r: Result<Expression, String>)
        ensures
            final(self).toks() == old(self).toks(),
            expr_agrees(r, final(self).pos(), p_multiplicative(old(self).toks(), old(self).pos())),
            r is Ok ==> final(self).pos() > old(self).pos(),
        decreases old(self).toks().len() - old(self).pos(), 3nat,
    {
        let ghost ts = self.toks();
        let ghost start = self.pos();
        let mut left = match self.parse_unary() {
            Ok(e) => e,
            Err(m) => return Err(m),
        };
        proof {
            use_type_invariant(&*self);
        }
        let ghost target = multiplicative_tail(ts, left@, self.pos());
        assert(p_multiplicative(ts, start) == target);
        let mut outcome: Result<Expression, String>;
        loop
            invariant_except_break
                start < self.pos(),
                multiplicative_tail(ts, left@, self.pos()) == target,
            invariant
                self.toks() == ts,
                start == old(self).pos(),
                ts == old(self).toks(),
            ensures
                outcome is Ok ==> start < self.pos(),
                expr_agrees(outcome, self.pos(), target),
            decreases ts.len() - self.pos(),
        {
            proof {
                use_type_invariant(&*self);
            }
            let op = match self.multiplicative_operator() {
                Some(op) => op,
                None => {
                    outcome = Ok(left);
                    break;
                },
            };
            self.advance();
            let right = match self.parse_primary() {
                Ok(e) => e,
                Err(m) => {
                    outcome = Err(m);
                    break;
                },
            };
            proof {
                use_type_invariant(&*self);
            }
            left = Expression::BinaryOp { left: Box::new(left), op, right: Box::new(right) };
        }
        outcome
    }

    fn parse_unary(&mut self) -> (r: Result<Expression, String>)
        ensures
            final(self).toks() == old(self).toks(),
            expr_agrees(r, final(self).pos(), p_unary(old(self).toks(), old(self).pos())),
            r is Ok ==> final(self).pos() > old(self).pos(),
        decreases old(self).toks().len() - old(self).pos(), 2nat,
    {
        proof {
            use_type_invariant(&*self);
        }
        if self.current_kind() == KIND_NOT {
            self.advance();
            let expr = match self.parse_unary() {
                Ok(e) => e,
                Err(m) => return Err(m),
            };
            Ok(Expression::UnaryOp { op: UnaryOperator::Not, expr: Box::new(expr) })
        } else {
            self.parse_postfix()
        }
    }

    /// The variant of the token after the current one.
    fn peek_kind(&self) -> (k: u8)
        ensures
            k as int == kind_index(tok_at(self.toks(), self.pos() + 1)),
    {
        proof {
            use_type_invariant(self);
        }
        if self.tokens.len() - self.position > 1 {
            kind_of(&self.tokens[self.position + 1])
        } else {
            KIND_EOF
        }
    }

    #[verifier::rlimit(60)]
    #[verifier::spinoff_prover]
    fn parse_postfix(&mut self) -> (r: Result<Expression, String>)
        ensures
            final(self).toks() == old(self).toks(),
            expr_agrees(r, final(self).pos(), p_postfix(old(self).toks(), old(self).pos())),
            r is Ok ==> final(self).pos() > old(self).pos(),
        decreases old(self).toks().len() - old(self).pos(), 1nat,
    {
        let ghost ts = self.toks();
        let ghost start = self.pos();
        let mut e = match self.parse_primary() {
            Ok(e) => e,
            Err(m) => return Err(m),
        };
        proof {
            use_type_invariant(&*self);
        }
        let ghost target = postfix_tail(ts, e@, self.pos());
        assert(p_postfix(ts, start) == target);
        let mut outcome: Result<Expression, String>;
        loop
            invariant_except_break
                start < self.pos(),
                postfix_tail(ts, e@, self.pos()) == target,
            invariant
                self.toks() == ts,
                start == old(self).pos(),
                ts == old(self).toks(),
            ensures
                outcome is Ok ==> start < self.pos(),
                expr_agrees(outcome, self.pos(), target),
            decreases ts.len() - self.pos(),
        {
            proof {
                use_type_invariant(&*self);
                reveal_with_fuel(crate::ast::expr_view, 2);
            }
            let k = self.current_kind();
            if k == KIND_DOT {
                self.advance();
                let member = match self.current_token() {
                    Token::Identifier(n) => n.clone(),
                    t => {
                        let mut msg = "Expected property name after '.', found ".to_owned();
                        msg.append(token_to_string(t).as_str());
                        outcome = Err(msg);
                        break;
                    },
                };
                self.advance();
                e = Expression::MemberAccess { object: Box::new(e), member };
            } else if k == KIND_LPAREN {
                self.advance();
                let args = match self.parse_items(true) {
                    Ok(a) => a,
                    Err(m) => {
                        outcome = Err(m);
                        break;
                    },
                };
                proof {
                    use_type_invariant(&*self);
                }
                e = Expression::Call { callee: Box::new(e), args };
            } else if k == KIND_LBRACKET {
                self.advance();
                let i = match self.parse_expression() {
                    Ok(i) => i,
                    Err(m) => {
                        outcome = Err(m);
                        break;
                    },
                };
                match self.expect(Token::RBracket) {
                    Ok(()) => {},
                    Err(m) => {
                        outcome = Err(m);
                        break;
                    },
                }
                proof {
                    use_type_invariant(&*self);
                }
                e = Expression::Index { object: Box::new(e), index: Box::new(i) };
            } else {
                outcome = Ok(e);
                break;
            }
        }
        outcome
    }

    /// The closing token of an item list: `)` or `]`.
    fn closing(paren: bool) -> (t: Token)
        ensures
            t@ == (if paren { TokenV::RParen } else { TokenV::RBracket }),
    {
        if paren {
            Token::RParen
        } else {
            Token::RBracket
        }
    }

    #[verifier::rlimit(60)]
    #[verifier::spinoff_prover]
    fn parse_items(&mut self, paren: bool) -> (r: Result<Vec<Expression>, String>)
        ensures
            final(self).toks() == old(self).toks(),
            match (r, p_items(old(self).toks(), Seq::empty(), old(self).pos(), if paren { TokenV::RParen } else { TokenV::RBracket })) {
                (Ok(v), Ok((sv, p))) => crate::ast::exprs_view(v@) == sv && final(self).pos() == p,
                (Err(m), Err(sm)) => m@ == sm,
                _ => false,
            },
            r is Ok ==> final(self).pos() > old(self).pos(),
        decreases old(self).toks().len() - old(self).pos(), 10nat,
    {
        let ghost ts = self.toks();
        let ghost start = self.pos();
        let ghost close = if paren { TokenV::RParen } else { TokenV::RBracket };
        let close_kind = kind_of(&Self::closing(paren));
        let mut acc: Vec<Expression> = Vec::new();
        assert(crate::ast::exprs_view(acc@) =~= Seq::<ExprV>::empty());
        let ghost target = p_items(ts, Seq::empty(), start, close);
        let mut outcome: Result<Vec<Expression>, String>;
        loop
            invariant_except_break
                start <= self.pos(),
                p_items(ts, crate::ast::exprs_view(acc@), self.pos(), close) == target,
            invariant
                self.toks() == ts,
                start == old(self).pos(),
                ts == old(self).toks(),
                close == (if paren { TokenV::RParen } else { TokenV::RBracket }),
                close_kind as int == kind_index(close),
                target == p_items(ts, Seq::empty(), start, close),
            ensures
                match (outcome, target) {
                    (Ok(v), Ok((sv, p))) => crate::ast::exprs_view(v@) == sv && self.pos() == p,
                    (Err(m), Err(sm)) => m@ == sm,
                    _ => false,
                },
                outcome is Ok ==> start < self.pos(),
            decreases ts.len() - self.pos(),
        {
            proof {
                use_type_invariant(&*self);
            }
            if self.current_kind() == close_kind {
                self.advance();
                outcome = Ok(acc);
                break;
            }
            let e = match self.parse_expression() {
                Ok(e) => e,
                Err(m) => {
                    outcome = Err(m);
                    break;
                },
            };
            proof {
                use_type_invariant(&*self);
                crate::ast::lemma_exprs_view_push(acc@, e);
            }
            if self.current_kind() == KIND_COMMA {
                self.advance();
                acc.push(e);
            } else {
                match self.expect(Self::closing(paren)) {
                    Ok(()) => {
                        acc.push(e);
                        outcome = Ok(acc);
                        break;
                    },
                    Err(m) => {
                        outcome = Err(m);
                        break;
                    },
                }
            }
        }
        outcome
    }

    #[verifier::rlimit(60)]
    #[verifier::spinoff_prover]
    fn parse_fields(&mut self) -> (r: Result<Vec<(String, Expression)>, String>)
        ensures
            final(self).toks() == old(self).toks(),
            match (r, p_fields(old(self).toks(), Seq::empty(), old(self).pos())) {
                (Ok(v), Ok((sv, p))) => crate::ast::fields_view(v@) == sv && final(self).pos() == p,
                (Err(m), Err(sm)) => m@ == sm,
                _ => false,
            },
            r is Ok ==> final(self).pos() > old(self).pos(),
        decreases old(self).toks().len() - old(self).pos(), 10nat,
    {
        let ghost ts = self.toks();
        let ghost start = self.pos();
        let mut acc: Vec<(String, Expression)> = Vec::new();
        assert(crate::ast::fields_view(acc@) =~= Seq::<(Seq<char>, ExprV)>::empty());
        let ghost target = p_fields(ts, Seq::empty(), start);
        let mut outcome: Result<Vec<(String, Expression)>, String>;
        loop
            invariant_except_break
                start <= self.pos(),
                p_fields(ts, crate::ast::fields_view(acc@), self.pos()) == target,
            invariant
                self.toks() == ts,
                start == old(self).pos(),
                ts == old(self).toks(),
                target == p_fields(ts, Seq::empty(), start),
            ensures
                match (outcome, target) {
                    (Ok(v), Ok((sv, p))) => crate::ast::fields_view(v@) == sv && self.pos() == p,
                    (Err(m), Err(sm)) => m@ == sm,
                    _ => false,
                },
                outcome is Ok ==> start < self.pos(),
            decreases ts.len() - self.pos(),
        {
            proof {
                use_type_invariant(&*self);
            }
            self.skip_newlines();
            proof {
                use_type_invariant(&*self);
            }
            if self.current_kind() == KIND_RBRACE {
                self.advance();
                outcome = Ok(acc);
                break;
            }
            let key = match self.current_token() {
                Token::Identifier(k) => k.clone(),
                Token::String(k) => k.clone(),
                t => {
                    let mut msg = "Expected property name, found ".to_owned();
                    msg.append(token_to_string(t).as_str());
                    outcome = Err(msg);
                    break;
                },
            };
            self.advance();
            match self.expect(Token::Colon) {
                Ok(()) => {},
                Err(m) => {
                    outcome = Err(m);
                    break;
                },
            }
            let v = match self.parse_expression() {
                Ok(v) => v,
                Err(m) => {
                    outcome = Err(m);
                    break;
                },
            };
            self.skip_newlines();
            proof {
                use_type_invariant(&*self);
                let pushed = acc@.push((key, v));
                crate::ast::lemma_fields_view_index(acc@);
                crate::ast::lemma_fields_view_index(pushed);
                assert(crate::ast::fields_view(pushed) =~= crate::ast::fields_view(acc@).push((key@, v@)));
            }
            if self.current_kind() == KIND_COMMA {
                self.advance();
                acc.push((key, v));
            } else {
                match self.expect(Token::RBrace) {
                    Ok(()) => {
                        acc.push((key, v));
                        outcome = Ok(acc);
                        break;
                    },
                    Err(m) => {
                        outcome = Err(m);
                        break;
                    },
                }
            }
        }
        outcome
    }

    /// The rest of a function expression, after its `fn` at `at`.
    fn parse_function_expr(&mut self, Ghost(at): Ghost<int>) -> (r: Result<Expression, String>)
        requires
            0 <= at,
            old(self).pos() == at + 1,
            tok_at(old(self).toks(), at) is Fn,
        ensures
            final(self).toks() == old(self).toks(),
            expr_agrees(r, final(self).pos(), p_primary(old(self).toks(), at)),
            r is Ok ==> final(self).pos() > old(self).pos(),
        decreases old(self).toks().len() - old(self).pos(), 0nat,
    {
        proof {
            use_type_invariant(&*self);
            reveal_with_fuel(crate::ast::expr_view, 1);
        }
        match self.expect(Token::LParen) {
            Ok(()) => {},
            Err(m) => return Err(m),
        }
        let params = match self.parse_params() {
            Ok(p) => p,
            Err(m) => return Err(m),
        };
        self.skip_newlines();
        proof {
            use_type_invariant(&*self);
        }
        let body = match self.parse_block() {
            Ok(b) => b,
            Err(m) => return Err(m),
        };
        Ok(Expression::FunctionExpr { params, body })
    }

    /// The expression for a literal or identifier token at the current position.
    fn atom_here(&self) -> (r: Option<Expression>)
        ensures
            match (r, atom(tok_at(self.toks(), self.pos()))) {
                (Some(e), Some(v)) => e@ == v,
                (None, None) => true,
                _ => false,
            },
    {
        proof {
            reveal_with_fuel(crate::ast::expr_view, 2);
        }
        match self.current_token() {
            Token::Number(n) => Some(Expression::Literal(Literal::Number(*n))),
            Token::String(s) => Some(Expression::Literal(Literal::String(s.clone()))),
            Token::True => Some(Expression::Literal(Literal::Boolean(true))),
            Token::False => Some(Expression::Literal(Literal::Boolean(false))),
            Token::Null => Some(Expression::Literal(Literal::Null)),
            Token::Identifier(name) => Some(Expression::Identifier(name.clone())),
            _ => None,
        }
    }

    #[verifier::rlimit(100)]
    #[verifier::spinoff_prover]
    fn parse_primary(&mut self) -> (r: Result<Expression, String>)
        ensures
            final(self).toks() == old(self).toks(),
            expr_agrees(r, final(self).pos(), p_primary(old(self).toks(), old(self).pos())),
            r is Ok ==> final(self).pos() > old(self).pos(),
        decreases old(self).toks().len() - old(self).pos(), 0nat,
    {
        proof {
            use_type_invariant(&*self);
        }
        if self.current_kind() == KIND_LPAREN {
            self.advance();
            let expr = match self.parse_expression() {
                Ok(e) => e,
                Err(m) => return Err(m),
            };
            match self.expect(Token::RParen) {
                Ok(()) => Ok(expr),
                Err(m) => Err(m),
            }
        } else if self.current_kind() == KIND_LBRACKET {
            self.advance();
            let es = match self.parse_items(false) {
                Ok(es) => es,
                Err(m) => return Err(m),
            };
            proof {
                reveal_with_fuel(crate::ast::expr_view, 2);
            }
            Ok(Expression::Literal(Literal::Array { elements: es, mutable: true }))
        } else if self.current_kind() == KIND_FN {
            let ghost at = self.pos();
            self.advance();
            self.parse_function_expr(Ghost(at))
        } else if self.current_kind() == KIND_HASH && self.peek_kind() == KIND_LBRACKET {
            self.advance();
            self.advance();
            let es = match self.parse_items(false) {
                Ok(es) => es,
                Err(m) => return Err(m),
            };
            proof {
                reveal_with_fuel(crate::ast::expr_view, 2);
            }
            Ok(Expression::Literal(Literal::Array { elements: es, mutable: false }))
        } else if self.current_kind() == KIND_LBRACE {
            self.advance();
            let fs = match self.parse_fields() {
                Ok(fs) => fs,
                Err(m) => return Err(m),
            };
            proof {
                reveal_with_fuel(crate::ast::expr_view, 2);
            }
            Ok(Expression::Literal(Literal::Object { fields: fs }))
        } else if self.current_kind() == KIND_IDENTIFIER && self.peek_kind() == KIND_LPAREN {
            let name = match self.current_token() {
                Token::Identifier(n) => n.clone(),
                _ => String::new(),
            };
            self.advance();
            self.advance();
            let args = match self.parse_items(true) {
                Ok(a) => a,
                Err(m) => return Err(m),
            };
            proof {
                reveal_with_fuel(crate::ast::expr_view, 2);
            }
            Ok(Expression::FunctionCall { name, args })
        } else {
            match self.atom_here() {
                Some(e) => {
                    self.advance();
                    Ok(e)
                },
                None => {
                    let mut msg = "Unexpected token in expression: ".to_owned();
                    msg.append(token_to_string(self.current_token()).as_str());
                    Err(msg)
                },
            }
        }
    }

    fn parse_statement(&mut self) -> (r: Result<Statement, String>)
        ensures
            final(self).toks() == old(self).toks(),
            stmt_agrees(r, final(self).pos(), p_statement(old(self).toks(), old(self).pos())),
            r is Ok ==> final(self).pos() > old(self).pos(),
        decreases old(self).toks().len() - old(self).pos(), 12nat,
    {
        proof {
            use_type_invariant(&*self);
            reveal_with_fuel(crate::ast::stmt_view, 2);
        }
        let k = self.current_kind();
        if k == KIND_SET {
            self.parse_assignment()
        } else if k == KIND_PRINT {
            self.parse_print()
        } else if k == KIND_IF {
            self.parse_if_statement()
        } else if k == KIND_WHILE {
            self.parse_while()
        } else if k == KIND_FN {
            self.parse_function(false)
        } else if k == KIND_EXPORT {
            self.advance();
            if self.current_kind() == KIND_FN {
                self.parse_function(true)
            } else {
                let mut msg = "Expected 'fn' after 'export', found ".to_owned();
                msg.append(token_to_string(self.current_token()).as_str());
                Err(msg)
            }
        } else if k == KIND_RETURN {
            self.parse_return()
        } else if k == KIND_BREAK || k == KIND_CONTINUE {
            self.advance();
            match self.expect_statement_end() {
                Ok(()) => {},
                Err(m) => return Err(m),
            }
            if k == KIND_BREAK {
                Ok(Statement::Break)
            } else {
                Ok(Statement::Continue)
            }
        } else if k == KIND_IMPORT {
            self.parse_import()
        } else if k == KIND_FOR {
            self.parse_for()
        } else {
            self.parse_expr_statement()
        }
    }

    fn parse_expr_statement(&mut self) -> (r: Result<Statement, String>)
        ensures
            final(self).toks() == old(self).toks(),
            stmt_agrees(r, final(self).pos(), p_expr_statement(old(self).toks(), old(self).pos())),
            r is Ok ==> final(self).pos() > old(self).pos(),
        decreases old(self).toks().len() - old(self).pos(), 11nat,
    {
        let e = match self.parse_expression() {
            Ok(e) => e,
            Err(m) => return Err(m),
        };
        match self.expect_statement_end() {
            Ok(()) => {},
            Err(m) => return Err(m),
        }
        proof {
            reveal_with_fuel(crate::ast::stmt_view, 2);
        }
        Ok(Statement::Expression(e))
    }

    fn parse_return(&mut self) -> (r: Result<Statement, String>)
        requires
            tok_at(old(self).toks(), old(self).pos()) is Return,
        ensures
            final(self).toks() == old(self).toks(),
            stmt_agrees(r, final(self).pos(), p_return(old(self).toks(), old(self).pos())),
            r is Ok ==> final(self).pos() > old(self).pos(),
        decreases old(self).toks().len() - old(self).pos(), 11nat,
    {
        proof {
            use_type_invariant(&*self);
            reveal_with_fuel(crate::ast::stmt_view, 2);
        }
        self.advance();
        let k = self.current_kind();
        if k == KIND_NEWLINE || k == KIND_EOF || k == KIND_RBRACE {
            match self.expect_statement_end() {
                Ok(()) => {},
                Err(m) => return Err(m),
            }
            Ok(Statement::Return(None))
        } else {
            let e = match self.parse_expression() {
                Ok(e) => e,
                Err(m) => return Err(m),
            };
            match self.expect_statement_end() {
                Ok(()) => {},
                Err(m) => return Err(m),
            }
            Ok(Statement::Return(Some(e)))
        }
    }

    fn parse_import(&mut self) -> (r: Result<Statement, String>)
        requires
            tok_at(old(self).toks(), old(self).pos()) is Import,
        ensures
            final(self).toks() == old(self).toks(),
            stmt_agrees(r, final(self).pos(), p_import(old(self).toks(), old(self).pos())),
            r is Ok ==> final(self).pos() > old(self).pos(),
    {
        proof {
            use_type_invariant(&*self);
            reveal_with_fuel(crate::ast::stmt_view, 2);
        }
        self.advance();
        let alias = match self.current_token() {
            Token::Identifier(n) => n.clone(),
            t => {
                let mut msg = "Expected module alias after 'import', found ".to_owned();
                msg.append(token_to_string(t).as_str());
                return Err(msg);
            },
        };
        self.advance();
        if self.current_kind() != KIND_FROM {
            let mut msg = "Expected ".to_owned();
            msg.append(token_to_string(&Token::From).as_str());
            msg.append(", found ");
            msg.append(token_to_string(self.current_token()).as_str());
            return Err(msg);
        }
        self.advance();
        let path = match self.current_token() {
            Token::String(s) => s.clone(),
            t => {
                let mut msg = "Expected module path string, found ".to_owned();
                msg.append(token_to_string(t).as_str());
                return Err(msg);
            },
        };
        self.advance();
        match self.expect_statement_end() {
            Ok(()) => {},
            Err(m) => return Err(m),
        }
        Ok(Statement::Import { alias, path })
    }

    #[verifier::rlimit(60)]
    #[verifier::spinoff_prover]
    fn parse_params(&mut self) -> (r: Result<Vec<String>, String>)
        ensures
            final(self).toks() == old(self).toks(),
            match (r, p_params(old(self).toks(), Seq::empty(), old(self).pos())) {
                (Ok(v), Ok((sv, p))) => crate::ast::names_view(v@) == sv && final(self).pos() == p,
                (Err(m), Err(sm)) => m@ == sm,
                _ => false,
            },
            r is Ok ==> final(self).pos() > old(self).pos(),
    {
        let ghost ts = self.toks();
        let ghost start = self.pos();
        let mut acc: Vec<String> = Vec::new();
        assert(crate::ast::names_view(acc@) =~= Seq::<Seq<char>>::empty());
        let ghost target = p_params(ts, Seq::empty(), start);
        let mut outcome: Result<Vec<String>, String>;
        loop
            invariant_except_break
                start <= self.pos(),
                p_params(ts, crate::ast::names_view(acc@), self.pos()) == target,
            invariant
                self.toks() == ts,
                start == old(self).pos(),
                ts == old(self).toks(),
            ensures
                match (outcome, target) {
                    (Ok(v), Ok((sv, p))) => crate::ast::names_view(v@) == sv && self.pos() == p,
                    (Err(m), Err(sm)) => m@ == sm,
                    _ => false,
                },
                outcome is Ok ==> start < self.pos(),
            decreases ts.len() - self.pos(),
        {
            proof {
                use_type_invariant(&*self);
            }
            let k = self.current_kind();
            if k == KIND_RPAREN {
                self.advance();
                outcome = Ok(acc);
                break;
            }
            let name = match self.current_token() {
                Token::Identifier(n) => n.clone(),
                t => {
                    let mut msg = "Expected parameter name, found ".to_owned();
                    msg.append(token_to_string(t).as_str());
                    outcome = Err(msg);
                    break;
                },
            };
            self.advance();
            let k2 = self.current_kind();
            proof {
                assert(crate::ast::names_view(acc@.push(name)) =~= crate::ast::names_view(acc@).push(name@));
            }
            if k2 == KIND_COMMA {
                self.advance();
                acc.push(name);
            } else if k2 == KIND_RPAREN {
                self.advance();
                acc.push(name);
                outcome = Ok(acc);
                break;
            } else {
                let mut msg = "Expected ".to_owned();
                msg.append(token_to_string(&Token::RParen).as_str());
                msg.append(", found ");
                msg.append(token_to_string(self.current_token()).as_str());
                outcome = Err(msg);
                break;
            }
        }
        outcome
    }

    fn parse_function(&mut self, exported: bool) -> (r: Result<Statement, String>)
        requires
            tok_at(old(self).toks(), old(self).pos()) is Fn,
        ensures
            final(self).toks() == old(self).toks(),
            stmt_agrees(r, final(self).pos(), p_function(old(self).toks(), old(self).pos(), exported)),
            r is Ok ==> final(self).pos() > old(self).pos(),
        decreases old(self).toks().len() - old(self).pos(), 2nat,
    {
        let ghost ts = self.toks();
        let ghost start = self.pos();
        proof {
            use_type_invariant(&*self);
            reveal_with_fuel(crate::ast::stmt_view, 2);
        }
        self.advance();
        let name = match self.current_token() {
            Token::Identifier(n) => n.clone(),
            t => {
                let mut msg = "Expected function name after 'fn', found ".to_owned();
                msg.append(token_to_string(t).as_str());
                return Err(msg);
            },
        };
        self.advance();
        match self.expect(Token::LParen) {
            Ok(()) => {},
            Err(m) => return Err(m),
        }
        let params = match self.parse_params() {
            Ok(p) => p,
            Err(m) => return Err(m),
        };
        self.skip_newlines();
        proof {
            use_type_invariant(&*self);
        }
        let body = match self.parse_block() {
            Ok(b) => b,
            Err(m) => return Err(m),
        };
        Ok(Statement::FunctionDef { name, params, body, exported })
    }

    #[verifier::rlimit(100)]
    #[verifier::spinoff_prover]
    fn parse_for(&mut self) -> (r: Result<Statement, String>)
        requires
            tok_at(old(self).toks(), old(self).pos()) is For,
        ensures
            final(self).toks() == old(self).toks(),
            stmt_agrees(r, final(self).pos(), p_for(old(self).toks(), old(self).pos())),
            r is Ok ==> final(self).pos() > old(self).pos(),
        decreases old(self).toks().len() - old(self).pos(), 2nat,
    {
        proof {
            use_type_invariant(&*self);
            reveal_with_fuel(crate::ast::stmt_view, 1);
        }
        self.advance();
        let key = match self.current_token() {
            Token::Identifier(k) => k.clone(),
            t => {
                let mut msg = "Expected loop variable after 'for', found ".to_owned();
                msg.append(token_to_string(t).as_str());
                return Err(msg);
            },
        };
        self.advance();
        let mut value_name: Option<String> = None;
        if self.current_kind() == KIND_COMMA {
            self.advance();
            match self.current_token() {
                Token::Identifier(v) => {
                    value_name = Some(v.clone());
                },
                t => {
                    let mut msg = "Expected variable name after ',', found ".to_owned();
                    msg.append(token_to_string(t).as_str());
                    return Err(msg);
                },
            }
            self.advance();
        }
        match self.expect(Token::In) {
            Ok(()) => {},
            Err(m) => return Err(m),
        }
        let iterable = match self.parse_expression() {
            Ok(e) => e,
            Err(m) => return Err(m),
        };
        self.skip_newlines();
        proof {
            use_type_invariant(&*self);
        }
        let body = match self.parse_block() {
            Ok(b) => b,
            Err(m) => return Err(m),
        };
        Ok(Statement::ForIn { key_name: key, value_name, iterable: Box::new(iterable), body })
    }

    fn parse_while(&mut self) -> (r: Result<Statement, String>)
        requires
            tok_at(old(self).toks(), old(self).pos()) is While,
        ensures
            final(self).toks() == old(self).toks(),
            stmt_agrees(r, final(self).pos(), p_while(old(self).toks(), old(self).pos())),
            r is Ok ==> final(self).pos() > old(self).pos(),
        decreases old(self).toks().len() - old(self).pos(), 2nat,
    {
        proof {
            use_type_invariant(&*self);
            reveal_with_fuel(crate::ast::stmt_view, 2);
        }
        self.advance();
        let condition = match self.parse_expression() {
            Ok(e) => e,
            Err(m) => return Err(m),
        };
        self.skip_newlines();
        proof {
            use_type_invariant(&*self);
        }
        let body = match self.parse_block() {
            Ok(b) => b,
            Err(m) => return Err(m),
        };
        Ok(Statement::While { condition, body })
    }

    #[verifier::rlimit(100)]
    #[verifier::spinoff_prover]
    fn parse_assignment(&mut self) -> (r: Result<Statement, String>)
        ensures
            final(self).toks() == old(self).toks(),
            stmt_agrees(r, final(self).pos(), p_assignment(old(self).toks(), old(self).pos())),
            r is Ok ==> final(self).pos() > old(self).pos(),
        decreases old(self).toks().len() - old(self).pos(), 2nat,
    {
        proof {
            use_type_invariant(&*self);
        }
        match self.expect(Token::SetKw) {
            Ok(()) => {},
            Err(m) => return Err(m),
        }
        if self.current_kind() != KIND_IDENTIFIER {
            return Err("Expected identifier after 'set'".to_owned());
        }
        let target = match self.parse_postfix() {
            Ok(t) => t,
            Err(m) => return Err(m),
        };
        self.skip_newlines();
        match self.expect(Token::Equal) {
            Ok(()) => {},
            Err(m) => return Err(m),
        }
        let value = match self.parse_expression() {
            Ok(e) => e,
            Err(m) => return Err(m),
        };
        match self.expect_statement_end() {
            Ok(()) => {},
            Err(m) => return Err(m),
        }
        proof {
            reveal_with_fuel(crate::ast::stmt_view, 1);
            reveal_with_fuel(crate::ast::expr_view, 1);
        }
        match target {
            Expression::Identifier(name) => Ok(Statement::Assignment { name, value }),
            Expression::Index { object, index } => Ok(
                Statement::IndexAssign { object, index, value: Box::new(value) },
            ),
            Expression::MemberAccess { object, member } => Ok(
                Statement::PropertyAssign {
                    target: Box::new(Expression::MemberAccess { object, member }),
                    value: Box::new(value),
                },
            ),
            _ => Err("Invalid assignment target".to_owned()),
        }
    }

    fn parse_print(&mut self) -> (r: Result<Statement, String>)
        ensures
            final(self).toks() == old(self).toks(),
            stmt_agrees(r, final(self).pos(), p_print(old(self).toks(), old(self).pos())),
            r is Ok ==> final(self).pos() > old(self).pos(),
        decreases old(self).toks().len() - old(self).pos(), 2nat,
    {
        proof {
            use_type_invariant(&*self);
        }
        match self.expect(Token::Print) {
            Ok(()) => {},
            Err(m) => return Err(m),
        }
        match self.expect(Token::LParen) {
            Ok(()) => {},
            Err(m) => return Err(m),
        }
        let expr = match self.parse_expression() {
            Ok(e) => e,
            Err(m) => return Err(m),
        };
        match self.expect(Token::RParen) {
            Ok(()) => {},
            Err(m) => return Err(m),
        }
        match self.expect_statement_end() {
            Ok(()) => {},
            Err(m) => return Err(m),
        }
        Ok(Statement::Print(expr))
    }

    fn parse_if_statement(&mut self) -> (r: Result<Statement, String>)
        ensures
            final(self).toks() == old(self).toks(),
            stmt_agrees(r, final(self).pos(), p_if(old(self).toks(), old(self).pos())),
            r is Ok ==> final(self).pos() > old(self).pos(),
        decreases old(self).toks().len() - old(self).pos(), 2nat,
    {
        let ghost ts = self.toks();
        let ghost start = self.pos();
        proof {
            use_type_invariant(&*self);
        }
        match self.expect(Token::If) {
            Ok(()) => {},
            Err(m) => return Err(m),
        }
        let condition = match self.parse_expression() {
            Ok(e) => e,
            Err(m) => return Err(m),
        };
        self.skip_newlines();
        proof {
            use_type_invariant(&*self);
        }
        let true_branch = match self.parse_block() {
            Ok(b) => b,
            Err(m) => return Err(m),
        };
        self.skip_newlines();
        proof {
            use_type_invariant(&*self);
        }
        let ghost first = (condition@, stmts_view(true_branch@));
        let mut branches: Vec<(Expression, Vec<Statement>)> = Vec::new();
        branches.push((condition, true_branch));
        proof {
            lemma_branches_view_push(Seq::empty(), branches@[0]);
            assert(Seq::<(Expression, Vec<Statement>)>::empty().push(branches@[0]) =~= branches@);
            assert(branches_view(Seq::<(Expression, Vec<Statement>)>::empty()) =~= Seq::<
                (ExprV, Seq<StmtV>),
            >::empty());
            assert(branches_view(branches@) =~= seq![first]);
        }
        let ghost target = elseif_tail(ts, branches_view(branches@), self.pos());
        assert(p_if(ts, start) == target);
        let mut outcome: Result<Statement, String>;
        loop
            invariant_except_break
                start < self.pos(),
                elseif_tail(ts, branches_view(branches@), self.pos()) == target,
            invariant
                self.toks() == ts,
                start == old(self).pos(),
                ts == old(self).toks(),
            ensures
                outcome is Ok ==> start < self.pos(),
                stmt_agrees(outcome, self.pos(), target),
            decreases ts.len() - self.pos(),
        {
            proof {
                use_type_invariant(&*self);
            }
            let k = self.current_kind();
            if k == KIND_ELSE_IF {
                self.advance();
                let cond = match self.parse_expression() {
                    Ok(e) => e,
                    Err(m) => {
                        outcome = Err(m);
                        break;
                    },
                };
                self.skip_newlines();
                proof {
                    use_type_invariant(&*self);
                }
                let block = match self.parse_block() {
                    Ok(b) => b,
                    Err(m) => {
                        outcome = Err(m);
                        break;
                    },
                };
                self.skip_newlines();
                proof {
                    use_type_invariant(&*self);
                    lemma_branches_view_push(branches@, (cond, block));
                }
                branches.push((cond, block));
            } else if k == KIND_ELSE {
                self.advance();
                self.skip_newlines();
                proof {
                    use_type_invariant(&*self);
                }
                let block = match self.parse_block() {
                    Ok(b) => b,
                    Err(m) => {
                        outcome = Err(m);
                        break;
                    },
                };
                outcome = Ok(Statement::If { branches, else_branch: Some(block) });
                break;
            } else {
                outcome = Ok(Statement::If { branches, else_branch: None });
                break;
            }
        }
        outcome
    }

    fn parse_block(&mut self) -> (r: Result<Vec<Statement>, String>)
        ensures
            final(self).toks() == old(self).toks(),
            block_agrees(r, final(self).pos(), p_block(old(self).toks(), old(self).pos())),
            r is Ok ==> final(self).pos() > old(self).pos(),
        decreases old(self).toks().len() - old(self).pos(), 1nat,
    {
        let ghost ts = self.toks();
        let ghost start = self.pos();
        proof {
            use_type_invariant(&*self);
        }
        match self.expect(Token::LBrace) {
            Ok(()) => {},
            Err(m) => return Err(m),
        }
        let mut statements: Vec<Statement> = Vec::new();
        assert(stmts_view(statements@) =~= Seq::<StmtV>::empty());
        let ghost target = block_items(ts, Seq::empty(), self.pos());
        assert(p_block(ts, start) == target);
        let mut outcome: Result<Vec<Statement>, String>;
        loop
            invariant_except_break
                start < self.pos(),
                block_items(ts, stmts_view(statements@), self.pos()) == target,
            invariant
                self.toks() == ts,
                start == old(self).pos(),
                ts == old(self).toks(),
            ensures
                outcome is Ok ==> start < self.pos(),
                block_agrees(outcome, self.pos(), target),
            decreases ts.len() - self.pos(),
        {
            proof {
                use_type_invariant(&*self);
            }
            let k = self.current_kind();
            if k == KIND_RBRACE {
                self.advance();
                outcome = Ok(statements);
                break;
            }
            if k == KIND_NEWLINE {
                self.advance();
                continue;
            }
            let stmt = match self.parse_statement() {
                Ok(st) => st,
                Err(m) => {
                    outcome = Err(m);
                    break;
                },
            };
            proof {
                use_type_invariant(&*self);
                lemma_stmts_view_push(statements@, stmt);
            }
            statements.push(stmt);
            if self.current_kind() == KIND_NEWLINE {
                self.advance();
            }
        }
        outcome
    }

    /// Parses all statements up to the end of input.
    pub fn parse(&mut self) -> (r: Result<Vec<Statement>, String>)
        ensures
            final(self).toks() == old(self).toks(),
            match (r, p_program(old(self).toks(), Seq::empty(), old(self).pos())) {
                (Ok(v), Ok(sv)) => stmts_view(v@) == sv,
                (Err(m), Err(sm)) => m@ == sm,
                _ => false,
            },
    {
        let ghost ts = self.toks();
        let mut statements: Vec<Statement> = Vec::new();
        assert(stmts_view(statements@) =~= Seq::<StmtV>::empty());
        let ghost target = p_program(ts, Seq::empty(), self.pos());
        let mut outcome: Result<Vec<Statement>, String>;
        loop
            invariant_except_break
                p_program(ts, stmts_view(statements@), self.pos()) == target,
            invariant
                self.toks() == ts,
                ts == old(self).toks(),
                target == p_program(old(self).toks(), Seq::empty(), old(self).pos()),
            ensures
                match (outcome, target) {
                    (Ok(v), Ok(sv)) => stmts_view(v@) == sv,
                    (Err(m), Err(sm)) => m@ == sm,
                    _ => false,
                },
            decreases ts.len() - self.pos(),
        {
            proof {
                use_type_invariant(&*self);
            }
            let ghost p0 = self.pos();
            self.skip_newlines();
            if self.current_kind() == KIND_EOF {
                outcome = Ok(statements);
                break;
            }
            let stmt = match self.parse_statement() {
                Ok(st) => st,
                Err(m) => {
                    outcome = Err(m);
                    break;
                },
            };
            proof {
                use_type_invariant(&*self);
                lemma_stmts_view_push(statements@, stmt);
            }
            statements.push(stmt);
        }
        outcome
    }

}

} // verus!
