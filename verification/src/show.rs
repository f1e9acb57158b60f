//! Textual renderings used in messages: decimal numbers, quoted strings, tokens.
use vstd::prelude::*;
use crate::lexer::{Token, TokenV};
use crate::text::push_char;

verus! {

/// The decimal digits of a natural number, most significant first, without leading zeros.
pub open spec fn nat_text(n: nat) -> Seq<char>
    decreases n,
{
    if n < 10 {
        seq![digit_char(n)]
    } else {
        nat_text(n / 10) + seq![digit_char(n % 10)]
    }
}

pub open spec fn digit_char(d: nat) -> char {
    if d == 0 { '0' } else if d == 1 { '1' } else if d == 2 { '2' } else if d == 3 { '3' }
    else if d == 4 { '4' } else if d == 5 { '5' } else if d == 6 { '6' } else if d == 7 { '7' }
    else if d == 8 { '8' } else { '9' }
}

/// How an integer is displayed: an optional minus sign, then its digits.
pub open spec fn int_text(n: int) -> Seq<char> {
    if n < 0 {
        seq!['-'] + nat_text((-n) as nat)
    } else {
        nat_text(n as nat)
    }
}

pub fn digit_of(d: u64) -> (c: char)
    requires
        d < 10,
    ensures
        c == digit_char(d as nat),
{
    if d == 0 { '0' } else if d == 1 { '1' } else if d == 2 { '2' } else if d == 3 { '3' }
    else if d == 4 { '4' } else if d == 5 { '5' } else if d == 6 { '6' } else if d == 7 { '7' }
    else if d == 8 { '8' } else { '9' }
}

pub fn push_nat(out: &mut String, n: u64)
    ensures
        final(out)@ == old(out)@ + nat_text(n as nat),
    decreases n,
{
    if n < 10 {
        push_char(out, digit_of(n));
    } else {
        push_nat(out, n / 10);
        push_char(out, digit_of(n % 10));
    }
}

/// An integer in decimal, as `i64`'s `Display` writes it.
pub fn int_to_string(n: i64) -> (r: String)
    ensures
        r@ == int_text(n as int),
{
    let mut out = String::new();
    if n < 0 {
        push_char(&mut out, '-');
        let mag: u64 = (-(n as i128)) as u64;
        push_nat(&mut out, mag);
    } else {
        push_nat(&mut out, n as u64);
    }
    out
}

/// What `{:?}` writes for a string: the text in double quotes, with escapes.
pub uninterp spec fn str_debug_text(s: Seq<char>) -> Seq<char>;

/// Formats a string with `{:?}` (std's `Debug` for `str`); the result is named.
#[verifier::external_body]
pub(crate) fn debug_str(s: &String) -> (r: String)
    ensures
        r@ == str_debug_text(s@),
{
    format!("{:?}", s)
}

/// The text that names a token in messages: its variant, with the payload in brackets.
pub open spec fn token_text(t: TokenV) -> Seq<char> {
    match t {
        TokenV::SetKw => "Set"@,
        TokenV::If => "If"@,
        TokenV::Else => "Else"@,
        TokenV::ElseIf => "ElseIf"@,
        TokenV::While => "While"@,
        TokenV::True => "True"@,
        TokenV::False => "False"@,
        TokenV::Null => "Null"@,
        TokenV::Print => "Print"@,
        TokenV::Fn => "Fn"@,
        TokenV::Return => "Return"@,
        TokenV::Import => "Import"@,
        TokenV::From => "From"@,
        TokenV::Export => "Export"@,
        TokenV::Break => "Break"@,
        TokenV::Continue => "Continue"@,
        TokenV::For => "For"@,
        TokenV::In => "In"@,
        TokenV::Identifier(s) => "Identifier("@ + str_debug_text(s) + ")"@,
        TokenV::Number(n) => "Number("@ + int_text(n as int) + ")"@,
        TokenV::Str(s) => "String("@ + str_debug_text(s) + ")"@,
        TokenV::Plus => "Plus"@,
        TokenV::Minus => "Minus"@,
        TokenV::Star => "Star"@,
        TokenV::Slash => "Slash"@,
        TokenV::Equal => "Equal"@,
        TokenV::EqualEqual => "EqualEqual"@,
        TokenV::NotEqual => "NotEqual"@,
        TokenV::Greater => "Greater"@,
        TokenV::Less => "Less"@,
        TokenV::GreaterEqual => "GreaterEqual"@,
        TokenV::LessEqual => "LessEqual"@,
        TokenV::And => "And"@,
        TokenV::Or => "Or"@,
        TokenV::Not => "Not"@,
        TokenV::LParen => "LParen"@,
        TokenV::RParen => "RParen"@,
        TokenV::LBrace => "LBrace"@,
        TokenV::RBrace => "RBrace"@,
        TokenV::LBracket => "LBracket"@,
        TokenV::RBracket => "RBracket"@,
        TokenV::Comma => "Comma"@,
        TokenV::Dot => "Dot"@,
        TokenV::Colon => "Colon"@,
        TokenV::Hash => "Hash"@,
        TokenV::Newline => "Newline"@,
        TokenV::Eof => "Eof"@,
    }
}

fn wrapped(opening: &str, inner: String) -> (r: String)
    ensures
        r@ == opening@ + inner@ + ")"@,
{
    let mut out = opening.to_owned();
    out.append(inner.as_str());
    out.append(")");
    out
}

/// The text that names a token in messages.
pub fn token_to_string(t: &Token) -> (r: String)
    ensures
        r@ == token_text(t@),
{
    match t {
        Token::SetKw => "Set".to_owned(),
        Token::If => "If".to_owned(),
        Token::Else => "Else".to_owned(),
        Token::ElseIf => "ElseIf".to_owned(),
        Token::While => "While".to_owned(),
        Token::True => "True".to_owned(),
        Token::False => "False".to_owned(),
        Token::Null => "Null".to_owned(),
        Token::Print => "Print".to_owned(),
        Token::Fn => "Fn".to_owned(),
        Token::Return => "Return".to_owned(),
        Token::Import => "Import".to_owned(),
        Token::From => "From".to_owned(),
        Token::Export => "Export".to_owned(),
        Token::Break => "Break".to_owned(),
        Token::Continue => "Continue".to_owned(),
        Token::For => "For".to_owned(),
        Token::In => "In".to_owned(),
        Token::Identifier(s) => wrapped("Identifier(", debug_str(s)),
        Token::Number(n) => wrapped("Number(", int_to_string(*n)),
        Token::String(s) => wrapped("String(", debug_str(s)),
        Token::Plus => "Plus".to_owned(),
        Token::Minus => "Minus".to_owned(),
        Token::Star => "Star".to_owned(),
        Token::Slash => "Slash".to_owned(),
        Token::Equal => "Equal".to_owned(),
        Token::EqualEqual => "EqualEqual".to_owned(),
        Token::NotEqual => "NotEqual".to_owned(),
        Token::Greater => "Greater".to_owned(),
        Token::Less => "Less".to_owned(),
        Token::GreaterEqual => "GreaterEqual".to_owned(),
        Token::LessEqual => "LessEqual".to_owned(),
        Token::And => "And".to_owned(),
        Token::Or => "Or".to_owned(),
        Token::Not => "Not".to_owned(),
        Token::LParen => "LParen".to_owned(),
        Token::RParen => "RParen".to_owned(),
        Token::LBrace => "LBrace".to_owned(),
        Token::RBrace => "RBrace".to_owned(),
        Token::LBracket => "LBracket".to_owned(),
        Token::RBracket => "RBracket".to_owned(),
        Token::Comma => "Comma".to_owned(),
        Token::Dot => "Dot".to_owned(),
        Token::Colon => "Colon".to_owned(),
        Token::Hash => "Hash".to_owned(),
        Token::Newline => "Newline".to_owned(),
        Token::Eof => "Eof".to_owned(),
    }
}

} // verus!
