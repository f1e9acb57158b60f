//! Tokenization of Kria source text.
use vstd::prelude::*;
use crate::text::{char_is_whitespace, char_is_alphabetic, char_is_alphanumeric, is_ascii_digit_spec, is_whitespace, is_alphabetic, is_alphanumeric, is_ascii_digit, push_char, chars_of};

verus! {

#[derive(Debug, Clone, PartialEq)]
pub enum Token {
    // Keywords
    SetKw,
    If,
    Else,
    ElseIf,
    While,
    True,
    False,
    Null,
    Print,
    Fn,
    Return,
    Import,
    From,
    Export,
    Break,
    Continue,
    For,
    In,
    // Identifiers and literals
    Identifier(String),
    Number(i64),
    String(String),
    // Operators
    Plus,
    Minus,
    Star,
    Slash,
    Equal,
    EqualEqual,
    NotEqual,
    Greater,
    Less,
    GreaterEqual,
    LessEqual,
    And,
    Or,
    Not,
    // Delimiters
    LParen,
    RParen,
    LBrace,
    RBrace,
    LBracket,
    RBracket,
    Comma,
    Dot,
    Colon,
    Hash,
    Newline,
    // Special
    Eof,
}

/// A token as a mathematical value: text payloads are character sequences.
pub enum TokenV {
    SetKw,
    If,
    Else,
    ElseIf,
    While,
    True,
    False,
    Null,
    Print,
    Fn,
    Return,
    Import,
    From,
    Export,
    Break,
    Continue,
    For,
    In,
    Identifier(Seq<char>),
    Number(i64),
    Str(Seq<char>),
    Plus,
    Minus,
    Star,
    Slash,
    Equal,
    EqualEqual,
    NotEqual,
    Greater,
    Less,
    GreaterEqual,
    LessEqual,
    And,
    Or,
    Not,
    LParen,
    RParen,
    LBrace,
    RBrace,
    LBracket,
    RBracket,
    Comma,
    Dot,
    Colon,
    Hash,
    Newline,
    Eof,
}

impl View for Token {
    type V = TokenV;

    open spec fn view(&self) -> TokenV {
        match self {
            Token::SetKw => TokenV::SetKw,
            Token::If => TokenV::If,
            Token::Else => TokenV::Else,
            Token::ElseIf => TokenV::ElseIf,
            Token::While => TokenV::While,
            Token::True => TokenV::True,
            Token::False => TokenV::False,
            Token::Null => TokenV::Null,
            Token::Print => TokenV::Print,
            Token::Fn => TokenV::Fn,
            Token::Return => TokenV::Return,
            Token::Import => TokenV::Import,
            Token::From => TokenV::From,
            Token::Export => TokenV::Export,
            Token::Break => TokenV::Break,
            Token::Continue => TokenV::Continue,
            Token::For => TokenV::For,
            Token::In => TokenV::In,
            Token::Identifier(s) => TokenV::Identifier(s@),
            Token::Number(n) => TokenV::Number(*n),
            Token::String(s) => TokenV::Str(s@),
            Token::Plus => TokenV::Plus,
            Token::Minus => TokenV::Minus,
            Token::Star => TokenV::Star,
            Token::Slash => TokenV::Slash,
            Token::Equal => TokenV::Equal,
            Token::EqualEqual => TokenV::EqualEqual,
            Token::NotEqual => TokenV::NotEqual,
            Token::Greater => TokenV::Greater,
            Token::Less => TokenV::Less,
            Token::GreaterEqual => TokenV::GreaterEqual,
            Token::LessEqual => TokenV::LessEqual,
            Token::And => TokenV::And,
            Token::Or => TokenV::Or,
            Token::Not => TokenV::Not,
            Token::LParen => TokenV::LParen,
            Token::RParen => TokenV::RParen,
            Token::LBrace => TokenV::LBrace,
            Token::RBrace => TokenV::RBrace,
            Token::LBracket => TokenV::LBracket,
            Token::RBracket => TokenV::RBracket,
            Token::Comma => TokenV::Comma,
            Token::Dot => TokenV::Dot,
            Token::Colon => TokenV::Colon,
            Token::Hash => TokenV::Hash,
            Token::Newline => TokenV::Newline,
            Token::Eof => TokenV::Eof,
        }
    }
}

/// The views of a sequence of tokens.
pub open spec fn tokens_view(ts: Seq<Token>) -> Seq<TokenV> {
    ts.map_values(|t: Token| t@)
}

// ---------------------------------------------------------------------------
// The lexical grammar, stated over the input characters.
// ---------------------------------------------------------------------------

/// Spaces are skipped between tokens; a newline is a token of its own.
pub open spec fn is_space(c: char) -> bool {
    char_is_whitespace(c) && c != '\n'
}

/// Characters that continue an identifier.
pub open spec fn is_ident_char(c: char) -> bool {
    char_is_alphanumeric(c) || c == '_'
}

/// Characters that start an identifier.
pub open spec fn is_ident_start(c: char) -> bool {
    char_is_alphabetic(c) || c == '_'
}

/// The first position at or after `pos` that does not hold a space.
pub open spec fn skip_spaces_from(s: Seq<char>, pos: int) -> int
    decreases s.len() - pos,
{
    if 0 <= pos < s.len() && is_space(s[pos]) {
        skip_spaces_from(s, pos + 1)
    } else {
        pos
    }
}

/// The first position at or after `pos` that holds a newline, or the end.
pub open spec fn line_end(s: Seq<char>, pos: int) -> int
    decreases s.len() - pos,
{
    if 0 <= pos < s.len() && s[pos] != '\n' {
        line_end(s, pos + 1)
    } else {
        pos
    }
}

/// The first position at or after `pos` that does not hold an ASCII digit.
pub open spec fn digits_end(s: Seq<char>, pos: int) -> int
    decreases s.len() - pos,
{
    if 0 <= pos < s.len() && is_ascii_digit_spec(s[pos]) {
        digits_end(s, pos + 1)
    } else {
        pos
    }
}

/// The first position at or after `pos` that does not continue an identifier.
pub open spec fn ident_end(s: Seq<char>, pos: int) -> int
    decreases s.len() - pos,
{
    if 0 <= pos < s.len() && is_ident_char(s[pos]) {
        ident_end(s, pos + 1)
    } else {
        pos
    }
}

/// The decimal value of a sequence of ASCII digits.
pub open spec fn digits_value(d: Seq<char>) -> int
    decreases d.len(),
{
    if d.len() == 0 {
        0
    } else {
        digits_value(d.drop_last()) * 10 + (d.last() as int - '0' as int)
    }
}

/// A run of digits reads as its value when that fits in an `i64`, and as 0 otherwise.
pub open spec fn number_value(d: Seq<char>) -> i64 {
    if digits_value(d) <= i64::MAX {
        digits_value(d) as i64
    } else {
        0
    }
}

/// What an escape sequence `\c` inside a string literal stands for.
pub open spec fn escape_text(c: char) -> Seq<char> {
    if c == 'n' {
        seq!['\n']
    } else if c == 't' {
        seq!['\t']
    } else if c == 'r' {
        seq!['\r']
    } else if c == '"' {
        seq!['"']
    } else if c == '\\' {
        seq!['\\']
    } else {
        seq!['\\', c]
    }
}

/// The body of a string literal from `pos` (just after the opening quote): its text,
/// and the position after the closing quote, or the end of input when it is unterminated.
pub open spec fn string_body(s: Seq<char>, pos: int) -> (Seq<char>, int)
    decreases s.len() - pos,
{
    if pos < 0 || pos >= s.len() {
        (Seq::empty(), pos)
    } else if s[pos] == '"' {
        (Seq::empty(), pos + 1)
    } else if s[pos] == '\\' {
        if pos + 1 < s.len() {
            let (rest, end) = string_body(s, pos + 2);
            (escape_text(s[pos + 1]) + rest, end)
        } else {
            (Seq::empty(), pos + 1)
        }
    } else {
        let (rest, end) = string_body(s, pos + 1);
        (seq![s[pos]] + rest, end)
    }
}

/// The token that an identifier-shaped word stands for.
pub open spec fn word_token(w: Seq<char>) -> TokenV {
    if w == seq!['s', 'e', 't'] {
        TokenV::SetKw
    } else if w == seq!['i', 'f'] {
        TokenV::If
    } else if w == seq!['e', 'l', 's', 'e'] {
        TokenV::Else
    } else if w == seq!['e', 'l', 's', 'e', 'i', 'f'] {
        TokenV::ElseIf
    } else if w == seq!['w', 'h', 'i', 'l', 'e'] {
        TokenV::While
    } else if w == seq!['t', 'r', 'u', 'e'] {
        TokenV::True
    } else if w == seq!['f', 'a', 'l', 's', 'e'] {
        TokenV::False
    } else if w == seq!['n', 'u', 'l', 'l'] {
        TokenV::Null
    } else if w == seq!['p', 'r', 'i', 'n', 't'] {
        TokenV::Print
    } else if w == seq!['a', 'n', 'd'] {
        TokenV::And
    } else if w == seq!['o', 'r'] {
        TokenV::Or
    } else if w == seq!['n', 'o', 't'] {
        TokenV::Not
    } else if w == seq!['f', 'n'] {
        TokenV::Fn
    } else if w == seq!['r', 'e', 't', 'u', 'r', 'n'] {
        TokenV::Return
    } else if w == seq!['i', 'm', 'p', 'o', 'r', 't'] {
        TokenV::Import
    } else if w == seq!['f', 'r', 'o', 'm'] {
        TokenV::From
    } else if w == seq!['e', 'x', 'p', 'o', 'r', 't'] {
        TokenV::Export
    } else if w == seq!['b', 'r', 'e', 'a', 'k'] {
        TokenV::Break
    } else if w == seq!['c', 'o', 'n', 't', 'i', 'n', 'u', 'e'] {
        TokenV::Continue
    } else if w == seq!['f', 'o', 'r'] {
        TokenV::For
    } else if w == seq!['i', 'n'] {
        TokenV::In
    } else {
        TokenV::Identifier(w)
    }
}

/// The next token at or after `pos`, and the position just after it.
/// Comments (`//` to the end of the line) and characters that start no token are skipped.
pub open spec fn next_token_from(s: Seq<char>, pos: int) -> (TokenV, int)
    decreases s.len() - pos,
{
    let p = skip_spaces_from(s, pos);
    if pos < 0 || p >= s.len() {
        (TokenV::Eof, p)
    } else {
        let ch = s[p];
        let next_is = |c: char| p + 1 < s.len() && s[p + 1] == c;
        if ch == '+' {
            (TokenV::Plus, p + 1)
        } else if ch == '-' {
            (TokenV::Minus, p + 1)
        } else if ch == '*' {
            (TokenV::Star, p + 1)
        } else if ch == '/' {
            if next_is('/') {
                let q = line_end(s, p + 2);
                if pos < q <= s.len() {
                    next_token_from(s, q)
                } else {
                    (TokenV::Eof, q)
                }
            } else {
                (TokenV::Slash, p + 1)
            }
        } else if ch == '(' {
            (TokenV::LParen, p + 1)
        } else if ch == ')' {
            (TokenV::RParen, p + 1)
        } else if ch == '=' {
            if next_is('=') {
                (TokenV::EqualEqual, p + 2)
            } else {
                (TokenV::Equal, p + 1)
            }
        } else if ch == '!' {
            if next_is('=') {
                (TokenV::NotEqual, p + 2)
            } else {
                (TokenV::Not, p + 1)
            }
        } else if ch == '>' {
            if next_is('=') {
                (TokenV::GreaterEqual, p + 2)
            } else {
                (TokenV::Greater, p + 1)
            }
        } else if ch == '<' {
            if next_is('=') {
                (TokenV::LessEqual, p + 2)
            } else {
                (TokenV::Less, p + 1)
            }
        } else if ch == '{' {
            (TokenV::LBrace, p + 1)
        } else if ch == '}' {
            (TokenV::RBrace, p + 1)
        } else if ch == '[' {
            (TokenV::LBracket, p + 1)
        } else if ch == ']' {
            (TokenV::RBracket, p + 1)
        } else if ch == ',' {
            (TokenV::Comma, p + 1)
        } else if ch == '.' {
            (TokenV::Dot, p + 1)
        } else if ch == ':' {
            (TokenV::Colon, p + 1)
        } else if ch == '#' {
            (TokenV::Hash, p + 1)
        } else if ch == '\n' {
            (TokenV::Newline, p + 1)
        } else if ch == '"' {
            let (text, end) = string_body(s, p + 1);
            (TokenV::Str(text), end)
        } else if is_ascii_digit_spec(ch) {
            let e = digits_end(s, p);
            (TokenV::Number(number_value(s.subrange(p, e))), e)
        } else if is_ident_start(ch) {
            let e = ident_end(s, p);
            (word_token(s.subrange(p, e)), e)
        } else if p + 1 > pos {
            next_token_from(s, p + 1)
        } else {
            (TokenV::Eof, p)
        }
    }
}

/// All tokens from `pos` on, ending with exactly one `Eof`.
pub open spec fn tokens_from(s: Seq<char>, pos: int) -> Seq<TokenV>
    decreases s.len() - pos,
{
    let (t, e) = next_token_from(s, pos);
    if t is Eof || e <= pos || e > s.len() {
        seq![TokenV::Eof]
    } else {
        seq![t] + tokens_from(s, e)
    }
}

/// The tokens of a whole source text.
pub open spec fn tokenize_spec(s: Seq<char>) -> Seq<TokenV> {
    tokens_from(s, 0)
}


// ---------------------------------------------------------------------------
// Facts about the lexical grammar.
// ---------------------------------------------------------------------------

pub proof fn lemma_skip_spaces_bounds(s: Seq<char>, pos: int)
    requires
        0 <= pos <= s.len(),
    ensures
        pos <= skip_spaces_from(s, pos) <= s.len(),
    decreases s.len() - pos,
{
    if pos < s.len() && is_space(s[pos]) {
        lemma_skip_spaces_bounds(s, pos + 1);
    }
}

pub proof fn lemma_line_end_bounds(s: Seq<char>, pos: int)
    requires
        0 <= pos <= s.len(),
    ensures
        pos <= line_end(s, pos) <= s.len(),
    decreases s.len() - pos,
{
    if pos < s.len() && s[pos] != '\n' {
        lemma_line_end_bounds(s, pos + 1);
    }
}

pub proof fn lemma_digits_end_bounds(s: Seq<char>, pos: int)
    requires
        0 <= pos <= s.len(),
    ensures
        pos <= digits_end(s, pos) <= s.len(),
        forall|i: int| pos <= i < digits_end(s, pos) ==> is_ascii_digit_spec(#[trigger] s[i]),
    decreases s.len() - pos,
{
    if pos < s.len() && is_ascii_digit_spec(s[pos]) {
        lemma_digits_end_bounds(s, pos + 1);
    }
}

pub proof fn lemma_ident_end_bounds(s: Seq<char>, pos: int)
    requires
        0 <= pos <= s.len(),
    ensures
        pos <= ident_end(s, pos) <= s.len(),
    decreases s.len() - pos,
{
    if pos < s.len() && is_ident_char(s[pos]) {
        lemma_ident_end_bounds(s, pos + 1);
    }
}

pub proof fn lemma_string_body_bounds(s: Seq<char>, pos: int)
    requires
        0 <= pos <= s.len(),
    ensures
        pos <= string_body(s, pos).1 <= s.len(),
    decreases s.len() - pos,
{
    if pos < s.len() && s[pos] != '"' {
        if s[pos] == '\\' {
            if pos + 1 < s.len() {
                lemma_string_body_bounds(s, pos + 2);
            }
        } else {
            lemma_string_body_bounds(s, pos + 1);
        }
    }
}

/// The lexer never moves backwards, nor past the end.
pub proof fn lemma_next_token_bounds(s: Seq<char>, pos: int)
    requires
        0 <= pos <= s.len(),
    ensures
        pos <= next_token_from(s, pos).1 <= s.len(),
    decreases s.len() - pos,
{
    lemma_skip_spaces_bounds(s, pos);
    let p = skip_spaces_from(s, pos);
    if p < s.len() {
        let ch = s[p];
        if ch == '/' && p + 1 < s.len() && s[p + 1] == '/' {
            lemma_line_end_bounds(s, p + 2);
            lemma_next_token_bounds(s, line_end(s, p + 2));
        } else if ch == '"' {
            lemma_string_body_bounds(s, p + 1);
        } else if is_ascii_digit_spec(ch) {
            lemma_digits_end_bounds(s, p);
        } else if is_ident_start(ch) {
            lemma_ident_end_bounds(s, p);
        } else if !(ch == '+' || ch == '-' || ch == '*' || ch == '(' || ch == ')' || ch == '='
            || ch == '!' || ch == '>' || ch == '<' || ch == '{' || ch == '}' || ch == '[' || ch == ']'
            || ch == ',' || ch == '.' || ch == ':' || ch == '#' || ch == '\n' || ch == '/') {
            lemma_next_token_bounds(s, p + 1);
        }
    }
}

/// A run of digits has a non-negative value.
pub proof fn lemma_digits_value_nonneg(d: Seq<char>)
    requires
        forall|i: int| 0 <= i < d.len() ==> is_ascii_digit_spec(#[trigger] d[i]),
    ensures
        digits_value(d) >= 0,
    decreases d.len(),
{
    if d.len() > 0 {
        lemma_digits_value_nonneg(d.drop_last());
    }
}

// ---------------------------------------------------------------------------
// The lexer.
// ---------------------------------------------------------------------------

pub struct Lexer {
    input: Vec<char>,
    position: usize,
}

impl Lexer {
    #[verifier::type_invariant]
    spec fn inv(self) -> bool {
        self.position <= self.input.len()
    }

    /// The characters being tokenized.
    pub closed spec fn chars(&self) -> Seq<char> {
        self.input@
    }

    /// The position of the next character to read.
    pub closed spec fn pos(&self) -> int {
        self.position as int
    }

    /// The position of the next character to read, which lies between the start and the
    /// end of the text.
    pub fn position(&self) -> (p: usize)
        ensures
            p == self.pos(),
            0 <= self.pos() <= self.chars().len(),
    {
        proof {
            use_type_invariant(self);
        }
        self.position
    }

    pub fn new(input: &str) -> (lx: Lexer)
        ensures
            lx.chars() == input@,
            lx.pos() == 0,
    {
        Lexer { input: chars_of(input), position: 0 }
    }

    fn current_char(&self) -> (r: Option<char>)
        ensures
            r == (if self.pos() < self.chars().len() {
                Some(self.chars()[self.pos()])
            } else {
                None::<char>
            }),
    {
        if self.position < self.input.len() {
            Some(self.input[self.position])
        } else {
            None
        }
    }

    fn peek_char(&self) -> (r: Option<char>)
        ensures
            r == (if self.pos() + 1 < self.chars().len() {
                Some(self.chars()[self.pos() + 1])
            } else {
                None::<char>
            }),
    {
        proof {
            use_type_invariant(self);
        }
        if self.input.len() - self.position > 1 {
            Some(self.input[self.position + 1])
        } else {
            None
        }
    }

    fn advance(&mut self)
        requires
            old(self).pos() < old(self).chars().len(),
        ensures
            final(self).chars() == old(self).chars(),
            final(self).pos() == old(self).pos() + 1,
    {
        if self.position < self.input.len() {
            self.position = self.position + 1;
        }
    }

    fn skip_spaces(&mut self)
        ensures
            final(self).chars() == old(self).chars(),
            final(self).pos() == skip_spaces_from(old(self).chars(), old(self).pos()),
    {
        let ghost target = skip_spaces_from(self.chars(), self.pos());
        loop
            invariant
                skip_spaces_from(self.chars(), self.pos()) == target,
                self.chars() == old(self).chars(),
            ensures
                self.pos() == target,
                self.chars() == old(self).chars(),
            decreases self.chars().len() - self.pos(),
        {
            proof {
                use_type_invariant(&*self);
            }
            match self.current_char() {
                Some(ch) => {
                    if is_whitespace(ch) && ch != '\n' {
                        self.advance();
                    } else {
                        break;
                    }
                },
                None => {
                    break;
                },
            }
        }
    }

    fn read_string(&mut self) -> (r: String)
        requires
            old(self).pos() < old(self).chars().len(),
            old(self).chars()[old(self).pos()] == '"',
        ensures
            final(self).chars() == old(self).chars(),
            (r@, final(self).pos()) == string_body(old(self).chars(), old(self).pos() + 1),
    {
        self.advance();
        let ghost s = self.chars();
        let ghost target = string_body(s, self.pos());
        let mut result = String::new();
        loop
            invariant_except_break
                self.chars() == s,
                result@ + string_body(s, self.pos()).0 == target.0,
                string_body(s, self.pos()).1 == target.1,
            ensures
                self.chars() == s,
                result@ == target.0,
                self.pos() == target.1,
            decreases s.len() - self.pos(),
        {
            proof {
                use_type_invariant(&*self);
            }
            let ghost p = self.pos();
            let ghost before = result@;
            match self.current_char() {
                None => {
                    assert(result@ + Seq::<char>::empty() == result@);
                    break;
                },
                Some(ch) => {
                    if ch == '"' {
                        self.advance();
                        assert(result@ + Seq::<char>::empty() == result@);
                        break;
                    } else if ch == '\\' {
                        self.advance();
                        match self.current_char() {
                            Some(escaped) => {
                                if escaped == 'n' {
                                    push_char(&mut result, '\n');
                                } else if escaped == 't' {
                                    push_char(&mut result, '\t');
                                } else if escaped == 'r' {
                                    push_char(&mut result, '\r');
                                } else if escaped == '"' {
                                    push_char(&mut result, '"');
                                } else if escaped == '\\' {
                                    push_char(&mut result, '\\');
                                } else {
                                    push_char(&mut result, '\\');
                                    push_char(&mut result, escaped);
                                }
                                assert(result@ == before + escape_text(escaped));
                                self.advance();
                                let ghost rest = string_body(s, p + 2).0;
                                assert(before + (escape_text(escaped) + rest)
                                    == (before + escape_text(escaped)) + rest);
                            },
                            None => {
                                assert(result@ + Seq::<char>::empty() == result@);
                                break;
                            },
                        }
                    } else {
                        push_char(&mut result, ch);
                        self.advance();
                        let ghost rest = string_body(s, p + 1).0;
                        assert(before + (seq![ch] + rest) == (before + seq![ch]) + rest);
                    }
                },
            }
        }
        result
    }

    fn read_number(&mut self) -> (r: i64)
        requires
            old(self).pos() < old(self).chars().len(),
            is_ascii_digit_spec(old(self).chars()[old(self).pos()]),
        ensures
            final(self).chars() == old(self).chars(),
            final(self).pos() == digits_end(old(self).chars(), old(self).pos()),
            r == number_value(old(self).chars().subrange(old(self).pos(), final(self).pos())),
    {
        let ghost s = self.chars();
        let ghost start = self.pos();
        let ghost target = digits_end(s, start);
        let mut acc: i64 = 0;
        let mut overflow = false;
        proof {
            use_type_invariant(&*self);
            lemma_digits_end_bounds(s, start);
            assert(s.subrange(start, start) == Seq::<char>::empty());
        }
        loop
            invariant
                self.chars() == s,
                0 <= start <= self.pos() <= target,
                digits_end(s, self.pos()) == target,
                target <= s.len(),
                forall|i: int| start <= i < target ==> is_ascii_digit_spec(#[trigger] s[i]),
                !overflow ==> acc == digits_value(s.subrange(start, self.pos())),
                overflow ==> digits_value(s.subrange(start, self.pos())) > i64::MAX,
            ensures
                self.chars() == s,
                self.pos() == target,
                !overflow ==> acc == digits_value(s.subrange(start, target)),
                overflow ==> digits_value(s.subrange(start, target)) > i64::MAX,
            decreases s.len() - self.pos(),
        {
            proof {
                use_type_invariant(&*self);
            }
            let ghost p = self.pos();
            match self.current_char() {
                Some(ch) => {
                    if is_ascii_digit(ch) {
                        let d: u32 = ch as u32 - '0' as u32;
                        proof {
                            let sub = s.subrange(start, p + 1);
                            assert(sub.drop_last() =~= s.subrange(start, p));
                            assert(sub.last() == ch);
                            lemma_digits_value_nonneg(s.subrange(start, p));
                            lemma_digits_end_bounds(s, p + 1);
                        }
                        if !overflow {
                            let next: i128 = (acc as i128) * 10 + (d as i128);
                            if next > i64::MAX as i128 {
                                overflow = true;
                            } else {
                                acc = next as i64;
                            }
                        }
                        self.advance();
                    } else {
                        break;
                    }
                },
                None => {
                    break;
                },
            }
        }
        if overflow {
            0
        } else {
            acc
        }
    }

    /// Whether the characters in `[start, end)` spell `word`.
    fn span_is(&self, start: usize, end: usize, word: &[char]) -> (r: bool)
        requires
            start <= end <= self.chars().len(),
        ensures
            r == (self.chars().subrange(start as int, end as int) == word@),
    {
        if end - start != word.len() {
            return false;
        }
        let mut i: usize = 0;
        while i < word.len()
            invariant
                start <= end <= self.chars().len(),
                end - start == word@.len(),
                i <= word.len(),
                forall|j: int| 0 <= j < i ==> self.chars()[start + j] == word@[j],
            decreases word.len() - i,
        {
            if self.input[start + i] != word[i] {
                assert(self.chars().subrange(start as int, end as int)[i as int] != word@[i as int]);
                return false;
            }
            i = i + 1;
        }
        assert(self.chars().subrange(start as int, end as int) =~= word@);
        true
    }

    fn read_identifier(&mut self) -> (r: String)
        ensures
            final(self).chars() == old(self).chars(),
            final(self).pos() == ident_end(old(self).chars(), old(self).pos()),
            r@ == old(self).chars().subrange(old(self).pos(), final(self).pos()),
            old(self).pos() < old(self).chars().len() && (char_is_alphabetic(
                old(self).chars()[old(self).pos()],
            ) || old(self).chars()[old(self).pos()] == '_') ==> final(self).pos() > old(self).pos(),
    {
        let ghost s = self.chars();
        let ghost start = self.pos();
        let ghost target = ident_end(s, start);
        let mut result = String::new();
        proof {
            use_type_invariant(&*self);
            assert(s.subrange(start, start) =~= Seq::<char>::empty());
        }
        loop
            invariant
                self.chars() == s,
                0 <= start <= self.pos(),
                ident_end(s, self.pos()) == target,
                result@ == s.subrange(start, self.pos()),
            ensures
                self.chars() == s,
                self.pos() == target,
                result@ == s.subrange(start, target),
                self.pos() == start ==> !(start < s.len() && (char_is_alphabetic(s[start])
                    || s[start] == '_')),
            decreases s.len() - self.pos(),
        {
            proof {
                use_type_invariant(&*self);
            }
            let ghost p = self.pos();
            match self.current_char() {
                Some(ch) => {
                    if is_alphanumeric(ch) || ch == '_' {
                        push_char(&mut result, ch);
                        self.advance();
                        assert(s.subrange(start, p + 1) =~= s.subrange(start, p).push(ch));
                    } else {
                        break;
                    }
                },
                None => {
                    break;
                },
            }
        }
        result
    }

    /// The keyword spelled by `[start, end)`, or `None` for an ordinary identifier.
    fn keyword(&self, start: usize, end: usize) -> (r: Option<Token>)
        requires
            start <= end <= self.chars().len(),
        ensures
            ({
                let w = self.chars().subrange(start as int, end as int);
                match r {
                    Some(t) => t@ == word_token(w) && !(t@ is Identifier),
                    None => word_token(w) == TokenV::Identifier(w),
                }
            }),
    {
        if self.span_is(start, end, &['s', 'e', 't']) {
            Some(Token::SetKw)
        } else if self.span_is(start, end, &['i', 'f']) {
            Some(Token::If)
        } else if self.span_is(start, end, &['e', 'l', 's', 'e']) {
            Some(Token::Else)
        } else if self.span_is(start, end, &['e', 'l', 's', 'e', 'i', 'f']) {
            Some(Token::ElseIf)
        } else if self.span_is(start, end, &['w', 'h', 'i', 'l', 'e']) {
            Some(Token::While)
        } else if self.span_is(start, end, &['t', 'r', 'u', 'e']) {
            Some(Token::True)
        } else if self.span_is(start, end, &['f', 'a', 'l', 's', 'e']) {
            Some(Token::False)
        } else if self.span_is(start, end, &['n', 'u', 'l', 'l']) {
            Some(Token::Null)
        } else if self.span_is(start, end, &['p', 'r', 'i', 'n', 't']) {
            Some(Token::Print)
        } else if self.span_is(start, end, &['a', 'n', 'd']) {
            Some(Token::And)
        } else if self.span_is(start, end, &['o', 'r']) {
            Some(Token::Or)
        } else if self.span_is(start, end, &['n', 'o', 't']) {
            Some(Token::Not)
        } else if self.span_is(start, end, &['f', 'n']) {
            Some(Token::Fn)
        } else if self.span_is(start, end, &['r', 'e', 't', 'u', 'r', 'n']) {
            Some(Token::Return)
        } else if self.span_is(start, end, &['i', 'm', 'p', 'o', 'r', 't']) {
            Some(Token::Import)
        } else if self.span_is(start, end, &['f', 'r', 'o', 'm']) {
            Some(Token::From)
        } else if self.span_is(start, end, &['e', 'x', 'p', 'o', 'r', 't']) {
            Some(Token::Export)
        } else if self.span_is(start, end, &['b', 'r', 'e', 'a', 'k']) {
            Some(Token::Break)
        } else if self.span_is(start, end, &['c', 'o', 'n', 't', 'i', 'n', 'u', 'e']) {
            Some(Token::Continue)
        } else if self.span_is(start, end, &['f', 'o', 'r']) {
            Some(Token::For)
        } else if self.span_is(start, end, &['i', 'n']) {
            Some(Token::In)
        } else {
            None
        }
    }

    /// Moves past a `//` comment's text, up to (not over) the newline that ends it.
    fn skip_line(&mut self)
        ensures
            final(self).chars() == old(self).chars(),
            final(self).pos() == line_end(old(self).chars(), old(self).pos()),
    {
        let ghost s = self.chars();
        let ghost target = line_end(s, self.pos());
        loop
            invariant
                self.chars() == s,
                line_end(s, self.pos()) == target,
            ensures
                self.chars() == s,
                self.pos() == target,
            decreases s.len() - self.pos(),
        {
            proof {
                use_type_invariant(&*self);
            }
            match self.current_char() {
                Some(c) => {
                    if c == '\n' {
                        break;
                    }
                    self.advance();
                },
                None => {
                    break;
                },
            }
        }
    }

    /// The next token, skipping spaces, comments and characters that start no token.
    pub fn next_token(&mut self) -> (t: Token)
        ensures
            final(self).chars() == old(self).chars(),
            (t@, final(self).pos()) == next_token_from(old(self).chars(), old(self).pos()),
            !(t@ is Eof) ==> final(self).pos() > old(self).pos(),
            0 <= old(self).pos() <= final(self).pos() <= final(self).chars().len(),
            t@ is Eof ==> final(self).pos() == final(self).chars().len(),
    {
        let ghost s = self.chars();
        let ghost start = self.pos();
        proof {
            use_type_invariant(&*self);
            crate::laws::law_eof_at_end(s, start);
        }
        let ghost target = next_token_from(s, start);
        loop
            invariant
                self.chars() == s,
                s == old(self).chars(),
                start == old(self).pos(),
                target == next_token_from(old(self).chars(), old(self).pos()),
                next_token_from(s, self.pos()) == target,
                start <= self.pos(),
            decreases s.len() - self.pos(),
        {
            proof {
                use_type_invariant(&*self);
            }
            let ghost p0 = self.pos();
            self.skip_spaces();
            proof {
                lemma_skip_spaces_bounds(s, p0);
            }
            let ghost p = self.pos();
            let here = self.position;
            match self.current_char() {
                None => {
                    return Token::Eof;
                },
                Some(ch) => {
                    let next = self.peek_char();
                    let next_is_eq = match next {
                        Some(c) => c == '=',
                        None => false,
                    };
                    if ch == '+' {
                        self.advance();
                        return Token::Plus;
                    } else if ch == '-' {
                        self.advance();
                        return Token::Minus;
                    } else if ch == '*' {
                        self.advance();
                        return Token::Star;
                    } else if ch == '/' {
                        let next_is_slash = match next {
                            Some(c) => c == '/',
                            None => false,
                        };
                        if next_is_slash {
                            self.advance();
                            self.advance();
                            self.skip_line();
                            proof {
                                lemma_line_end_bounds(s, p + 2);
                            }
                        } else {
                            self.advance();
                            return Token::Slash;
                        }
                    } else if ch == '(' {
                        self.advance();
                        return Token::LParen;
                    } else if ch == ')' {
                        self.advance();
                        return Token::RParen;
                    } else if ch == '=' {
                        self.advance();
                        if next_is_eq {
                            self.advance();
                            return Token::EqualEqual;
                        }
                        return Token::Equal;
                    } else if ch == '!' {
                        self.advance();
                        if next_is_eq {
                            self.advance();
                            return Token::NotEqual;
                        }
                        return Token::Not;
                    } else if ch == '>' {
                        self.advance();
                        if next_is_eq {
                            self.advance();
                            return Token::GreaterEqual;
                        }
                        return Token::Greater;
                    } else if ch == '<' {
                        self.advance();
                        if next_is_eq {
                            self.advance();
                            return Token::LessEqual;
                        }
                        return Token::Less;
                    } else if ch == '{' {
                        self.advance();
                        return Token::LBrace;
                    } else if ch == '}' {
                        self.advance();
                        return Token::RBrace;
                    } else if ch == '[' {
                        self.advance();
                        return Token::LBracket;
                    } else if ch == ']' {
                        self.advance();
                        return Token::RBracket;
                    } else if ch == ',' {
                        self.advance();
                        return Token::Comma;
                    } else if ch == '.' {
                        self.advance();
                        return Token::Dot;
                    } else if ch == ':' {
                        self.advance();
                        return Token::Colon;
                    } else if ch == '#' {
                        self.advance();
                        return Token::Hash;
                    } else if ch == '\n' {
                        self.advance();
                        return Token::Newline;
                    } else if ch == '"' {
                        let text = self.read_string();
                        proof {
                            lemma_string_body_bounds(s, p + 1);
                        }
                        return Token::String(text);
                    } else if is_ascii_digit(ch) {
                        let n = self.read_number();
                        proof {
                            lemma_digits_end_bounds(s, p + 1);
                        }
                        return Token::Number(n);
                    } else if is_alphabetic(ch) || ch == '_' {
                        let word = self.read_identifier();
                        let end = self.position;
                        proof {
                            use_type_invariant(&*self);
                        }
                        match self.keyword(here, end) {
                            Some(kw) => {
                                return kw;
                            },
                            None => {
                                return Token::Identifier(word);
                            },
                        }
                    } else {
                        self.advance();
                    }
                },
            }
        }
    }

    /// All remaining tokens, ending with one `Eof`.
    pub fn tokenize(&mut self) -> (r: Vec<Token>)
        ensures
            final(self).chars() == old(self).chars(),
            tokens_view(r@) == tokens_from(old(self).chars(), old(self).pos()),
    {
        let ghost s = self.chars();
        let ghost start = self.pos();
        let mut tokens: Vec<Token> = Vec::new();
        assert(tokens_view(tokens@) =~= Seq::<TokenV>::empty());
        loop
            invariant_except_break
                self.chars() == s,
                tokens_view(tokens@) + tokens_from(s, self.pos()) == tokens_from(s, start),
            ensures
                self.chars() == s,
                tokens_view(tokens@) == tokens_from(s, start),
            decreases s.len() - self.pos(),
        {
            proof {
                use_type_invariant(&*self);
            }
            let ghost p = self.pos();
            let ghost before = tokens_view(tokens@);
            let token = self.next_token();
            proof {
                use_type_invariant(&*self);
            }
            let ghost tv = token@;
            let is_eof = match token {
                Token::Eof => true,
                _ => false,
            };
            tokens.push(token);
            assert(tokens_view(tokens@) =~= before.push(tv));
            if is_eof {
                assert(before.push(tv) =~= before + tokens_from(s, p));
                break;
            }
            assert(before + tokens_from(s, p) =~= before.push(tv) + tokens_from(s, self.pos()));
        }
        tokens
    }
}

} // verus!
