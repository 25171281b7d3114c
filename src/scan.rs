//! The scanner as spec functions over the source characters: where each
//! lexeme ends, and what one step from a cursor position yields.

use vstd::prelude::*;
use crate::ascii::{is_digit, is_ident_part, is_ident_start, is_space};

verus! {

/// The kind of a token.
#[derive(Debug, Clone, Copy, PartialEq, Eq, Structural)]
pub enum TokenType {
    Equals,
    NotEquals,
    LessThan,
    LessThanEquals,
    GreaterThan,
    GreaterThanEquals,
    Bang,
    And,
    Or,
    Xor,
    Dot,
    OpenParen,
    CloseParen,
    Number,
    String,
    Identifier,
}

/// A lexical error, with the position (in characters) where it was found.
#[derive(Debug, Clone, Copy, PartialEq, Eq, Structural)]
pub enum LexError {
    UnterminatedString { pos: usize },
    UnexpectedChar { pos: usize, ch: char },
    InvalidAnd { pos: usize },
    InvalidOr { pos: usize },
    InvalidEquals { pos: usize },
}

/// What one step of the scanner yields: the end of input, a token spanning
/// the characters `start .. end`, or an error.
pub enum Step {
    End,
    Tok { kind: TokenType, start: int, end: int },
    Fail { err: LexError },
}

/// The first position at or after `i` that does not hold whitespace.
pub open spec fn skip_ws(s: Seq<char>, i: int) -> int
    decreases s.len() - i,
{
    if 0 <= i < s.len() && is_space(s[i]) {
        skip_ws(s, i + 1)
    } else {
        i
    }
}

/// The end of the identifier run that continues at `i`.
pub open spec fn ident_end(s: Seq<char>, i: int) -> int
    decreases s.len() - i,
{
    if 0 <= i < s.len() && is_ident_part(s[i]) {
        ident_end(s, i + 1)
    } else {
        i
    }
}

/// The end of the number that continues at `i`: digits, and one decimal
/// point unless `seen_dot` says that one was taken already.
pub open spec fn number_end(s: Seq<char>, i: int, seen_dot: bool) -> int
    decreases s.len() - i,
{
    if 0 <= i < s.len() && is_digit(s[i]) {
        number_end(s, i + 1, seen_dot)
    } else if 0 <= i < s.len() && s[i] == '.' && !seen_dot {
        number_end(s, i + 1, true)
    } else {
        i
    }
}

/// The position after the closing quote of a string whose body continues at
/// `i`, or `None` where the input ends first. A backslash takes the next
/// character with it.
pub open spec fn string_end(s: Seq<char>, i: int) -> Option<int>
    decreases s.len() + 1 - i,
{
    if i < 0 || i >= s.len() {
        None
    } else if s[i] == '\\' {
        string_end(s, i + 2)
    } else if s[i] == '"' {
        Some(i + 1)
    } else {
        string_end(s, i + 1)
    }
}

/// The character at `i`, if `i` is inside the source.
pub open spec fn char_at(s: Seq<char>, i: int) -> Option<char> {
    if 0 <= i < s.len() {
        Some(s[i])
    } else {
        None
    }
}

/// A token of one character, or of two where the next one is `=`.
pub open spec fn maybe_eq(s: Seq<char>, i: int, one: TokenType, two: TokenType) -> (Step, int) {
    if char_at(s, i + 1) == Some('=') {
        (Step::Tok { kind: two, start: i, end: i + 2 }, i + 2)
    } else {
        (Step::Tok { kind: one, start: i, end: i + 1 }, i + 1)
    }
}

/// A doubled character (`&&`, `||`, `==`); a single one fails with `err`,
/// and the character after it is consumed all the same.
pub open spec fn doubled(s: Seq<char>, i: int, c: char, kind: TokenType, err: LexError) -> (Step, int) {
    if char_at(s, i + 1) == Some(c) {
        (Step::Tok { kind, start: i, end: i + 2 }, i + 2)
    } else if i + 1 < s.len() {
        (Step::Fail { err }, i + 2)
    } else {
        (Step::Fail { err }, i + 1)
    }
}

/// One step of the scanner from cursor `i0`: what it yields, and the cursor
/// after it.
pub open spec fn step(s: Seq<char>, i0: int) -> (Step, int) {
    let i = skip_ws(s, i0);
    if i < 0 || i >= s.len() {
        (Step::End, i)
    } else {
        let c = s[i];
        if c == '(' {
            (Step::Tok { kind: TokenType::OpenParen, start: i, end: i + 1 }, i + 1)
        } else if c == ')' {
            (Step::Tok { kind: TokenType::CloseParen, start: i, end: i + 1 }, i + 1)
        } else if c == '^' {
            (Step::Tok { kind: TokenType::Xor, start: i, end: i + 1 }, i + 1)
        } else if c == '<' {
            maybe_eq(s, i, TokenType::LessThan, TokenType::LessThanEquals)
        } else if c == '>' {
            maybe_eq(s, i, TokenType::GreaterThan, TokenType::GreaterThanEquals)
        } else if c == '!' {
            maybe_eq(s, i, TokenType::Bang, TokenType::NotEquals)
        } else if c == '&' {
            doubled(s, i, '&', TokenType::And, LexError::InvalidAnd { pos: i as usize })
        } else if c == '|' {
            doubled(s, i, '|', TokenType::Or, LexError::InvalidOr { pos: i as usize })
        } else if c == '=' {
            doubled(s, i, '=', TokenType::Equals, LexError::InvalidEquals { pos: i as usize })
        } else if c == '"' {
            match string_end(s, i + 1) {
                Some(e) => (Step::Tok { kind: TokenType::String, start: i, end: e }, e),
                None => (Step::Fail { err: LexError::UnterminatedString { pos: i as usize } }, s.len() as int),
            }
        } else if is_ident_start(c) {
            let e = ident_end(s, i + 1);
            (Step::Tok { kind: TokenType::Identifier, start: i, end: e }, e)
        } else if is_digit(c) || (c == '.' && i + 1 < s.len() && is_digit(s[i + 1])) {
            let e = number_end(s, i + 1, c == '.');
            (Step::Tok { kind: TokenType::Number, start: i, end: e }, e)
        } else if c == '.' {
            (Step::Tok { kind: TokenType::Dot, start: i, end: i + 1 }, i + 1)
        } else {
            (Step::Fail { err: LexError::UnexpectedChar { pos: i as usize, ch: c } }, i + 1)
        }
    }
}

} // verus!
