//! The executable lexer: a cursor over the source characters that yields one
//! token, or one error, per call of `next`.

use vstd::prelude::*;
use vstd::string::{StrSliceExecFns, StringExecFns};
use crate::ascii::{digit, ident_part, ident_start, space};
use crate::scan::{ident_end, number_end, skip_ws, step, string_end, LexError, Step, TokenType};

verus! {

broadcast use vstd::string::group_string_axioms;

/// A token: its kind, the slice of the source it was read from, and the
/// position (in characters) of its first character.
#[derive(Debug)]
pub struct Token<'a> {
    pub ttype: TokenType,
    pub sequence: &'a str,
    pub pos: usize,
}

/// A lexer over one source text.
pub struct Lexer<'a> {
    expression: &'a str,
    chars: Vec<char>,
    cursor: usize,
}

/// `r` is what the lexer returns for the step `st` over the source `s`.
pub open spec fn yields<'a>(r: Option<Result<Token<'a>, LexError>>, s: Seq<char>, st: Step) -> bool {
    match st {
        Step::End => r is None,
        Step::Tok { kind, start, end } => match r {
            Some(Ok(t)) => t.ttype == kind && t.pos == start && t.sequence@ == s.subrange(start, end),
            _ => false,
        },
        Step::Fail { err } => r == Some(Err::<Token<'a>, LexError>(err)),
    }
}

/// The content of a string literal's body: a backslash before `"` or `\\`
/// stands for that character; before any other character it is kept with
/// it; a trailing backslash stays a backslash.
pub open spec fn unescape(s: Seq<char>) -> Seq<char>
    decreases s.len(),
{
    if s.len() == 0 {
        Seq::empty()
    } else if s[0] == '\\' && s.len() == 1 {
        seq!['\\']
    } else if s[0] == '\\' && (s[1] == '"' || s[1] == '\\') {
        seq![s[1]] + unescape(s.subrange(2, s.len() as int))
    } else if s[0] == '\\' {
        seq!['\\', s[1]] + unescape(s.subrange(2, s.len() as int))
    } else {
        seq![s[0]] + unescape(s.subrange(1, s.len() as int))
    }
}

/// Relies on `String::push`: appends one character.
#[verifier::external_body]
fn push_char(s: &mut String, c: char)
    ensures
        final(s)@ == old(s)@.push(c),
{
    s.push(c)
}

/// The characters of `s`, in order.
pub fn chars_of(s: &str) -> (r: Vec<char>)
    ensures
        r@ == s@,
{
    let mut r: Vec<char> = Vec::new();
    for c in it: s.chars()
        invariant
            r@ == it.seq().take(it.index() as int),
    {
        r.push(c);
    }
    r
}

impl<'a> Token<'a> {
    /// The token of kind `ttype` over the source characters `from - 1 .. to`:
    /// `from` is the cursor just after the lexeme's first character, `to` the
    /// cursor just after its last.
    pub fn from(lexer: &Lexer<'a>, ttype: TokenType, from: usize, to: usize) -> (r: Token<'a>)
        requires
            lexer.wf(),
            1 <= from,
            from - 1 <= to <= lexer.source().len(),
        ensures
            r.ttype == ttype,
            r.pos == from - 1,
            r.sequence@ == lexer.source().subrange(from - 1, to as int),
    {
        Token { ttype, sequence: lexer.expression.substring_char(from - 1, to), pos: from - 1 }
    }

    /// The one-character token whose character ends at cursor `pos`.
    pub fn from_char(lexer: &Lexer<'a>, ttype: TokenType, pos: usize) -> (r: Token<'a>)
        requires
            lexer.wf(),
            1 <= pos <= lexer.source().len(),
        ensures
            r.ttype == ttype,
            r.pos == pos - 1,
            r.sequence@ == lexer.source().subrange(pos - 1, pos as int),
    {
        Token::from(lexer, ttype, pos, pos)
    }

    /// The text the token stands for: a string literal's content with its
    /// quotes taken off and its escapes decoded; for any other kind, the
    /// lexeme itself.
    pub fn as_str(&self) -> (r: String)
        requires
            self.ttype == TokenType::String ==> self.sequence@.len() >= 2,
        ensures
            self.ttype == TokenType::String ==> r@ == unescape(
                self.sequence@.subrange(1, self.sequence@.len() - 1),
            ),
            self.ttype != TokenType::String ==> r@ == self.sequence@,
    {
        if self.ttype != TokenType::String {
            return self.sequence.to_owned();
        }
        let all = chars_of(self.sequence);
        let n = all.len() - 1;
        let ghost inner = all@.subrange(1, n as int);
        let mut out = String::new();
        let mut i: usize = 1;
        while i < n
            invariant
                1 <= i <= n + 1,
                n + 1 == all@.len(),
                inner == all@.subrange(1, n as int),
                i <= n ==> out@ + unescape(all@.subrange(i as int, n as int)) == unescape(inner),
                i > n ==> out@ == unescape(inner),
            decreases n + 1 - i,
        {
            let ghost rest = all@.subrange(i as int, n as int);
            let ch = all[i];
            if ch == '\\' && i + 1 < n {
                let nx = all[i + 1];
                assert(rest.subrange(2, rest.len() as int) =~= all@.subrange(i + 2, n as int));
                if nx == '"' || nx == '\\' {
                    push_char(&mut out, nx);
                } else {
                    push_char(&mut out, '\\');
                    push_char(&mut out, nx);
                    assert(seq!['\\', nx] =~= seq!['\\'] + seq![nx]);
                }
                i = i + 2;
            } else {
                assert(rest.subrange(1, rest.len() as int) =~= all@.subrange(i + 1, n as int));
                push_char(&mut out, ch);
                i = i + 1;
            }
        }
        out
    }

    /// The token as a listing shows it: a string literal as its decoded
    /// content between double quotes, any other token as its lexeme.
    pub fn display_text(&self) -> (r: String)
        requires
            self.ttype == TokenType::String ==> self.sequence@.len() >= 2,
        ensures
            self.ttype == TokenType::String ==> r@ == seq!['"'] + unescape(
                self.sequence@.subrange(1, self.sequence@.len() - 1),
            ) + seq!['"'],
            self.ttype != TokenType::String ==> r@ == self.sequence@,
    {
        if self.ttype != TokenType::String {
            return self.sequence.to_owned();
        }
        let content = self.as_str();
        let mut r = String::new();
        push_char(&mut r, '"');
        r.append(content.as_str());
        push_char(&mut r, '"');
        r
    }
}

impl<'a> Lexer<'a> {
    /// The characters of the source text.
    pub closed spec fn source(&self) -> Seq<char> {
        self.chars@
    }

    /// The number of characters consumed so far.
    pub closed spec fn cursor_pos(&self) -> int {
        self.cursor as int
    }

    /// The text backing the lexer is the one whose characters it scans, and
    /// the cursor lies within it.
    pub closed spec fn wf(&self) -> bool {
        &&& self.chars@ == self.expression@
        &&& self.cursor <= self.chars.len()
    }

    pub closed spec fn text(&self) -> &'a str {
        self.expression
    }

    pub fn new(input: &'a str) -> (r: Lexer<'a>)
        ensures
            r.wf(),
            r.source() == input@,
            r.cursor_pos() == 0,
    {
        Lexer { expression: input, chars: chars_of(input), cursor: 0 }
    }

    /// Consumes one character and returns it; at the end of input returns
    /// `'\0'` and consumes nothing.
    pub fn next_char(&mut self) -> (r: char)
        requires
            old(self).wf(),
        ensures
            final(self).wf(),
            final(self).source() == old(self).source(),
            final(self).text() == old(self).text(),
            old(self).cursor_pos() < old(self).source().len() ==> {
                &&& r == old(self).source()[old(self).cursor_pos()]
                &&& final(self).cursor_pos() == old(self).cursor_pos() + 1
            },
            old(self).cursor_pos() >= old(self).source().len() ==> {
                &&& r == '\0'
                &&& final(self).cursor_pos() == old(self).cursor_pos()
            },
    {
        if self.cursor >= self.chars.len() {
            return '\0';
        }
        let c = self.chars[self.cursor];
        self.cursor = self.cursor + 1;
        c
    }

    /// The next character, without consuming it; `'\0'` at the end of input.
    pub fn peek(&self) -> (r: char)
        requires
            self.wf(),
        ensures
            self.cursor_pos() < self.source().len() ==> r == self.source()[self.cursor_pos()],
            self.cursor_pos() >= self.source().len() ==> r == '\0',
    {
        if self.cursor < self.chars.len() {
            self.chars[self.cursor]
        } else {
            '\0'
        }
    }

    /// Consumes the whitespace at the cursor.
    pub fn skip_whitespace(&mut self)
        requires
            old(self).wf(),
        ensures
            final(self).wf(),
            final(self).source() == old(self).source(),
            final(self).text() == old(self).text(),
            final(self).cursor_pos() == skip_ws(old(self).source(), old(self).cursor_pos()),
    {
        while space(self.peek())
            invariant
                self.wf(),
                self.source() == old(self).source(),
                self.text() == old(self).text(),
                old(self).cursor_pos() <= self.cursor_pos(),
                skip_ws(self.source(), self.cursor_pos()) == skip_ws(
                    old(self).source(),
                    old(self).cursor_pos(),
                ),
            decreases self.source().len() - self.cursor_pos(),
        {
            self.next_char();
        }
    }
    /// A one- or two-character token: two where the next character is `=`.
    fn maybe_eq(&mut self, one: TokenType, two: TokenType) -> (r: Result<Token<'a>, LexError>)
        requires
            old(self).wf(),
            1 <= old(self).cursor_pos(),
        ensures
            final(self).wf(),
            final(self).source() == old(self).source(),
            final(self).text() == old(self).text(),
            ({
                let (st, j) = crate::scan::maybe_eq(old(self).source(), old(self).cursor_pos() - 1, one, two);
                final(self).cursor_pos() == j && yields(Some(r), old(self).source(), st)
            }),
    {
        if self.peek() == '=' {
            self.next_char();
            Ok(Token::from(self, two, self.cursor - 1, self.cursor))
        } else {
            Ok(Token::from_char(self, one, self.cursor))
        }
    }

    /// A doubled character `c`; a single one fails with `err`.
    fn doubled(&mut self, c: char, kind: TokenType, err: LexError) -> (r: Result<Token<'a>, LexError>)
        requires
            old(self).wf(),
            1 <= old(self).cursor_pos(),
        ensures
            final(self).wf(),
            final(self).source() == old(self).source(),
            final(self).text() == old(self).text(),
            ({
                let (st, j) = crate::scan::doubled(old(self).source(), old(self).cursor_pos() - 1, c, kind, err);
                final(self).cursor_pos() == j && yields(Some(r), old(self).source(), st)
            }),
    {
        let at_end = self.cursor >= self.chars.len();
        if self.next_char() == c && !at_end {
            Ok(Token::from(self, kind, self.cursor - 1, self.cursor))
        } else {
            Err(err)
        }
    }

    /// Scans the next lexeme: returns `None` at the end of input, else the
    /// token or the error found there, and moves the cursor past it.
    pub fn next(&mut self) -> (r: Option<Result<Token<'a>, LexError>>)
        requires
            old(self).wf(),
        ensures
            final(self).wf(),
            final(self).source() == old(self).source(),
            final(self).text() == old(self).text(),
            ({
                let (st, j) = step(old(self).source(), old(self).cursor_pos());
                final(self).cursor_pos() == j && yields(r, old(self).source(), st)
            }),
    {
        self.skip_whitespace();
        if self.cursor >= self.chars.len() {
            return None;
        }
        let ghost s = self.source();
        let ghost i = self.cursor_pos();
        assert(s == old(self).source() && i == skip_ws(s, old(self).cursor_pos()));
        let first = self.next_char();
        let token = if first == '(' {
            Ok(Token::from_char(self, TokenType::OpenParen, self.cursor))
        } else if first == ')' {
            Ok(Token::from_char(self, TokenType::CloseParen, self.cursor))
        } else if first == '^' {
            Ok(Token::from_char(self, TokenType::Xor, self.cursor))
        } else if first == '<' {
            self.maybe_eq(TokenType::LessThan, TokenType::LessThanEquals)
        } else if first == '>' {
            self.maybe_eq(TokenType::GreaterThan, TokenType::GreaterThanEquals)
        } else if first == '!' {
            self.maybe_eq(TokenType::Bang, TokenType::NotEquals)
        } else if first == '&' {
            self.doubled('&', TokenType::And, LexError::InvalidAnd { pos: self.cursor - 1 })
        } else if first == '|' {
            self.doubled('|', TokenType::Or, LexError::InvalidOr { pos: self.cursor - 1 })
        } else if first == '=' {
            self.doubled('=', TokenType::Equals, LexError::InvalidEquals { pos: self.cursor - 1 })
        } else if first == '"' {
            let start = self.cursor;
            loop
                invariant_except_break
                    string_end(s, self.cursor_pos()) == string_end(s, i + 1),
                invariant
                    self.wf(),
                    self.source() == s,
                    self.text() == old(self).text(),
                    0 <= i < s.len(),
                    start == i + 1,
                    start <= self.cursor_pos(),
                    s == old(self).source(),
                    i == skip_ws(s, old(self).cursor_pos()),
                    s[i] == '"',
                ensures
                    self.wf(),
                    self.source() == s,
                    self.text() == old(self).text(),
                    start <= self.cursor_pos(),
                    string_end(s, i + 1) == Some(self.cursor_pos()),
                decreases s.len() - self.cursor_pos(),
            {
                if self.cursor >= self.chars.len() {
                    assert(string_end(s, self.cursor_pos()) is None);
                    return Some(Err(LexError::UnterminatedString { pos: start - 1 }));
                }
                let ch = self.next_char();
                if ch == '\\' {
                    let ghost before = self.cursor_pos();
                    self.next_char();
                    assert(string_end(s, before + 1) == string_end(s, self.cursor_pos()));
                } else if ch == '"' {
                    break;
                }
            }
            Ok(Token::from(self, TokenType::String, start, self.cursor))
        } else if ident_start(first) {
            let start = self.cursor;
            while ident_part(self.peek())
                invariant
                    self.wf(),
                    self.source() == s,
                    self.text() == old(self).text(),
                    start <= self.cursor_pos(),
                    start == i + 1,
                    ident_end(s, self.cursor_pos()) == ident_end(s, i + 1),
                decreases s.len() - self.cursor_pos(),
            {
                self.next_char();
            }
            Ok(Token::from(self, TokenType::Identifier, start, self.cursor))
        } else if digit(first) || (first == '.' && digit(self.peek())) {
            let start = self.cursor;
            let mut seen_dot = first == '.';
            loop
                invariant
                    self.wf(),
                    self.source() == s,
                    self.text() == old(self).text(),
                    start <= self.cursor_pos(),
                    start == i + 1,
                    number_end(s, self.cursor_pos(), seen_dot) == number_end(s, i + 1, first == '.'),
                ensures
                    self.wf(),
                    self.source() == s,
                    self.text() == old(self).text(),
                    start <= self.cursor_pos(),
                    self.cursor_pos() == number_end(s, i + 1, first == '.'),
                decreases s.len() - self.cursor_pos(),
            {
                let nxt = self.peek();
                if digit(nxt) {
                    self.next_char();
                } else if nxt == '.' && !seen_dot {
                    seen_dot = true;
                    self.next_char();
                } else {
                    break;
                }
            }
            Ok(Token::from(self, TokenType::Number, start, self.cursor))
        } else if first == '.' {
            Ok(Token::from_char(self, TokenType::Dot, self.cursor))
        } else {
            Err(LexError::UnexpectedChar { pos: self.cursor - 1, ch: first })
        };
        Some(token)
    }
}

} // verus!
