//! The lexer: from source text to tokens, one at a time.
//!
//! A position counts characters, not bytes. Whatever the language has no
//! use for becomes an `Illegal` token, and so does an integer literal that
//! does not fit in 64 bits; the lexer itself never fails.

use crate::token::{keyword_or_ident, lookup_ident, Tok, Token};
use vstd::prelude::*;

verus! {

/// A letter of an identifier: an ASCII letter or an underscore.
pub open spec fn letter(c: char) -> bool {
    ('a' <= c && c <= 'z') || ('A' <= c && c <= 'Z') || c == '_'
}

/// A decimal digit.
pub open spec fn digit(c: char) -> bool {
    '0' <= c && c <= '9'
}

/// ASCII white space: space, tab, line feed, form feed, carriage return.
pub open spec fn whitespace(c: char) -> bool {
    c == ' ' || c == '\t' || c == '\n' || c == '\x0C' || c == '\r'
}

/// The classes of characters that the lexer scans in runs.
pub enum CharClass {
    Whitespace,
    Letter,
    Digit,
}

impl CharClass {
    /// Whether `c` belongs to the class.
    pub open spec fn holds(self, c: char) -> bool {
        match self {
            CharClass::Whitespace => whitespace(c),
            CharClass::Letter => letter(c),
            CharClass::Digit => digit(c),
        }
    }
}

/// The end of the longest run of characters of `class` that starts at
/// `pos`: the first position from `pos` on that holds no such character.
pub open spec fn run_end(input: Seq<char>, pos: int, class: CharClass) -> int
    decreases input.len() - pos,
{
    if 0 <= pos < input.len() && class.holds(input[pos]) {
        run_end(input, pos + 1, class)
    } else {
        pos
    }
}

/// The number that a digit stands for.
pub open spec fn digit_value(c: char) -> nat {
    (c as nat - 48) as nat
}

/// The number that a run of digits writes in decimal.
pub open spec fn digits_value(digits: Seq<char>) -> nat
    decreases digits.len(),
{
    if digits.len() == 0 {
        0
    } else {
        digits_value(digits.drop_last()) * 10 + digit_value(digits.last())
    }
}

/// The token for a run of digits: the integer it writes, or `Illegal` where
/// that integer does not fit in 64 bits.
pub open spec fn number_token(digits: Seq<char>) -> Tok {
    if digits_value(digits) <= i64::MAX {
        Tok::Int(digits_value(digits) as i64)
    } else {
        Tok::Illegal
    }
}

/// One step of the lexer: a token and the position behind it.
pub struct Scan {
    pub token: Tok,
    pub next: int,
}

/// The token that starts at the first position from `pos` on that holds no
/// white space, and the position behind that token.
pub open spec fn scan(input: Seq<char>, pos: int) -> Scan {
    let start = run_end(input, pos, CharClass::Whitespace);
    if start < 0 || start >= input.len() {
        Scan { token: Tok::Eof, next: start }
    } else {
        let c = input[start];
        let followed_by_equals = start + 1 < input.len() && input[start + 1] == '=';
        if c == '=' {
            if followed_by_equals {
                Scan { token: Tok::Eq, next: start + 2 }
            } else {
                Scan { token: Tok::Assign, next: start + 1 }
            }
        } else if c == '!' {
            if followed_by_equals {
                Scan { token: Tok::NotEq, next: start + 2 }
            } else {
                Scan { token: Tok::Bang, next: start + 1 }
            }
        } else if c == '+' {
            Scan { token: Tok::Plus, next: start + 1 }
        } else if c == '-' {
            Scan { token: Tok::Minus, next: start + 1 }
        } else if c == '*' {
            Scan { token: Tok::Asterisk, next: start + 1 }
        } else if c == '/' {
            Scan { token: Tok::Slash, next: start + 1 }
        } else if c == '<' {
            Scan { token: Tok::Lt, next: start + 1 }
        } else if c == '>' {
            Scan { token: Tok::Gt, next: start + 1 }
        } else if c == ',' {
            Scan { token: Tok::Comma, next: start + 1 }
        } else if c == ';' {
            Scan { token: Tok::Semicolon, next: start + 1 }
        } else if c == '(' {
            Scan { token: Tok::Lparen, next: start + 1 }
        } else if c == ')' {
            Scan { token: Tok::Rparen, next: start + 1 }
        } else if c == '{' {
            Scan { token: Tok::Lbrace, next: start + 1 }
        } else if c == '}' {
            Scan { token: Tok::Rbrace, next: start + 1 }
        } else if letter(c) {
            let end = run_end(input, start, CharClass::Letter);
            Scan { token: keyword_or_ident(input.subrange(start, end)), next: end }
        } else if digit(c) {
            let end = run_end(input, start, CharClass::Digit);
            Scan { token: number_token(input.subrange(start, end)), next: end }
        } else {
            Scan { token: Tok::Illegal, next: start + 1 }
        }
    }
}

/// A run ends at or after its start and within the input, every character
/// of it is of the class, and the character behind it is not.
pub proof fn lemma_run_end(input: Seq<char>, pos: int, class: CharClass)
    requires
        0 <= pos <= input.len(),
    ensures
        pos <= run_end(input, pos, class) <= input.len(),
        forall|i: int| pos <= i < run_end(input, pos, class) ==> class.holds(#[trigger] input[i]),
        run_end(input, pos, class) < input.len() ==> !class.holds(
            input[run_end(input, pos, class)],
        ),
    decreases input.len() - pos,
{
    if pos < input.len() && class.holds(input[pos]) {
        lemma_run_end(input, pos + 1, class);
    }
}

/// A step of the lexer stays within the input, and it moves forward unless
/// it yields the end-of-input token.
pub proof fn lemma_scan_advances(input: Seq<char>, pos: int)
    requires
        0 <= pos <= input.len(),
    ensures
        pos <= scan(input, pos).next <= input.len(),
        scan(input, pos).token is Eof <==> scan(input, pos).next == input.len() && run_end(
            input,
            pos,
            CharClass::Whitespace,
        ) == input.len(),
        !(scan(input, pos).token is Eof) ==> pos < scan(input, pos).next,
{
    lemma_run_end(input, pos, CharClass::Whitespace);
    let start = run_end(input, pos, CharClass::Whitespace);
    if start < input.len() {
        lemma_run_end(input, start, CharClass::Letter);
        lemma_run_end(input, start, CharClass::Digit);
        lemma_run_end(input, start + 1, CharClass::Letter);
        lemma_run_end(input, start + 1, CharClass::Digit);
    }
}

/// Past the end of input there is only the end of input: where a step
/// yields the end-of-input token, so does every step after it, from the
/// same position.
pub proof fn lemma_eof_repeats(input: Seq<char>, pos: int)
    requires
        0 <= pos <= input.len(),
        scan(input, pos).token is Eof,
    ensures
        scan(input, scan(input, pos).next) == scan(input, pos),
{
    lemma_scan_advances(input, pos);
}

/// The tokens from `pos` up to the end of input, without the end-of-input
/// token.
#[verifier::opaque]
pub open spec fn tokens_from(input: Seq<char>, pos: int) -> Seq<Tok>
    decreases input.len() - pos,
{
    if 0 <= pos <= input.len() && !(scan(input, pos).token is Eof) {
        proof {
            lemma_scan_advances(input, pos);
        }
        seq![scan(input, pos).token] + tokens_from(input, scan(input, pos).next)
    } else {
        Seq::<Tok>::empty()
    }
}

/// All tokens of a source text, without the end-of-input token.
pub open spec fn tokenize(input: Seq<char>) -> Seq<Tok> {
    tokens_from(input, 0)
}

/// Tells whether `ch` is a letter of an identifier.
pub fn is_letter(ch: char) -> (b: bool)
    ensures
        b == letter(ch),
{
    ('a' <= ch && ch <= 'z') || ('A' <= ch && ch <= 'Z') || ch == '_'
}

/// Tells whether `ch` is a decimal digit.
pub fn is_digit(ch: char) -> (b: bool)
    ensures
        b == digit(ch),
{
    '0' <= ch && ch <= '9'
}

/// Tells whether `ch` is ASCII white space.
pub fn is_whitespace(ch: char) -> (b: bool)
    ensures
        b == whitespace(ch),
{
    ch == ' ' || ch == '\t' || ch == '\n' || ch == '\x0C' || ch == '\r'
}

/// Adding a digit to a run multiplies the run's number by ten and adds the
/// digit's.
proof fn lemma_digits_value_step(input: Seq<char>, start: int, end: int)
    requires
        0 <= start <= end < input.len(),
    ensures
        digits_value(input.subrange(start, end + 1)) == digits_value(input.subrange(start, end))
            * 10 + digit_value(input[end]),
{
    assert(input.subrange(start, end + 1).drop_last() =~= input.subrange(start, end));
}

/// A lexer over a source text.
pub struct Lexer<'a> {
    input: &'a str,
    /// The number of characters of the input.
    len: usize,
    /// The position of the character under examination.
    position: usize,
}

impl<'a> Lexer<'a> {
    /// The characters of the source text.
    pub closed spec fn source(&self) -> Seq<char> {
        self.input@
    }

    /// The position of the next character to examine.
    pub closed spec fn pos(&self) -> int {
        self.position as int
    }

    /// The invariant of a lexer: its position lies within the source text.
    pub closed spec fn wf(&self) -> bool {
        &&& self.len == self.input@.len()
        &&& self.position <= self.len
    }

    /// The tokens still to come, without the end-of-input token.
    pub open spec fn remaining(&self) -> Seq<Tok> {
        tokens_from(self.source(), self.pos())
    }

    /// A well-formed lexer's position lies within its source text.
    pub proof fn lemma_pos_in_source(&self)
        requires
            self.wf(),
        ensures
            0 <= self.pos() <= self.source().len(),
    {
    }

    /// A lexer at the start of `input`.
    pub fn new(input: &'a str) -> (lexer: Self)
        ensures
            lexer.wf(),
            lexer.source() == input@,
            lexer.pos() == 0,
    {
        Self { input, len: input.unicode_len(), position: 0 }
    }

    /// Moves on by one character, unless the input has ended.
    fn read_char(&mut self)
        requires
            old(self).wf(),
        ensures
            final(self).wf(),
            final(self).source() == old(self).source(),
            final(self).pos() == if old(self).pos() < old(self).source().len() {
                old(self).pos() + 1
            } else {
                old(self).pos()
            },
    {
        if self.position < self.len {
            self.position += 1;
        }
    }

    /// The character behind the one under examination, or NUL where there
    /// is none.
    fn peek_char(&self) -> (ch: char)
        requires
            self.wf(),
        ensures
            ch == if self.pos() + 1 < self.source().len() {
                self.source()[self.pos() + 1]
            } else {
                '\0'
            },
    {
        if self.position < self.len && self.position + 1 < self.len {
            self.input.get_char(self.position + 1)
        } else {
            '\0'
        }
    }

    /// Moves past the white space at the current position.
    fn skip_whitespace(&mut self)
        requires
            old(self).wf(),
        ensures
            final(self).wf(),
            final(self).source() == old(self).source(),
            final(self).pos() == run_end(old(self).source(), old(self).pos(), CharClass::Whitespace),
    {
        while self.position < self.len && is_whitespace(self.input.get_char(self.position))
            invariant
                self.wf(),
                self.source() == old(self).source(),
                run_end(self.source(), self.pos(), CharClass::Whitespace) == run_end(
                    old(self).source(),
                    old(self).pos(),
                    CharClass::Whitespace,
                ),
            decreases self.len - self.position,
        {
            self.read_char();
        }
    }

    /// Reads the word that starts at the current position.
    fn read_identifier(&mut self) -> (token: Token)
        requires
            old(self).wf(),
        ensures
            final(self).wf(),
            final(self).source() == old(self).source(),
            final(self).pos() == run_end(old(self).source(), old(self).pos(), CharClass::Letter),
            token@ == keyword_or_ident(
                old(self).source().subrange(old(self).pos(), final(self).pos()),
            ),
    {
        let pos = self.position;
        while self.position < self.len && is_letter(self.input.get_char(self.position))
            invariant
                self.wf(),
                self.source() == old(self).source(),
                pos == old(self).position,
                pos <= self.position,
                run_end(self.source(), self.pos(), CharClass::Letter) == run_end(
                    old(self).source(),
                    old(self).pos(),
                    CharClass::Letter,
                ),
            decreases self.len - self.position,
        {
            self.read_char();
        }
        lookup_ident(self.input.substring_char(pos, self.position))
    }

    /// Reads the integer literal that starts at the current position.
    fn read_number(&mut self) -> (token: Token)
        requires
            old(self).wf(),
        ensures
            final(self).wf(),
            final(self).source() == old(self).source(),
            final(self).pos() == run_end(old(self).source(), old(self).pos(), CharClass::Digit),
            token@ == number_token(old(self).source().subrange(old(self).pos(), final(self).pos())),
    {
        let position = self.position;
        let mut value: u64 = 0;
        let mut fits = true;
        assert(self.source().subrange(position as int, position as int) =~= Seq::<char>::empty());
        while self.position < self.len && is_digit(self.input.get_char(self.position))
            invariant
                self.wf(),
                self.source() == old(self).source(),
                position == old(self).position,
                position <= self.position,
                run_end(self.source(), self.pos(), CharClass::Digit) == run_end(
                    old(self).source(),
                    old(self).pos(),
                    CharClass::Digit,
                ),
                fits ==> value == digits_value(
                    self.source().subrange(position as int, self.pos()),
                ) && value <= i64::MAX,
                !fits ==> digits_value(self.source().subrange(position as int, self.pos()))
                    > i64::MAX,
            decreases self.len - self.position,
        {
            let d = (self.input.get_char(self.position) as u64) - 48;
            proof {
                lemma_digits_value_step(self.source(), position as int, self.pos());
            }
            if fits {
                if value > (9223372036854775807u64 - d) / 10 {
                    fits = false;
                } else {
                    value = value * 10 + d;
                }
            }
            self.read_char();
        }
        if fits {
            Token::Int(value as i64)
        } else {
            Token::Illegal
        }
    }

    /// Yields the next token and moves behind it. Once the input has ended,
    /// every call yields `Eof` and leaves the lexer as it is.
    pub fn next_token(&mut self) -> (token: Token)
        requires
            old(self).wf(),
        ensures
            final(self).wf(),
            final(self).source() == old(self).source(),
            token@ == scan(old(self).source(), old(self).pos()).token,
            final(self).pos() == scan(old(self).source(), old(self).pos()).next,
            old(self).pos() == old(self).source().len() ==> token@ is Eof && final(self).pos()
                == old(self).pos(),
            token@ is Eof ==> final(self).pos() == final(self).source().len(),
    {
        proof {
            lemma_scan_advances(self.source(), self.pos());
        }
        self.skip_whitespace();
        if self.position >= self.len {
            return Token::Eof;
        }
        let ch = self.input.get_char(self.position);
        let tok = if ch == '=' {
            if self.peek_char() == '=' {
                self.read_char();
                Token::Eq
            } else {
                Token::Assign
            }
        } else if ch == '!' {
            if self.peek_char() == '=' {
                self.read_char();
                Token::NotEq
            } else {
                Token::Bang
            }
        } else if ch == '+' {
            Token::Plus
        } else if ch == '-' {
            Token::Minus
        } else if ch == '*' {
            Token::Asterisk
        } else if ch == '/' {
            Token::Slash
        } else if ch == '<' {
            Token::Lt
        } else if ch == '>' {
            Token::Gt
        } else if ch == ',' {
            Token::Comma
        } else if ch == ';' {
            Token::Semicolon
        } else if ch == '(' {
            Token::Lparen
        } else if ch == ')' {
            Token::Rparen
        } else if ch == '{' {
            Token::Lbrace
        } else if ch == '}' {
            Token::Rbrace
        } else if is_letter(ch) {
            return self.read_identifier();
        } else if is_digit(ch) {
            return self.read_number();
        } else {
            Token::Illegal
        };
        self.read_char();
        tok
    }
}

} // verus!
