//! A lexer for a small expression language: the keywords `def` and `extern`,
//! identifiers, numeric literals, `#` line comments, and single unrecognized
//! characters. Tokens are produced one at a time from a borrowed text buffer.

use vstd::prelude::*;
use vstd::string::StrSliceExecFns;

verus! {

// ---------------------------------------------------------------------------
// Character classes
// ---------------------------------------------------------------------------

/// What `char::is_whitespace` returns: the Unicode `White_Space` property,
/// a function of the character alone.
pub uninterp spec fn whitespace_char(c: char) -> bool;

/// What `char::is_alphabetic` returns: the Unicode `Alphabetic` property,
/// a function of the character alone.
pub uninterp spec fn alphabetic_char(c: char) -> bool;

/// What `char::is_alphanumeric` returns: `Alphabetic` or numeric,
/// a function of the character alone.
pub uninterp spec fn alphanumeric_char(c: char) -> bool;

/// An ASCII decimal digit, `'0'` through `'9'`.
pub open spec fn digit_char(c: char) -> bool {
    48 <= c as u32 && c as u32 <= 57
}

/// Relies on `char::is_whitespace`, the Unicode `White_Space` property.
#[verifier::external_body]
fn is_whitespace_char(c: char) -> (r: bool)
    ensures
        r == whitespace_char(c),
{
    c.is_whitespace()
}

/// Relies on `char::is_alphabetic`, the Unicode `Alphabetic` property.
#[verifier::external_body]
fn is_alphabetic_char(c: char) -> (r: bool)
    ensures
        r == alphabetic_char(c),
{
    c.is_alphabetic()
}

/// Relies on `char::is_alphanumeric`, the Unicode `Alphabetic` property or
/// one of the numeric properties.
#[verifier::external_body]
fn is_alphanumeric_char(c: char) -> (r: bool)
    ensures
        r == alphanumeric_char(c),
{
    c.is_alphanumeric()
}

fn is_digit_char(c: char) -> (r: bool)
    ensures
        r == digit_char(c),
{
    let u = c as u32;
    48 <= u && u <= 57
}

/// A character that extends a numeric literal: an ASCII digit or `.`.
fn is_number_char(c: char) -> (r: bool)
    ensures
        r == (digit_char(c) || c == '.'),
{
    is_digit_char(c) || c == '.'
}

/// A character that ends a `#` line comment.
fn is_newline_char(c: char) -> (r: bool)
    ensures
        r == (c == '\n' || c == '\r'),
{
    c == '\n' || c == '\r'
}

// ---------------------------------------------------------------------------
// Tokens
// ---------------------------------------------------------------------------

/// The mathematical form of a token: identifier and number payloads are
/// character sequences (a numeric literal keeps its text; turning it into a
/// float is the caller's concern).
#[allow(non_camel_case_types)]
pub enum SpecToken {
    EOF,
    DEF,
    EXTERN,
    IDENTIFIER(Seq<char>),
    NUMBER(Seq<char>),
    UNREGICNIZE(char),
}

/// The smallest classified unit of source text. Exactly one variant is
/// produced per call to [`Lexer::gettok`]:
/// - `EOF`: the input is exhausted (a repeatable terminal state);
/// - `DEF` / `EXTERN`: the two keywords, matched exactly;
/// - `IDENTIFIER`: an alphanumeric run starting with an alphabetic character,
///   other than the two keywords;
/// - `NUMBER`: a run of ASCII digits and `.`, starting with a digit, kept as
///   its text (a malformed run such as `1.2.3` is kept too, and degrades to
///   `0.0` only when a caller converts it to a float);
/// - `UNREGICNIZE`: a single character that fits no other variant.
#[allow(non_camel_case_types)]
#[derive(Debug)]
pub enum Token {
    EOF,
    DEF,
    EXTERN,
    IDENTIFIER(String),
    NUMBER(String),
    UNREGICNIZE(char),
}

impl View for Token {
    type V = SpecToken;

    open spec fn view(&self) -> SpecToken {
        match self {
            Token::EOF => SpecToken::EOF,
            Token::DEF => SpecToken::DEF,
            Token::EXTERN => SpecToken::EXTERN,
            Token::IDENTIFIER(s) => SpecToken::IDENTIFIER(s@),
            Token::NUMBER(s) => SpecToken::NUMBER(s@),
            Token::UNREGICNIZE(c) => SpecToken::UNREGICNIZE(*c),
        }
    }
}

impl PartialEq for Token {
    fn eq(&self, other: &Token) -> (r: bool) {
        match (self, other) {
            (Token::EOF, Token::EOF) => true,
            (Token::DEF, Token::DEF) => true,
            (Token::EXTERN, Token::EXTERN) => true,
            (Token::IDENTIFIER(a), Token::IDENTIFIER(b)) => *a == *b,
            (Token::NUMBER(a), Token::NUMBER(b)) => *a == *b,
            (Token::UNREGICNIZE(a), Token::UNREGICNIZE(b)) => *a == *b,
            _ => false,
        }
    }
}

impl vstd::std_specs::cmp::PartialEqSpecImpl for Token {
    open spec fn obeys_eq_spec() -> bool {
        true
    }

    open spec fn eq_spec(&self, other: &Token) -> bool {
        self@ == other@
    }
}

// ---------------------------------------------------------------------------
// The token grammar, as spec functions over the input text
// ---------------------------------------------------------------------------

/// The keyword that [`SpecToken::DEF`] stands for.
pub open spec fn keyword_def() -> Seq<char> {
    "def"@
}

/// The keyword that [`SpecToken::EXTERN`] stands for.
pub open spec fn keyword_extern() -> Seq<char> {
    "extern"@
}

/// The token an alphanumeric word yields: one of the two keywords when it
/// matches exactly, an identifier otherwise.
pub open spec fn word_token(w: Seq<char>) -> SpecToken {
    if w == keyword_def() {
        SpecToken::DEF
    } else if w == keyword_extern() {
        SpecToken::EXTERN
    } else {
        SpecToken::IDENTIFIER(w)
    }
}

/// Where an identifier or keyword that continues at `i` ends: the first
/// position at or after `i` whose character is not alphanumeric, or the end
/// of the text.
pub open spec fn ident_end(s: Seq<char>, i: int) -> int
    recommends
        0 <= i <= s.len(),
    decreases s.len() - i,
{
    if i < 0 || i >= s.len() {
        s.len() as int
    } else if alphanumeric_char(s[i]) {
        ident_end(s, i + 1)
    } else {
        i
    }
}

/// Where a numeric literal that continues at `i` ends: the first position at
/// or after `i` whose character is neither an ASCII digit nor `.`, or the end
/// of the text.
pub open spec fn number_end(s: Seq<char>, i: int) -> int
    recommends
        0 <= i <= s.len(),
    decreases s.len() - i,
{
    if i < 0 || i >= s.len() {
        s.len() as int
    } else if digit_char(s[i]) || s[i] == '.' {
        number_end(s, i + 1)
    } else {
        i
    }
}

/// Where a line comment that continues at `i` ends: the first position at or
/// after `i` holding `'\n'` or `'\r'` (the newline itself is not part of the
/// comment), or the end of the text.
pub open spec fn comment_end(s: Seq<char>, i: int) -> int
    recommends
        0 <= i <= s.len(),
    decreases s.len() - i,
{
    if i < 0 || i >= s.len() {
        s.len() as int
    } else if s[i] == '\n' || s[i] == '\r' {
        i
    } else {
        comment_end(s, i + 1)
    }
}

pub proof fn lemma_ident_end_bounds(s: Seq<char>, i: int)
    requires
        0 <= i <= s.len(),
    ensures
        i <= ident_end(s, i) <= s.len(),
    decreases s.len() - i,
{
    if i < s.len() && alphanumeric_char(s[i]) {
        lemma_ident_end_bounds(s, i + 1);
    }
}

pub proof fn lemma_number_end_bounds(s: Seq<char>, i: int)
    requires
        0 <= i <= s.len(),
    ensures
        i <= number_end(s, i) <= s.len(),
    decreases s.len() - i,
{
    if i < s.len() && (digit_char(s[i]) || s[i] == '.') {
        lemma_number_end_bounds(s, i + 1);
    }
}

pub proof fn lemma_comment_end_bounds(s: Seq<char>, i: int)
    requires
        0 <= i <= s.len(),
    ensures
        i <= comment_end(s, i) <= s.len(),
    decreases s.len() - i,
{
    if i < s.len() && !(s[i] == '\n' || s[i] == '\r') {
        lemma_comment_end_bounds(s, i + 1);
    }
}

/// The token found at position `i` of the text `s`, and the position of the
/// cursor once it is consumed. This is the whole grammar in one definition:
/// whitespace is skipped, an alphabetic character opens a keyword or
/// identifier, an ASCII digit opens a numeric literal, `#` discards the rest
/// of the line and starts over, and any other character is an `UNREGICNIZE`
/// token of its own. The cursor lands on the character that ended a run (the
/// one character of lookahead), so the next call starts exactly there.
pub open spec fn next_token_from(s: Seq<char>, i: int) -> (SpecToken, int)
    recommends
        0 <= i <= s.len(),
    decreases s.len() - i,
{
    if i < 0 || i >= s.len() {
        (SpecToken::EOF, s.len() as int)
    } else if whitespace_char(s[i]) {
        next_token_from(s, i + 1)
    } else if alphabetic_char(s[i]) {
        let j = ident_end(s, i + 1);
        (word_token(s.subrange(i, j)), j)
    } else if digit_char(s[i]) {
        let j = number_end(s, i + 1);
        (SpecToken::NUMBER(s.subrange(i, j)), j)
    } else if s[i] == '#' {
        let j = comment_end(s, i + 1);
        proof {
            lemma_comment_end_bounds(s, i + 1);
        }
        next_token_from(s, j)
    } else {
        (SpecToken::UNREGICNIZE(s[i]), i + 1)
    }
}

/// The cursor never moves backwards, and never past the end of the text.
pub proof fn lemma_next_token_pos(s: Seq<char>, i: int)
    requires
        0 <= i <= s.len(),
    ensures
        i <= next_token_from(s, i).1 <= s.len(),
    decreases s.len() - i,
{
    if i < s.len() {
        if whitespace_char(s[i]) {
            lemma_next_token_pos(s, i + 1);
        } else if alphabetic_char(s[i]) {
            lemma_ident_end_bounds(s, i + 1);
        } else if digit_char(s[i]) {
            lemma_number_end_bounds(s, i + 1);
        } else if s[i] == '#' {
            lemma_comment_end_bounds(s, i + 1);
            lemma_next_token_pos(s, comment_end(s, i + 1));
        }
    }
}

/// Termination is idempotent: wherever the scan reports `EOF`, the cursor has
/// reached the end of the text, and scanning again from there reports `EOF`
/// again, with the cursor unmoved — so a caller that saw `EOF` sees `EOF` on
/// every later call.
pub proof fn lemma_end_of_input_idempotent(s: Seq<char>, i: int)
    requires
        0 <= i <= s.len(),
        next_token_from(s, i).0 == SpecToken::EOF,
    ensures
        next_token_from(s, i).1 == s.len(),
        next_token_from(s, next_token_from(s, i).1) == next_token_from(s, i),
    decreases s.len() - i,
{
    if i < s.len() {
        if whitespace_char(s[i]) {
            lemma_end_of_input_idempotent(s, i + 1);
        } else if s[i] == '#' {
            lemma_comment_end_bounds(s, i + 1);
            lemma_end_of_input_idempotent(s, comment_end(s, i + 1));
        }
    }
}

/// Whitespace between tokens is transparent: a whitespace character under the
/// cursor is skipped outright, and neither the token found nor the cursor's
/// landing place differs from scanning just past it. Applied at each token
/// boundary, any run of spaces, tabs or newlines affects no token's value.
pub proof fn lemma_whitespace_transparent(s: Seq<char>, i: int)
    requires
        0 <= i < s.len(),
        whitespace_char(s[i]),
    ensures
        next_token_from(s, i) == next_token_from(s, i + 1),
{
}

// ---------------------------------------------------------------------------
// The lexer
// ---------------------------------------------------------------------------

/// A cursor over a borrowed text buffer. The buffer is never copied and never
/// mutated; the cursor only moves forward. Repeated calls to [`Lexer::gettok`]
/// yield the tokens of the text in order, then `EOF` forever.
pub struct Lexer<'a> {
    input: &'a str,
    pos: usize,
    len: usize,
}

impl<'a> Lexer<'a> {
    /// The cursor is inside the text and the cached character count is right.
    pub closed spec fn wf(&self) -> bool {
        &&& self.len == self.input@.len()
        &&& self.pos <= self.len
    }

    /// The text being tokenized, as a character sequence.
    pub closed spec fn text(&self) -> Seq<char> {
        self.input@
    }

    /// The position of the next character the lexer will look at.
    pub closed spec fn cursor(&self) -> int {
        self.pos as int
    }

    pub fn new(data: &'a str) -> (l: Lexer<'a>)
        ensures
            l.wf(),
            l.text() == data@,
            l.cursor() == 0,
    {
        let len: usize = data.unicode_len();
        Lexer { input: data, pos: 0, len }
    }

    /// Yields the character under the cursor and moves past it, or `None`
    /// once the text is exhausted.
    pub fn getchar(&mut self) -> (c: Option<char>)
        requires
            old(self).wf(),
        ensures
            final(self).wf(),
            final(self).text() == old(self).text(),
            old(self).cursor() < old(self).text().len() ==> c == Some(
                old(self).text()[old(self).cursor()],
            ) && final(self).cursor() == old(self).cursor() + 1,
            old(self).cursor() >= old(self).text().len() ==> c is None && final(self).cursor()
                == old(self).cursor(),
    {
        if self.pos < self.len {
            let ch = self.input.get_char(self.pos);
            self.pos = self.pos + 1;
            Some(ch)
        } else {
            None
        }
    }

    /// Skips whitespace and comments, then yields the next token of the text
    /// and leaves the cursor where [`next_token_from`] says: on the character
    /// that ended the token's run, or past a consumed token, or at the end of
    /// the text. Never fails and never panics; once the text is exhausted it
    /// yields `EOF` on every call.
    #[verifier::loop_isolation(false)]
    pub fn gettok(&mut self) -> (t: Token)
        requires
            old(self).wf(),
        ensures
            final(self).wf(),
            final(self).text() == old(self).text(),
            t@ == next_token_from(old(self).text(), old(self).cursor()).0,
            final(self).cursor() == next_token_from(old(self).text(), old(self).cursor()).1,
            old(self).cursor() <= final(self).cursor(),
    {
        let ghost s = old(self).text();
        let ghost i0 = old(self).cursor();
        proof {
            lemma_next_token_pos(s, i0);
        }
        loop
            invariant
                self.wf(),
                self.input@ == s,
                i0 <= self.pos as int,
                next_token_from(s, self.pos as int) == next_token_from(s, i0),
            decreases self.len - self.pos,
        {
            if self.pos == self.len {
                return Token::EOF;
            }
            let c = self.input.get_char(self.pos);
            if is_whitespace_char(c) {
                self.pos = self.pos + 1;
            } else if is_alphabetic_char(c) {
                let start: usize = self.pos;
                self.pos = self.pos + 1;
                while self.pos < self.len && is_alphanumeric_char(self.input.get_char(self.pos))
                    invariant
                        self.wf(),
                        self.input@ == s,
                        start + 1 <= self.pos <= self.len,
                        ident_end(s, start as int + 1) == ident_end(s, self.pos as int),
                    decreases self.len - self.pos,
                {
                    self.pos = self.pos + 1;
                }
                proof {
                    assert(self.pos as int == ident_end(s, start as int + 1));
                }
                let word = self.input.substring_char(start, self.pos);
                let wstr: String = word.to_owned();
                let def_kw: String = "def".to_owned();
                let extern_kw: String = "extern".to_owned();
                if wstr == def_kw {
                    return Token::DEF;
                } else if wstr == extern_kw {
                    return Token::EXTERN;
                } else {
                    return Token::IDENTIFIER(wstr);
                }
            } else if is_digit_char(c) {
                let start: usize = self.pos;
                self.pos = self.pos + 1;
                while self.pos < self.len && is_number_char(self.input.get_char(self.pos))
                    invariant
                        self.wf(),
                        self.input@ == s,
                        start + 1 <= self.pos <= self.len,
                        number_end(s, start as int + 1) == number_end(s, self.pos as int),
                    decreases self.len - self.pos,
                {
                    self.pos = self.pos + 1;
                }
                proof {
                    assert(self.pos as int == number_end(s, start as int + 1));
                }
                let text = self.input.substring_char(start, self.pos);
                return Token::NUMBER(text.to_owned());
            } else if c == '#' {
                self.pos = self.pos + 1;
                let ghost c0 = self.pos as int;
                while self.pos < self.len && !is_newline_char(self.input.get_char(self.pos))
                    invariant
                        self.wf(),
                        self.input@ == s,
                        c0 <= self.pos as int <= self.len,
                        comment_end(s, c0) == comment_end(s, self.pos as int),
                    decreases self.len - self.pos,
                {
                    self.pos = self.pos + 1;
                }
                proof {
                    assert(self.pos as int == comment_end(s, c0));
                }
            } else {
                self.pos = self.pos + 1;
                return Token::UNREGICNIZE(c);
            }
        }
    }
}

} // verus!
