//! The lexer: turns one file's text into a stream of located tokens or
//! lexical errors.
//!
//! The token boundaries are described by a small positional model over the
//! text as a sequence of characters: `whitespace_end` gives the start of the
//! next token, `step_end` its end, `line_at` the 1-based line of a position.
//! Every method's contract is stated over that model, and
//! `lemma_lexer_covers_source` proves that the scanned spans reproduce the
//! text with its whitespace removed.

use vstd::prelude::*;
use vstd::string::StrSliceExecFns;

use crate::file::{FileId, Location, Span};

verus! {

/// One lexical token: where it came from and what it is.
#[derive(Debug)]
pub struct Token {
    pub location: Location,
    pub kind: TokenKind,
}

/// The alternatives a token can be. `Name` is any identifier that is not one
/// of the two keywords; the keyword check is an exact match made at lex time.
#[derive(Debug)]
pub enum TokenKind {
    Name(String),
    LetKeyword,
    MatchKeyword,
    Semicolon,
    Colon,
    Comma,
    OpenBracket,
    CloseBracket,
    OpenParenthesis,
    CloseParenthesis,
    Pipe,
}

/// A lexical error: where it happened and what it is.
#[derive(Debug)]
pub struct LexerError {
    pub location: Location,
    pub kind: LexerErrorKind,
}

/// The only lexical failure: a character outside the identifier,
/// punctuation and whitespace sets, located exactly at that character.
#[derive(Debug, PartialEq, Eq, Structural)]
pub enum LexerErrorKind {
    UnexpectedChar(char),
}

/// The Unicode whitespace characters (the `White_Space` property).
pub open spec fn is_whitespace_char(c: char) -> bool {
    let u = c as u32;
    ||| (0x9 <= u && u <= 0xd)
    ||| u == 0x20
    ||| u == 0x85
    ||| u == 0xa0
    ||| u == 0x1680
    ||| (0x2000 <= u && u <= 0x200a)
    ||| u == 0x2028
    ||| u == 0x2029
    ||| u == 0x202f
    ||| u == 0x205f
    ||| u == 0x3000
}

/// An identifier run starts at an ASCII letter or an underscore.
pub open spec fn is_name_start_char(c: char) -> bool {
    let u = c as u32;
    ||| (0x61 <= u && u <= 0x7a)
    ||| (0x41 <= u && u <= 0x5a)
    ||| u == 0x5f
}

/// An identifier run continues over ASCII letters, digits and underscores.
pub open spec fn is_name_continue_char(c: char) -> bool {
    ||| is_name_start_char(c)
    ||| (0x30 <= (c as u32) && (c as u32) <= 0x39)
}

/// The single-character punctuation tokens.
pub open spec fn is_punctuation_char(c: char) -> bool {
    c == ';' || c == ':' || c == ',' || c == '{' || c == '}' || c == '(' || c == ')' || c == '|'
}

/// The token kind of a punctuation character.
pub open spec fn punctuation_kind(c: char) -> TokenKind {
    if c == ';' {
        TokenKind::Semicolon
    } else if c == ':' {
        TokenKind::Colon
    } else if c == ',' {
        TokenKind::Comma
    } else if c == '{' {
        TokenKind::OpenBracket
    } else if c == '}' {
        TokenKind::CloseBracket
    } else if c == '(' {
        TokenKind::OpenParenthesis
    } else if c == ')' {
        TokenKind::CloseParenthesis
    } else {
        TokenKind::Pipe
    }
}

fn whitespace_char(c: char) -> (r: bool)
    ensures
        r == is_whitespace_char(c),
{
    let u = c as u32;
    (0x9 <= u && u <= 0xd) || u == 0x20 || u == 0x85 || u == 0xa0 || u == 0x1680 || (0x2000 <= u
        && u <= 0x200a) || u == 0x2028 || u == 0x2029 || u == 0x202f || u == 0x205f || u == 0x3000
}

fn name_start_char(c: char) -> (r: bool)
    ensures
        r == is_name_start_char(c),
{
    let u = c as u32;
    (0x61 <= u && u <= 0x7a) || (0x41 <= u && u <= 0x5a) || u == 0x5f
}

fn name_continue_char(c: char) -> (r: bool)
    ensures
        r == is_name_continue_char(c),
{
    let u = c as u32;
    (0x61 <= u && u <= 0x7a) || (0x41 <= u && u <= 0x5a) || u == 0x5f || (0x30 <= u && u <= 0x39)
}

fn punctuation_token_kind(c: char) -> (r: Option<TokenKind>)
    ensures
        r matches Some(k) ==> is_punctuation_char(c) && k == punctuation_kind(c),
        r is None ==> !is_punctuation_char(c),
{
    match c {
        ';' => Some(TokenKind::Semicolon),
        ':' => Some(TokenKind::Colon),
        ',' => Some(TokenKind::Comma),
        '{' => Some(TokenKind::OpenBracket),
        '}' => Some(TokenKind::CloseBracket),
        '(' => Some(TokenKind::OpenParenthesis),
        ')' => Some(TokenKind::CloseParenthesis),
        '|' => Some(TokenKind::Pipe),
        _ => None,
    }
}

/// The first position at or after `i` that does not hold whitespace.
pub open spec fn whitespace_end(s: Seq<char>, i: int) -> int
    decreases s.len() - i
        when 0 <= i <= s.len()
{
    if i == s.len() {
        i
    } else if is_whitespace_char(s[i]) {
        whitespace_end(s, i + 1)
    } else {
        i
    }
}

/// The first position at or after `i` that does not continue an identifier.
pub open spec fn name_end(s: Seq<char>, i: int) -> int
    decreases s.len() - i
        when 0 <= i <= s.len()
{
    if i == s.len() {
        i
    } else if is_name_continue_char(s[i]) {
        name_end(s, i + 1)
    } else {
        i
    }
}

/// The 1-based line number of position `i`: one more than the number of
/// newlines before it.
pub open spec fn line_at(s: Seq<char>, i: int) -> int
    decreases i
        when 0 <= i
{
    if i == 0 {
        1
    } else {
        line_at(s, i - 1) + (if s[i - 1] == '\n' {
            1int
        } else {
            0int
        })
    }
}

/// Where the token starting at the non-whitespace position `a` ends: an
/// identifier run, or a single character.
pub open spec fn step_end(s: Seq<char>, a: int) -> int {
    if is_name_start_char(s[a]) {
        name_end(s, a + 1)
    } else {
        a + 1
    }
}

/// The cursor position after one call of `next` from position `i`.
pub open spec fn next_pos(s: Seq<char>, i: int) -> int {
    let a = whitespace_end(s, i);
    if a == s.len() {
        a
    } else {
        step_end(s, a)
    }
}

pub proof fn lemma_whitespace_end(s: Seq<char>, i: int)
    requires
        0 <= i <= s.len(),
    ensures
        i <= whitespace_end(s, i) <= s.len(),
        forall|j: int| i <= j < whitespace_end(s, i) ==> is_whitespace_char(#[trigger] s[j]),
        whitespace_end(s, i) < s.len() ==> !is_whitespace_char(s[whitespace_end(s, i)]),
    decreases s.len() - i,
{
    if i < s.len() && is_whitespace_char(s[i]) {
        lemma_whitespace_end(s, i + 1);
    }
}

pub proof fn lemma_name_end(s: Seq<char>, i: int)
    requires
        0 <= i <= s.len(),
    ensures
        i <= name_end(s, i) <= s.len(),
        forall|j: int| i <= j < name_end(s, i) ==> is_name_continue_char(#[trigger] s[j]),
        name_end(s, i) < s.len() ==> !is_name_continue_char(s[name_end(s, i)]),
    decreases s.len() - i,
{
    if i < s.len() && is_name_continue_char(s[i]) {
        lemma_name_end(s, i + 1);
    }
}

/// Line numbers grow with the position, by at most one per character.
pub proof fn lemma_line_at_monotonic(s: Seq<char>, i: int, j: int)
    requires
        0 <= i <= j <= s.len(),
    ensures
        line_at(s, i) <= line_at(s, j) <= line_at(s, i) + (j - i),
    decreases j - i,
{
    if i < j {
        lemma_line_at_monotonic(s, i, j - 1);
    }
}

/// Line numbers start at one and never exceed the position plus one.
pub proof fn lemma_line_at_bounds(s: Seq<char>, i: int)
    requires
        0 <= i <= s.len(),
    ensures
        1 <= line_at(s, i) <= i + 1,
{
    lemma_line_at_monotonic(s, 0, i);
}

/// A stretch without newlines stays on one line.
pub proof fn lemma_line_at_no_newline(s: Seq<char>, i: int, j: int)
    requires
        0 <= i <= j <= s.len(),
        forall|k: int| i <= k < j ==> #[trigger] s[k] != '\n',
    ensures
        line_at(s, j) == line_at(s, i),
    decreases j - i,
{
    if i < j {
        lemma_line_at_no_newline(s, i, j - 1);
    }
}

/// The word that lexes as the `let` keyword.
pub open spec fn let_word() -> Seq<char> {
    seq!['l', 'e', 't']
}

/// The word that lexes as the `match` keyword.
pub open spec fn match_word() -> Seq<char> {
    seq!['m', 'a', 't', 'c', 'h']
}

/// The kind an identifier run lexes to: a keyword on an exact match, a
/// `Name` holding the word otherwise.
pub open spec fn word_kind_matches(w: Seq<char>, k: TokenKind) -> bool {
    if w == let_word() {
        k == TokenKind::LetKeyword
    } else if w == match_word() {
        k == TokenKind::MatchKeyword
    } else {
        k matches TokenKind::Name(n) && n@ == w
    }
}

/// `loc` names positions `[a, b)` of file `file`, on the line of `a`.
pub open spec fn located_at(loc: Location, file: FileId, s: Seq<char>, a: int, b: int) -> bool {
    &&& loc.file == file
    &&& loc.line == line_at(s, a)
    &&& loc.span.start == a
    &&& loc.span.end == b
}

/// What one call of `next` from position `i` returns: end of input after
/// trailing whitespace, a token, or a lexical error at a stray character.
pub open spec fn step_result_matches(
    s: Seq<char>,
    file: FileId,
    i: int,
    r: Option<Result<Token, LexerError>>,
) -> bool {
    let a = whitespace_end(s, i);
    if a == s.len() {
        r is None
    } else {
        let c = s[a];
        let b = step_end(s, a);
        if is_punctuation_char(c) {
            r matches Some(Ok(t)) && located_at(t.location, file, s, a, b) && t.kind
                == punctuation_kind(c)
        } else if is_name_start_char(c) {
            r matches Some(Ok(t)) && located_at(t.location, file, s, a, b) && word_kind_matches(
                s.subrange(a, b),
                t.kind,
            )
        } else {
            r matches Some(Err(e)) && located_at(e.location, file, s, a, b) && e.kind
                == LexerErrorKind::UnexpectedChar(c)
        }
    }
}

/// The lexer: a file identifier, the file's text, and a zero-width cursor
/// location that sits after the most recently consumed character.
#[derive(Debug)]
pub struct Lexer<'a> {
    location: Location,
    source: &'a str,
    length: usize,
}

impl<'a> Lexer<'a> {
    /// The file the lexer was built for.
    pub closed spec fn file(self) -> FileId {
        self.location.file
    }

    /// The text being lexed, as characters.
    pub closed spec fn text(self) -> Seq<char> {
        self.source@
    }

    /// The cursor position, in characters from the start of the text.
    pub closed spec fn pos(self) -> int {
        self.location.span.start as int
    }

    /// The line the cursor is on.
    pub closed spec fn line(self) -> int {
        self.location.line as int
    }

    /// The cursor as a `Location`.
    pub closed spec fn spec_location(self) -> Location {
        self.location
    }

    /// The stored character count of the text.
    pub closed spec fn stored_length(self) -> int {
        self.length as int
    }

    /// The cursor is a zero-width mark inside the text, on the line its
    /// position dictates.
    pub open spec fn wf(self) -> bool {
        &&& self.spec_location().span.start == self.pos()
        &&& self.spec_location().span.end == self.spec_location().span.start
        &&& self.spec_location().file == self.file()
        &&& self.spec_location().line == self.line()
        &&& 0 <= self.pos() <= self.text().len()
        &&& self.line() == line_at(self.text(), self.pos())
        &&& self.stored_length() == self.text().len()
        &&& self.text().len() < usize::MAX
    }

    /// A lexer at the start of `source`, attributing what it produces to
    /// `file`. The character count must leave room for the cursor and the
    /// line counter in a `usize`.
    pub fn new(file: FileId, source: &'a str) -> (r: Lexer<'a>)
        requires
            source@.len() < usize::MAX,
        ensures
            r.wf(),
            r.file() == file,
            r.text() == source@,
            r.pos() == 0,
            r.line() == 1,
    {
        let length = source.unicode_len();
        Lexer { location: Location { file, line: 1, span: Span { start: 0, end: 0 } }, source, length }
    }

    /// The current cursor location: a zero-width span after the most
    /// recently consumed character.
    pub fn get_location(&self) -> (r: &Location)
        ensures
            *r == self.spec_location(),
    {
        &self.location
    }

    /// The next character, without consuming it.
    pub fn peek_char(&mut self) -> (r: Option<char>)
        requires
            old(self).wf(),
        ensures
            *final(self) == *old(self),
            old(self).pos() < old(self).text().len() ==> r == Some(
                old(self).text()[old(self).pos()],
            ),
            old(self).pos() == old(self).text().len() ==> r is None,
    {
        if self.location.span.start < self.length {
            Some(self.source.get_char(self.location.span.start))
        } else {
            None
        }
    }

    /// Consume one character, advancing the cursor past it and the line
    /// counter past a newline.
    pub fn next_char(&mut self) -> (r: Option<char>)
        requires
            old(self).wf(),
        ensures
            final(self).wf(),
            final(self).text() == old(self).text(),
            final(self).file() == old(self).file(),
            old(self).pos() == old(self).text().len() ==> r is None && *final(self) == *old(self),
            old(self).pos() < old(self).text().len() ==> {
                &&& r == Some(old(self).text()[old(self).pos()])
                &&& final(self).pos() == old(self).pos() + 1
            },
    {
        if self.location.span.start < self.length {
            let c = self.source.get_char(self.location.span.start);
            proof {
                lemma_line_at_bounds(self.source@, self.location.span.start as int);
            }
            let next_start = self.location.span.start + 1;
            self.location.span = Span { start: next_start, end: next_start };
            if c == '\n' {
                self.location.line = self.location.line + 1;
            }
            Some(c)
        } else {
            None
        }
    }

    /// Produce the next token or lexical error, or `None` once the input is
    /// exhausted; whitespace before it is skipped. The result and the new
    /// cursor position follow the positional model exactly.
    pub fn next(&mut self) -> (r: Option<Result<Token, LexerError>>)
        requires
            old(self).wf(),
        ensures
            final(self).wf(),
            final(self).text() == old(self).text(),
            final(self).file() == old(self).file(),
            final(self).pos() == next_pos(old(self).text(), old(self).pos()),
            old(self).pos() <= final(self).pos(),
            step_result_matches(old(self).text(), old(self).file(), old(self).pos(), r),
    {
        let (r, end_location) = scan(self.source, self.length, self.location);
        self.location = end_location;
        r
    }

    /// What `next` would produce, without consuming it: the scan runs on a
    /// copy of the cursor, so the lexer is left untouched.
    pub fn peek(&self) -> (r: Option<Result<Token, LexerError>>)
        requires
            self.wf(),
        ensures
            step_result_matches(self.text(), self.file(), self.pos(), r),
    {
        let (r, _end_location) = scan(self.source, self.length, self.location);
        r
    }
}

/// Advance from `start` past whitespace, tracking the line.
fn skip_trivia(source: &str, length: usize, start: usize, start_line: usize) -> (r: (usize, usize))
    requires
        start <= source@.len(),
        length == source@.len(),
        source@.len() < usize::MAX,
        start_line == line_at(source@, start as int),
    ensures
        r.0 == whitespace_end(source@, start as int),
        r.1 == line_at(source@, r.0 as int),
        start <= r.0 <= length,
{
    let ghost s = source@;
    let mut pos = start;
    let mut line = start_line;
    loop
        invariant
            s == source@,
            length == s.len(),
            s.len() < usize::MAX,
            start <= pos <= length,
            line == line_at(s, pos as int),
            whitespace_end(s, start as int) == whitespace_end(s, pos as int),
        ensures
            pos == whitespace_end(s, start as int),
            line == line_at(s, pos as int),
            start <= pos <= length,
        decreases s.len() - pos,
    {
        if pos == length {
            break;
        }
        let c = source.get_char(pos);
        if !whitespace_char(c) {
            break;
        }
        proof {
            lemma_line_at_bounds(s, pos as int);
        }
        if c == '\n' {
            line = line + 1;
        }
        pos = pos + 1;
    }
    (pos, line)
}

/// Advance from `start` while identifier characters continue.
fn scan_name_end(source: &str, length: usize, start: usize) -> (r: usize)
    requires
        start <= source@.len(),
        length == source@.len(),
    ensures
        r == name_end(source@, start as int),
        start <= r <= length,
{
    let ghost s = source@;
    let mut pos = start;
    loop
        invariant
            s == source@,
            length == s.len(),
            start <= pos <= length,
            name_end(s, start as int) == name_end(s, pos as int),
        ensures
            pos == name_end(s, start as int),
            start <= pos <= length,
        decreases s.len() - pos,
    {
        if pos == length {
            break;
        }
        let c = source.get_char(pos);
        if !name_continue_char(c) {
            break;
        }
        pos = pos + 1;
    }
    pos
}

/// One scanning step from `location`: skip whitespace, then classify and
/// consume one token, error character, or the end of input. Returns the
/// result together with the cursor location after it. Both `next` and `peek`
/// run this; `peek` discards the new cursor.
fn scan(source: &str, length: usize, location: Location) -> (r: (
    Option<Result<Token, LexerError>>,
    Location,
))
    requires
        location.span.end == location.span.start,
        location.span.start <= source@.len(),
        location.line == line_at(source@, location.span.start as int),
        length == source@.len(),
        source@.len() < usize::MAX,
    ensures
        step_result_matches(source@, location.file, location.span.start as int, r.0),
        r.1.file == location.file,
        r.1.span.end == r.1.span.start,
        r.1.span.start == next_pos(source@, location.span.start as int),
        r.1.line == line_at(source@, r.1.span.start as int),
        location.span.start <= r.1.span.start <= source@.len(),
{
    let ghost s = source@;
    let ghost i = location.span.start as int;
    let file = location.file;
    let (a, line_a) = skip_trivia(source, length, location.span.start, location.line);
    proof {
        lemma_whitespace_end(s, i);
    }
    if a == length {
        let end_location = Location { file, line: line_a, span: Span { start: a, end: a } };
        return (None, end_location);
    }
    let c = source.get_char(a);
    match punctuation_token_kind(c) {
        Some(kind) => {
            let b = a + 1;
            proof {
                assert(s[a as int] != '\n');
                assert(line_at(s, b as int) == line_a);
            }
            let token_location = Location { file, line: line_a, span: Span { start: a, end: b } };
            let end_location = Location { file, line: line_a, span: Span { start: b, end: b } };
            (Some(Ok(Token { location: token_location, kind })), end_location)
        },
        None => {
            if name_start_char(c) {
                let b = scan_name_end(source, length, a + 1);
                proof {
                    lemma_name_end(s, a as int + 1);
                    assert forall|k: int| a <= k < b implies #[trigger] s[k] != '\n' by {
                        if k > a {
                            assert(is_name_continue_char(s[k]));
                        }
                    }
                    lemma_line_at_no_newline(s, a as int, b as int);
                }
                let word = source.substring_char(a, b);
                let ghost sub = s.subrange(a as int, b as int);
                let kind: TokenKind = if b - a == 3 && source.get_char(a) == 'l' && source.get_char(
                    a + 1,
                ) == 'e' && source.get_char(a + 2) == 't' {
                    proof {
                        assert(sub =~= let_word());
                    }
                    TokenKind::LetKeyword
                } else if b - a == 5 && source.get_char(a) == 'm' && source.get_char(a + 1) == 'a'
                    && source.get_char(a + 2) == 't' && source.get_char(a + 3) == 'c'
                    && source.get_char(a + 4) == 'h' {
                    proof {
                        assert(sub =~= match_word());
                    }
                    TokenKind::MatchKeyword
                } else {
                    proof {
                        assert(sub != let_word()) by {
                            if sub == let_word() {
                                assert(sub.len() == 3);
                                assert(s[a as int] == sub[0]);
                                assert(s[a as int + 1] == sub[1]);
                                assert(s[a as int + 2] == sub[2]);
                            }
                        }
                        assert(sub != match_word()) by {
                            if sub == match_word() {
                                assert(sub.len() == 5);
                                assert(s[a as int] == sub[0]);
                                assert(s[a as int + 1] == sub[1]);
                                assert(s[a as int + 2] == sub[2]);
                                assert(s[a as int + 3] == sub[3]);
                                assert(s[a as int + 4] == sub[4]);
                            }
                        }
                    }
                    TokenKind::Name(word.to_owned())
                };
                let token_location = Location { file, line: line_a, span: Span { start: a, end: b } };
                let end_location = Location { file, line: line_a, span: Span { start: b, end: b } };
                (Some(Ok(Token { location: token_location, kind })), end_location)
            } else {
                let b = a + 1;
                proof {
                    assert(s[a as int] != '\n');
                    assert(line_at(s, b as int) == line_a);
                }
                let token_location = Location { file, line: line_a, span: Span { start: a, end: b } };
                let end_location = Location { file, line: line_a, span: Span { start: b, end: b } };
                (
                    Some(
                        Err(LexerError { location: token_location, kind: LexerErrorKind::UnexpectedChar(c) }),
                    ),
                    end_location,
                )
            }
        },
    }
}

/// The spans of every token or error character scanned from position `i` to
/// the end of the text, in order.
pub open spec fn token_spans(s: Seq<char>, i: int) -> Seq<(int, int)>
    decreases s.len() - i
        when 0 <= i <= s.len()
{
    let a = whitespace_end(s, i);
    if a >= s.len() {
        Seq::empty()
    } else {
        proof {
            lemma_whitespace_end(s, i);
            if is_name_start_char(s[a]) {
                lemma_name_end(s, a + 1);
            }
        }
        seq![(a, step_end(s, a))] + token_spans(s, step_end(s, a))
    }
}

/// The characters under `spans`, concatenated in order.
pub open spec fn concat_spans(s: Seq<char>, spans: Seq<(int, int)>) -> Seq<char>
    decreases spans.len(),
{
    if spans.len() == 0 {
        Seq::empty()
    } else {
        s.subrange(spans[0].0, spans[0].1) + concat_spans(s, spans.drop_first())
    }
}

/// The text with its whitespace characters removed.
pub open spec fn without_whitespace(s: Seq<char>) -> Seq<char> {
    s.filter(|c: char| !is_whitespace_char(c))
}

proof fn lemma_filter_all_removed(s: Seq<char>)
    requires
        forall|j: int| 0 <= j < s.len() ==> is_whitespace_char(#[trigger] s[j]),
    ensures
        without_whitespace(s) == Seq::<char>::empty(),
    decreases s.len(),
{
    reveal(Seq::filter);
    if s.len() > 0 {
        lemma_filter_all_removed(s.drop_last());
    }
}

proof fn lemma_filter_none_removed(s: Seq<char>)
    requires
        forall|j: int| 0 <= j < s.len() ==> !is_whitespace_char(#[trigger] s[j]),
    ensures
        without_whitespace(s) == s,
    decreases s.len(),
{
    reveal(Seq::filter);
    if s.len() > 0 {
        lemma_filter_none_removed(s.drop_last());
        assert(without_whitespace(s) =~= s);
    }
}

proof fn lemma_token_spans_cover(s: Seq<char>, i: int)
    requires
        0 <= i <= s.len(),
    ensures
        concat_spans(s, token_spans(s, i)) == without_whitespace(
            s.subrange(i, s.len() as int),
        ),
    decreases s.len() - i,
{
    broadcast use Seq::filter_distributes_over_add;

    lemma_whitespace_end(s, i);
    let a = whitespace_end(s, i);
    let tail = s.subrange(i, s.len() as int);
    if a == s.len() {
        assert(forall|j: int| 0 <= j < tail.len() ==> is_whitespace_char(#[trigger] tail[j]));
        lemma_filter_all_removed(tail);
    } else {
        if is_name_start_char(s[a]) {
            lemma_name_end(s, a + 1);
        }
        let b = step_end(s, a);
        lemma_token_spans_cover(s, b);
        let ws = s.subrange(i, a);
        let tok = s.subrange(a, b);
        let rest = s.subrange(b, s.len() as int);
        assert(tail =~= ws + (tok + rest));
        assert(forall|j: int| 0 <= j < ws.len() ==> is_whitespace_char(#[trigger] ws[j]));
        lemma_filter_all_removed(ws);
        assert forall|j: int| 0 <= j < tok.len() implies !is_whitespace_char(#[trigger] tok[j]) by {
            if j > 0 {
                assert(is_name_continue_char(s[a + j]));
            }
        }
        lemma_filter_none_removed(tok);
        assert(rest =~= s.subrange(b, s.len() as int));
        let spans = token_spans(s, i);
        assert(spans == seq![(a, b)] + token_spans(s, b));
        assert(spans.drop_first() =~= token_spans(s, b));
        assert(spans[0].0 == a && spans[0].1 == b);
        assert(concat_spans(s, spans) == tok + concat_spans(s, token_spans(s, b)));
        assert(without_whitespace(tail) == without_whitespace(ws) + (without_whitespace(tok)
            + without_whitespace(rest)));
        assert(concat_spans(s, spans) =~= without_whitespace(tail));
    }
}

/// From position `i`, the first scanned span is exactly the token or error
/// that `next` produces there, and the remaining spans start at the cursor
/// position `next` leaves behind.
pub proof fn lemma_token_spans_step(s: Seq<char>, i: int)
    requires
        0 <= i <= s.len(),
    ensures
        whitespace_end(s, i) == s.len() ==> token_spans(s, i) == Seq::<(int, int)>::empty(),
        whitespace_end(s, i) < s.len() ==> token_spans(s, i) == seq![
            (whitespace_end(s, i), step_end(s, whitespace_end(s, i))),
        ] + token_spans(s, next_pos(s, i)),
{
    lemma_whitespace_end(s, i);
    let a = whitespace_end(s, i);
    if a < s.len() {
        if is_name_start_char(s[a]) {
            lemma_name_end(s, a + 1);
        }
        assert(next_pos(s, i) == step_end(s, a));
        assert(token_spans(s, i) == seq![(a, step_end(s, a))] + token_spans(s, step_end(s, a)));
    }
}

/// Concatenating the characters under every span the lexer scans, in order,
/// yields the source text with its whitespace removed: tokens and stray
/// characters carry the text exactly, and only whitespace is dropped.
pub proof fn lemma_lexer_covers_source(s: Seq<char>)
    ensures
        concat_spans(s, token_spans(s, 0)) == without_whitespace(s),
{
    lemma_token_spans_cover(s, 0);
    assert(s.subrange(0, s.len() as int) =~= s);
}

} // verus!
