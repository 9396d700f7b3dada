//! The parser: a pull-based recursive-descent parser with one token of
//! lookahead, building AST nodes bottom-up into an `AstArena`.
//!
//! Binary operators are parsed by precedence climbing: equal-precedence
//! operators do not nest to the right (the climb recurses only on a strict
//! precedence increase), which makes same-precedence chains associate to the
//! left. Every parse function either returns a constructed node's identifier
//! together with its location, or a `ParserError`; the first failure aborts
//! the parse, with no recovery.
//!
//! The contracts tie every produced node to the lexer's positional model:
//! its location lies within the consumed region of the text, on the line of
//! its first character, and the arena stays well formed — every node's
//! location covers the locations of the children it references, and a
//! `BinaryOperator` node's location is exactly the join of its operands'
//! (see `nodes_well_formed`). On top of that frame, a family of input-shape
//! predicates pins exact results: each grammar production has clauses that
//! force the precise node, location and final cursor position for inputs of
//! that shape — names, parenthesized names, pipe pairs and three-name
//! chains (folded strictly leftward), `let` with and without initializer
//! and annotation — and the rejected first tokens, stray characters and
//! exhausted input are each promised their exact error.

use vstd::prelude::*;

use crate::ast::{
    lemma_insert_preserves_well_formed, Ast, AstArena, AstId, AstKind, AstPattern, AstPatternKind,
    BinaryOperator, BinaryOperatorKind,
};
use crate::file::Location;
use crate::lexer::{
    is_name_start_char, is_punctuation_char, lemma_line_at_monotonic, lemma_name_end,
    lemma_whitespace_end, let_word, line_at, located_at, match_word, next_pos, punctuation_kind,
    step_end, whitespace_end, word_kind_matches, Lexer, LexerError, LexerErrorKind, Token,
    TokenKind,
};

verus! {

broadcast use {vstd::set::group_set_axioms, vstd::map_lib::lemma_submap_of_trans};

/// A parse failure: where it happened and what it is.
#[derive(Debug)]
pub struct ParserError {
    pub location: Location,
    pub kind: ParserErrorKind,
}

/// The parse-level failures: a lexical error surfaced while a token was
/// requested, a required token missing because input ended, or a present
/// token of the wrong kind.
#[derive(Debug)]
pub enum ParserErrorKind {
    LexerError(LexerError),
    UnexpectedEOF,
    UnexpectedToken(Token),
}

impl From<LexerError> for ParserError {
    /// Wrap a lexical error, keeping its location.
    fn from(error: LexerError) -> (r: Self) {
        ParserError { location: error.location, kind: ParserErrorKind::LexerError(error) }
    }
}

impl vstd::std_specs::convert::FromSpecImpl<LexerError> for ParserError {
    open spec fn obeys_from_spec() -> bool {
        true
    }

    open spec fn from_spec(error: LexerError) -> ParserError {
        ParserError { location: error.location, kind: ParserErrorKind::LexerError(error) }
    }
}

/// The arena has room for one node per unconsumed character of the text;
/// since every insertion consumes at least one character, no parse can run
/// the backing slot map into its capacity panic.
pub open spec fn arena_has_room(arena: AstArena, lx: Lexer<'_>) -> bool {
    arena.contents().dom().len() + lx.text().len() - lx.pos() < 0xffff_fffe
}

/// What every parse function guarantees about the lexer and the arena,
/// success or failure: the text and file are unchanged, the cursor only
/// advances, the arena keeps every entry it had (and stays well formed), and
/// it grows by at most one node per consumed character.
pub open spec fn parse_frame(lx0: Lexer<'_>, lx1: Lexer<'_>, ar0: AstArena, ar1: AstArena) -> bool {
    &&& lx1.wf()
    &&& lx1.text() == lx0.text()
    &&& lx1.file() == lx0.file()
    &&& lx0.pos() <= lx1.pos() <= lx1.text().len()
    &&& ar1.wf()
    &&& ar0.contents().submap_of(ar1.contents())
    &&& ar1.contents().dom().len() + lx1.text().len() - lx1.pos() <= ar0.contents().dom().len()
        + lx0.text().len() - lx0.pos()
}

/// `id` names a node of the arena whose location lies between the position
/// where parsing started and the cursor after it: within the consumed
/// region, after any skipped whitespace, on the line of its first character.
pub open spec fn node_within(lx0: Lexer<'_>, lx1: Lexer<'_>, ar1: AstArena, id: AstId) -> bool {
    &&& ar1.contents().contains_key(id@)
    &&& ar1.contents()[id@].location.wf()
    &&& ar1.contents()[id@].location.file == lx0.file()
    &&& whitespace_end(lx0.text(), lx0.pos()) <= ar1.contents()[id@].location.span.start
    &&& ar1.contents()[id@].location.span.end <= lx1.pos()
    &&& ar1.contents()[id@].location.line == line_at(
        lx0.text(),
        ar1.contents()[id@].location.span.start as int,
    )
}

/// A successful parse returned `id` with exactly the stored node's location,
/// and consumed at least one character.
pub open spec fn parse_ok_at(
    lx0: Lexer<'_>,
    lx1: Lexer<'_>,
    ar1: AstArena,
    id: AstId,
    loc: Location,
) -> bool {
    &&& node_within(lx0, lx1, ar1, id)
    &&& ar1.contents()[id@].location == loc
    &&& lx0.pos() < lx1.pos()
}

/// A successfully parsed pattern: its own location lies in the consumed
/// region, and its type annotation, if any, names a node that does too.
pub open spec fn pattern_ok_at(lx0: Lexer<'_>, lx1: Lexer<'_>, ar1: AstArena, p: AstPattern) -> bool {
    &&& p.location.wf()
    &&& p.location.file == lx0.file()
    &&& whitespace_end(lx0.text(), lx0.pos()) <= p.location.span.start
    &&& p.location.span.end <= lx1.pos()
    &&& p.location.line == line_at(lx0.text(), p.location.span.start as int)
    &&& lx0.pos() < lx1.pos()
    &&& match p.kind {
        AstPatternKind::Name { name, typ } => typ matches Some(t) ==> node_within(lx0, lx1, ar1, t),
    }
}

/// The next token is an identifier that is not a keyword.
pub open spec fn plain_name_first(s: Seq<char>, i: int) -> bool {
    let a = whitespace_end(s, i);
    &&& a < s.len()
    &&& is_name_start_char(s[a])
    &&& s.subrange(a, step_end(s, a)) != let_word()
    &&& s.subrange(a, step_end(s, a)) != match_word()
}

/// The next token is a plain name and what follows it cannot continue a
/// binary expression: the end of the input, a punctuation token other than
/// the pipe operator, or another identifier.
pub open spec fn name_then_no_operator(s: Seq<char>, i: int) -> bool {
    let a = whitespace_end(s, i);
    let b = step_end(s, a);
    let c = whitespace_end(s, b);
    &&& plain_name_first(s, i)
    &&& (c == s.len() || (is_punctuation_char(s[c]) && s[c] != '|') || is_name_start_char(s[c]))
}

/// The next token is a plain name and what follows it cannot be a type
/// annotation: the end of the input, a punctuation token other than the
/// colon, or another identifier.
pub open spec fn name_then_no_annotation(s: Seq<char>, i: int) -> bool {
    let a = whitespace_end(s, i);
    let b = step_end(s, a);
    let c = whitespace_end(s, b);
    &&& plain_name_first(s, i)
    &&& (c == s.len() || (is_punctuation_char(s[c]) && s[c] != ':') || is_name_start_char(s[c]))
}

/// The next token can begin no primary expression: a keyword, or a
/// punctuation token other than the opening parenthesis.
pub open spec fn primary_rejects_first(s: Seq<char>, i: int) -> bool {
    let a = whitespace_end(s, i);
    &&& a < s.len()
    &&& ((is_name_start_char(s[a]) && (s.subrange(a, step_end(s, a)) == let_word() || s.subrange(
        a,
        step_end(s, a),
    ) == match_word())) || (is_punctuation_char(s[a]) && s[a] != '('))
}

/// The next tokens are `(`, a plain name, and the matching `)`.
pub open spec fn paren_name_first(s: Seq<char>, i: int) -> bool {
    let a = whitespace_end(s, i);
    let a2 = whitespace_end(s, a + 1);
    let b2 = step_end(s, a2);
    let c = whitespace_end(s, b2);
    &&& a < s.len()
    &&& s[a] == '('
    &&& name_then_no_operator(s, a + 1)
    &&& c < s.len()
    &&& s[c] == ')'
}

/// The lookahead token at position `j` scans without a lexical error: the
/// input ends, or a punctuation or identifier token follows.
pub open spec fn lookahead_scannable(s: Seq<char>, j: int) -> bool {
    let d = whitespace_end(s, j);
    d == s.len() || is_punctuation_char(s[d]) || is_name_start_char(s[d])
}

/// The lookahead at position `j` cannot continue a binary expression: it
/// scans, and it is not the pipe operator.
pub open spec fn no_continuation(s: Seq<char>, j: int) -> bool {
    let d = whitespace_end(s, j);
    &&& lookahead_scannable(s, j)
    &&& (d == s.len() || s[d] != '|')
}

/// The next tokens are a plain name, `|`, and a plain name that no further
/// operator follows.
pub open spec fn pipe_pair(s: Seq<char>, i: int) -> bool {
    let a = whitespace_end(s, i);
    let b = step_end(s, a);
    let c = whitespace_end(s, b);
    &&& plain_name_first(s, i)
    &&& c < s.len()
    &&& s[c] == '|'
    &&& name_then_no_operator(s, c + 1)
}

/// The exact tree a pipe pair parses to: a `BinaryOperator` node over the
/// two `Name` nodes, its location joining the operands, the operator's
/// location on the `|` itself.
pub open spec fn pipe_pair_result(
    file: crate::file::FileId,
    s: Seq<char>,
    i: int,
    ar: AstArena,
    id: AstId,
    loc: Location,
) -> bool {
    let a = whitespace_end(s, i);
    let b = step_end(s, a);
    let c = whitespace_end(s, b);
    let a2 = whitespace_end(s, c + 1);
    let b2 = step_end(s, a2);
    &&& ar.contents().contains_key(id@)
    &&& ar.contents()[id@].location == loc
    &&& located_at(loc, file, s, a, b2)
    &&& (ar.contents()[id@].kind matches AstKind::BinaryOperator { left, operator, right } && {
        &&& operator.kind == BinaryOperatorKind::Pipe
        &&& located_at(operator.location, file, s, c, c + 1)
        &&& ar.contents().contains_key(left@)
        &&& (ar.contents()[left@].kind matches AstKind::Name { name } && name@ == s.subrange(
            a,
            b,
        ))
        &&& located_at(ar.contents()[left@].location, file, s, a, b)
        &&& ar.contents().contains_key(right@)
        &&& (ar.contents()[right@].kind matches AstKind::Name { name } && name@ == s.subrange(
            a2,
            b2,
        ))
        &&& located_at(ar.contents()[right@].location, file, s, a2, b2)
    })
}

/// The next tokens are a plain name, `:`, and a plain name annotation that
/// no operator follows.
pub open spec fn name_with_name_annotation(s: Seq<char>, i: int) -> bool {
    let a = whitespace_end(s, i);
    let b = step_end(s, a);
    let c = whitespace_end(s, b);
    &&& plain_name_first(s, i)
    &&& c < s.len()
    &&& s[c] == ':'
    &&& name_then_no_operator(s, c + 1)
}

/// The next tokens are a plain name, `:`, and a pipe pair of names as the
/// annotation.
pub open spec fn name_with_pipe_annotation(s: Seq<char>, i: int) -> bool {
    let a = whitespace_end(s, i);
    let b = step_end(s, a);
    let c = whitespace_end(s, b);
    &&& plain_name_first(s, i)
    &&& c < s.len()
    &&& s[c] == ':'
    &&& pipe_pair(s, c + 1)
}

/// The next tokens are `(`, a plain name pattern without an annotation, and
/// the matching `)`.
pub open spec fn paren_pattern_first(s: Seq<char>, i: int) -> bool {
    let a = whitespace_end(s, i);
    let b2 = step_end(s, whitespace_end(s, a + 1));
    let c = whitespace_end(s, b2);
    &&& a < s.len()
    &&& s[a] == '('
    &&& name_then_no_annotation(s, a + 1)
    &&& c < s.len()
    &&& s[c] == ')'
}

/// The statement is `let`, a plain name pattern without an annotation, and
/// the terminating `;`.
pub open spec fn simple_let_statement(s: Seq<char>, i: int) -> bool {
    let a = whitespace_end(s, i);
    let b = step_end(s, a);
    let a2 = whitespace_end(s, b);
    let b2 = step_end(s, a2);
    let c = whitespace_end(s, b2);
    &&& a < s.len()
    &&& is_name_start_char(s[a])
    &&& s.subrange(a, b) == let_word()
    &&& plain_name_first(s, b)
    &&& c < s.len()
    &&& s[c] == ';'
}

/// The statement is a single plain name followed by `;`.
pub open spec fn simple_name_statement(s: Seq<char>, i: int) -> bool {
    let a = whitespace_end(s, i);
    let b = step_end(s, a);
    let c = whitespace_end(s, b);
    &&& plain_name_first(s, i)
    &&& c < s.len()
    &&& s[c] == ';'
}

/// The next tokens are three plain names joined by two `|` operators, with
/// no further operator following.
pub open spec fn pipe_chain3(s: Seq<char>, i: int) -> bool {
    let a = whitespace_end(s, i);
    let b = step_end(s, a);
    let c = whitespace_end(s, b);
    let b2 = step_end(s, whitespace_end(s, c + 1));
    let d = whitespace_end(s, b2);
    &&& plain_name_first(s, i)
    &&& c < s.len()
    &&& s[c] == '|'
    &&& plain_name_first(s, c + 1)
    &&& d < s.len()
    &&& s[d] == '|'
    &&& name_then_no_operator(s, d + 1)
}

/// The exact tree a three-name pipe chain parses to: the strict leftward
/// fold `(first | second) | third` — the left child is itself the pair of
/// the first two names, and the right child is the third name alone, as the
/// strict precedence comparison demands for equal-precedence operators.
pub open spec fn pipe_chain3_result(
    file: crate::file::FileId,
    s: Seq<char>,
    i: int,
    ar: AstArena,
    id: AstId,
    loc: Location,
) -> bool {
    let a = whitespace_end(s, i);
    let b2 = step_end(s, whitespace_end(s, whitespace_end(s, step_end(s, a)) + 1));
    let d = whitespace_end(s, b2);
    let a3 = whitespace_end(s, d + 1);
    let b3 = step_end(s, a3);
    &&& ar.contents().contains_key(id@)
    &&& ar.contents()[id@].location == loc
    &&& located_at(loc, file, s, a, b3)
    &&& (ar.contents()[id@].kind matches AstKind::BinaryOperator { left, operator, right } && {
        &&& operator.kind == BinaryOperatorKind::Pipe
        &&& located_at(operator.location, file, s, d, d + 1)
        &&& pipe_pair_result(file, s, i, ar, left, ar.contents()[left@].location)
        &&& ar.contents().contains_key(right@)
        &&& (ar.contents()[right@].kind matches AstKind::Name { name } && name@ == s.subrange(
            a3,
            b3,
        ))
        &&& located_at(ar.contents()[right@].location, file, s, a3, b3)
    })
}

/// The statement is `let`, a plain name pattern, a plain name initializer,
/// and the terminating `;`.
pub open spec fn initialized_let_statement(s: Seq<char>, i: int) -> bool {
    let a = whitespace_end(s, i);
    let b = step_end(s, a);
    let b2 = step_end(s, whitespace_end(s, b));
    let b3 = step_end(s, whitespace_end(s, b2));
    let d = whitespace_end(s, b3);
    &&& a < s.len()
    &&& is_name_start_char(s[a])
    &&& s.subrange(a, b) == let_word()
    &&& plain_name_first(s, b)
    &&& plain_name_first(s, b2)
    &&& d < s.len()
    &&& s[d] == ';'
}

/// The statement is `let`, a plain name pattern annotated with a plain name
/// type, and the terminating `;`.
pub open spec fn name_annotated_let_statement(s: Seq<char>, i: int) -> bool {
    let a = whitespace_end(s, i);
    let b = step_end(s, a);
    let c = whitespace_end(s, step_end(s, whitespace_end(s, b)));
    let b3 = step_end(s, whitespace_end(s, c + 1));
    let d = whitespace_end(s, b3);
    &&& a < s.len()
    &&& is_name_start_char(s[a])
    &&& s.subrange(a, b) == let_word()
    &&& name_with_name_annotation(s, b)
    &&& d < s.len()
    &&& s[d] == ';'
}

/// The statement is `let`, a plain name pattern annotated with a pipe pair
/// of names, and the terminating `;`.
pub open spec fn pipe_annotated_let_statement(s: Seq<char>, i: int) -> bool {
    let a = whitespace_end(s, i);
    let b = step_end(s, a);
    let c = whitespace_end(s, step_end(s, whitespace_end(s, b)));
    let b3 = step_end(s, whitespace_end(s, whitespace_end(s, step_end(s, whitespace_end(
        s,
        c + 1,
    ))) + 1));
    let d = whitespace_end(s, b3);
    &&& a < s.len()
    &&& is_name_start_char(s[a])
    &&& s.subrange(a, b) == let_word()
    &&& name_with_pipe_annotation(s, b)
    &&& d < s.len()
    &&& s[d] == ';'
}

/// The statement is a parenthesized plain name followed by `;`.
pub open spec fn paren_name_statement(s: Seq<char>, i: int) -> bool {
    let a = whitespace_end(s, i);
    let c = whitespace_end(s, step_end(s, whitespace_end(s, a + 1)));
    let d = whitespace_end(s, c + 1);
    &&& paren_name_first(s, i)
    &&& d < s.len()
    &&& s[d] == ';'
}

/// The statement is a three-name pipe chain followed by `;`.
pub open spec fn pipe_chain3_statement(s: Seq<char>, i: int) -> bool {
    let b2 = step_end(s, whitespace_end(s, whitespace_end(s, step_end(s, whitespace_end(
        s,
        i,
    ))) + 1));
    let b3 = step_end(s, whitespace_end(s, whitespace_end(s, b2) + 1));
    let e = whitespace_end(s, b3);
    &&& pipe_chain3(s, i)
    &&& e < s.len()
    &&& s[e] == ';'
}

/// The statement is a pipe pair of names followed by `;`.
pub open spec fn pipe_pair_statement(s: Seq<char>, i: int) -> bool {
    let b2 = step_end(s, whitespace_end(s, whitespace_end(s, step_end(s, whitespace_end(
        s,
        i,
    ))) + 1));
    let d = whitespace_end(s, b2);
    &&& pipe_pair(s, i)
    &&& d < s.len()
    &&& s[d] == ';'
}

/// The statement does not begin with the `match` keyword, whose body the
/// grammar deliberately leaves undefined.
pub open spec fn statement_start_supported(s: Seq<char>, i: int) -> bool {
    let a = whitespace_end(s, i);
    a < s.len() ==> !(is_name_start_char(s[a]) && s.subrange(a, step_end(s, a)) == match_word())
}

/// Every parse error is precisely located. A wrapped lexical error keeps
/// the inner error's location, which names exactly the one stray character
/// of the text, on its line; an unexpected token carries that token's own
/// location; a missing token at the end of input carries a zero-width
/// cursor mark. Every location belongs to the lexer's file.
pub open spec fn error_located(file: crate::file::FileId, s: Seq<char>, e: ParserError) -> bool {
    &&& e.location.file == file
    &&& match e.kind {
        ParserErrorKind::LexerError(le) => {
            &&& e.location == le.location
            &&& le.location.span.end == le.location.span.start + 1
            &&& le.location.span.end <= s.len()
            &&& le.location.line == line_at(s, le.location.span.start as int)
            &&& (le.kind matches LexerErrorKind::UnexpectedChar(c) && {
                &&& c == s[le.location.span.start as int]
                &&& !crate::lexer::is_whitespace_char(c)
                &&& !is_punctuation_char(c)
                &&& !is_name_start_char(c)
            })
        },
        ParserErrorKind::UnexpectedEOF => e.location.span.start == e.location.span.end,
        ParserErrorKind::UnexpectedToken(t) => {
            &&& e.location == t.location
            &&& t.location == e.location
            &&& t.location.wf()
        },
    }
}

proof fn lemma_step_bounds(s: Seq<char>, i: int)
    requires
        0 <= i <= s.len(),
    ensures
        i <= whitespace_end(s, i) <= s.len(),
        whitespace_end(s, i) < s.len() ==> whitespace_end(s, i) < step_end(
            s,
            whitespace_end(s, i),
        ) <= s.len(),
        whitespace_end(s, i) < s.len() ==> !crate::lexer::is_whitespace_char(
            s[whitespace_end(s, i)],
        ),
{
    lemma_whitespace_end(s, i);
    let a = whitespace_end(s, i);
    if a < s.len() && is_name_start_char(s[a]) {
        lemma_name_end(s, a + 1);
    }
}

/// Parse one statement. `let` introduces a pattern, an optional initializer
/// expression and a terminating `;`, producing a `Let` node; any other
/// leading token begins a bare expression statement whose node is returned
/// directly, after its mandatory `;`. Statements beginning with the `match`
/// keyword are excluded by precondition: their grammar is deliberately
/// undefined and the data model alone declares `Match` nodes.
pub fn parse_statement(lexer: &mut Lexer<'_>, arena: &mut AstArena) -> (r: Result<
    (AstId, Location),
    ParserError,
>)
    requires
        old(lexer).wf(),
        old(arena).wf(),
        arena_has_room(*old(arena), *old(lexer)),
        statement_start_supported(old(lexer).text(), old(lexer).pos()),
    ensures
        parse_frame(*old(lexer), *final(lexer), *old(arena), *final(arena)),
        r matches Err(e) ==> error_located(old(lexer).file(), old(lexer).text(), e),
        r matches Ok(ok) ==> parse_ok_at(*old(lexer), *final(lexer), *final(arena), ok.0, ok.1),
        whitespace_end(old(lexer).text(), old(lexer).pos()) == old(lexer).text().len() ==> (
        r matches Err(e) && e.kind matches ParserErrorKind::UnexpectedEOF && e.location == old(
            lexer,
        ).spec_location()),
        ({
            let s = old(lexer).text();
            let a = whitespace_end(s, old(lexer).pos());
            primary_rejects_first(s, old(lexer).pos()) && !(is_name_start_char(s[a])
                && s.subrange(a, step_end(s, a)) == let_word())
        }) ==> ({
            let s = old(lexer).text();
            let a = whitespace_end(s, old(lexer).pos());
            let b = step_end(s, a);
            &&& r matches Err(e)
            &&& e.kind matches ParserErrorKind::UnexpectedToken(t) && {
                &&& located_at(t.location, old(lexer).file(), s, a, b)
                &&& (is_punctuation_char(s[a]) ==> t.kind == punctuation_kind(s[a]))
            }
        }),
        simple_let_statement(old(lexer).text(), old(lexer).pos()) ==> ({
            let s = old(lexer).text();
            let a = whitespace_end(s, old(lexer).pos());
            let b = step_end(s, a);
            let a2 = whitespace_end(s, b);
            let b2 = step_end(s, a2);
            let c = whitespace_end(s, b2);
            &&& r matches Ok(ok)
            &&& final(lexer).pos() == c + 1
            &&& ok.1.span.start == a
            &&& ok.1.span.end == c + 1
            &&& (final(arena).contents()[ok.0@].kind matches AstKind::Let { pattern, value } && {
                &&& value is None
                &&& located_at(pattern.location, old(lexer).file(), s, a2, b2)
                &&& (pattern.kind matches AstPatternKind::Name { name, typ } && name@
                    == s.subrange(a2, b2) && typ is None)
            })
        }),
        simple_name_statement(old(lexer).text(), old(lexer).pos()) ==> ({
            let s = old(lexer).text();
            let a = whitespace_end(s, old(lexer).pos());
            let b = step_end(s, a);
            let c = whitespace_end(s, b);
            &&& r matches Ok(ok)
            &&& located_at(ok.1, old(lexer).file(), s, a, b)
            &&& (final(arena).contents()[ok.0@].kind matches AstKind::Name { name } && name@
                == s.subrange(a, b))
            &&& final(lexer).pos() == c + 1
        }),
        initialized_let_statement(old(lexer).text(), old(lexer).pos()) ==> ({
            let s = old(lexer).text();
            let a = whitespace_end(s, old(lexer).pos());
            let b = step_end(s, a);
            let a2 = whitespace_end(s, b);
            let b2 = step_end(s, a2);
            let a3 = whitespace_end(s, b2);
            let b3 = step_end(s, a3);
            let d = whitespace_end(s, b3);
            &&& r matches Ok(ok)
            &&& final(lexer).pos() == d + 1
            &&& located_at(ok.1, old(lexer).file(), s, a, d + 1)
            &&& (final(arena).contents()[ok.0@].kind matches AstKind::Let { pattern, value } && {
                &&& located_at(pattern.location, old(lexer).file(), s, a2, b2)
                &&& (pattern.kind matches AstPatternKind::Name { name, typ } && name@
                    == s.subrange(a2, b2) && typ is None)
                &&& value matches Some(v) && {
                    &&& final(arena).contents().contains_key(v@)
                    &&& (final(arena).contents()[v@].kind matches AstKind::Name { name }
                        && name@ == s.subrange(a3, b3))
                    &&& located_at(
                        final(arena).contents()[v@].location,
                        old(lexer).file(),
                        s,
                        a3,
                        b3,
                    )
                }
            })
        }),
        name_annotated_let_statement(old(lexer).text(), old(lexer).pos()) ==> ({
            let s = old(lexer).text();
            let a = whitespace_end(s, old(lexer).pos());
            let b = step_end(s, a);
            let a2 = whitespace_end(s, b);
            let b2 = step_end(s, a2);
            let c = whitespace_end(s, b2);
            let a3 = whitespace_end(s, c + 1);
            let b3 = step_end(s, a3);
            let d = whitespace_end(s, b3);
            &&& r matches Ok(ok)
            &&& final(lexer).pos() == d + 1
            &&& located_at(ok.1, old(lexer).file(), s, a, d + 1)
            &&& (final(arena).contents()[ok.0@].kind matches AstKind::Let { pattern, value } && {
                &&& value is None
                &&& located_at(pattern.location, old(lexer).file(), s, a2, b2)
                &&& (pattern.kind matches AstPatternKind::Name { name, typ } && {
                    &&& name@ == s.subrange(a2, b2)
                    &&& typ matches Some(t) && {
                        &&& final(arena).contents().contains_key(t@)
                        &&& (final(arena).contents()[t@].kind matches AstKind::Name { name }
                            && name@ == s.subrange(a3, b3))
                        &&& located_at(
                            final(arena).contents()[t@].location,
                            old(lexer).file(),
                            s,
                            a3,
                            b3,
                        )
                    }
                })
            })
        }),
        pipe_annotated_let_statement(old(lexer).text(), old(lexer).pos()) ==> ({
            let s = old(lexer).text();
            let a = whitespace_end(s, old(lexer).pos());
            let b = step_end(s, a);
            let a2 = whitespace_end(s, b);
            let b2 = step_end(s, a2);
            let c = whitespace_end(s, b2);
            let b3 = step_end(s, whitespace_end(s, whitespace_end(s, step_end(s, whitespace_end(
                s,
                c + 1,
            ))) + 1));
            let d = whitespace_end(s, b3);
            &&& r matches Ok(ok)
            &&& final(lexer).pos() == d + 1
            &&& located_at(ok.1, old(lexer).file(), s, a, d + 1)
            &&& (final(arena).contents()[ok.0@].kind matches AstKind::Let { pattern, value } && {
                &&& value is None
                &&& located_at(pattern.location, old(lexer).file(), s, a2, b2)
                &&& (pattern.kind matches AstPatternKind::Name { name, typ } && {
                    &&& name@ == s.subrange(a2, b2)
                    &&& typ matches Some(t) && pipe_pair_result(
                        old(lexer).file(),
                        s,
                        c + 1,
                        *final(arena),
                        t,
                        final(arena).contents()[t@].location,
                    )
                })
            })
        }),
        paren_name_statement(old(lexer).text(), old(lexer).pos()) ==> ({
            let s = old(lexer).text();
            let a = whitespace_end(s, old(lexer).pos());
            let a2 = whitespace_end(s, a + 1);
            let b2 = step_end(s, a2);
            let c = whitespace_end(s, b2);
            let d = whitespace_end(s, c + 1);
            &&& r matches Ok(ok)
            &&& final(lexer).pos() == d + 1
            &&& located_at(ok.1, old(lexer).file(), s, a2, b2)
            &&& (final(arena).contents()[ok.0@].kind matches AstKind::Name { name } && name@
                == s.subrange(a2, b2))
        }),
        pipe_pair_statement(old(lexer).text(), old(lexer).pos()) ==> ({
            let s = old(lexer).text();
            let b2 = step_end(s, whitespace_end(s, whitespace_end(s, step_end(s, whitespace_end(
                s,
                old(lexer).pos(),
            ))) + 1));
            let d = whitespace_end(s, b2);
            &&& r matches Ok(ok)
            &&& final(lexer).pos() == d + 1
            &&& pipe_pair_result(
                old(lexer).file(),
                s,
                old(lexer).pos(),
                *final(arena),
                ok.0,
                ok.1,
            )
        }),
        pipe_chain3_statement(old(lexer).text(), old(lexer).pos()) ==> ({
            let s = old(lexer).text();
            let b2 = step_end(s, whitespace_end(s, whitespace_end(s, step_end(s, whitespace_end(
                s,
                old(lexer).pos(),
            ))) + 1));
            let b3 = step_end(s, whitespace_end(s, whitespace_end(s, b2) + 1));
            let e = whitespace_end(s, b3);
            &&& r matches Ok(ok)
            &&& final(lexer).pos() == e + 1
            &&& pipe_chain3_result(
                old(lexer).file(),
                s,
                old(lexer).pos(),
                *final(arena),
                ok.0,
                ok.1,
            )
        }),
    decreases lexer.text().len() - lexer.pos(), 4int,
{
    let ghost lx0 = *lexer;
    let ghost ar0 = *arena;
    let ghost s = lx0.text();
    proof {
        lemma_step_bounds(s, lexer.pos());
    }
    match lexer.peek() {
        None => {
            let location = *lexer.get_location();
            Err(ParserError { location, kind: ParserErrorKind::UnexpectedEOF })
        },
        Some(Err(e)) => Err(ParserError::from(e)),
        Some(Ok(token)) => {
            match token {
                Token { location: start_location, kind: TokenKind::LetKeyword } => {
                    let _consumed = lexer.next();
                    let ghost lx1 = *lexer;
                    proof {
                        lemma_whitespace_end(s, lx1.pos());
                    }
                    let pattern = match parse_pattern(lexer, arena) {
                        Ok(p) => p,
                        Err(e) => {
                            return Err(e);
                        },
                    };
                    let ghost lx2 = *lexer;
                    let ghost ar2 = *arena;
                    let mut ends_here = false;
                    proof {
                        lemma_step_bounds(s, lexer.pos());
                    }
                    match lexer.peek() {
                        Some(Ok(t2)) => {
                            if matches!(t2.kind, TokenKind::Semicolon) {
                                ends_here = true;
                            }
                        },
                        Some(Err(e)) => {
                            return Err(ParserError::from(e));
                        },
                        None => {},
                    }
                    let value: Option<AstId> = if ends_here {
                        let _semicolon = lexer.next();
                        None
                    } else {
                        proof {
                            lemma_whitespace_end(s, lexer.pos());
                        }
                        let v = match parse_expression(lexer, arena) {
                            Ok(v) => v,
                            Err(e) => {
                                return Err(e);
                            },
                        };
                        proof {
                            lemma_step_bounds(s, lexer.pos());
                        }
                        match lexer.next() {
                            Some(Ok(t3)) => {
                                match t3 {
                                    Token { kind: TokenKind::Semicolon, .. } => {},
                                    t3 => {
                                        return Err(
                                            ParserError {
                                                location: t3.location,
                                                kind: ParserErrorKind::UnexpectedToken(t3),
                                            },
                                        );
                                    },
                                }
                            },
                            Some(Err(e)) => {
                                return Err(ParserError::from(e));
                            },
                            None => {
                                let location = *lexer.get_location();
                                return Err(
                                    ParserError { location, kind: ParserErrorKind::UnexpectedEOF },
                                );
                            },
                        }
                        Some(v.0)
                    };
                    let end_location = *lexer.get_location();
                    proof {
                        lemma_line_at_monotonic(s, start_location.span.start as int, lexer.pos());
                    }
                    let location = start_location.combine(&end_location);
                    let ghost pattern_snapshot = pattern;
                    let node = Ast { location, kind: AstKind::Let { pattern, value } };
                    let ghost ar_before = *arena;
                    proof {
                        lemma_line_at_monotonic(
                            s,
                            location.span.start as int,
                            pattern_snapshot.location.span.start as int,
                        );
                        if let AstPatternKind::Name { name: _, typ: Some(t) } = pattern_snapshot.kind {
                            assert(ar2.contents().contains_key(t@));
                            assert(arena.contents()[t@] == ar2.contents()[t@]);
                            lemma_line_at_monotonic(
                                s,
                                location.span.start as int,
                                arena.contents()[t@].location.span.start as int,
                            );
                        }
                        if let Some(v) = value {
                            lemma_line_at_monotonic(
                                s,
                                location.span.start as int,
                                arena.contents()[v@].location.span.start as int,
                            );
                        }
                    }
                    let id = arena.insert(node);
                    proof {
                        if let AstPatternKind::Name { name: _, typ: Some(t) } = pattern_snapshot.kind {
                            assert(ar_before.contents().contains_key(t@));
                            assert(ar_before.contents()[t@] == ar2.contents()[t@]);
                        }
                        lemma_insert_preserves_well_formed(ar_before.contents(), id@, node);
                    }
                    Ok((id, location))
                },
                token => {
                    let v = match parse_expression(lexer, arena) {
                        Ok(v) => v,
                        Err(e) => {
                            return Err(e);
                        },
                    };
                    proof {
                        lemma_step_bounds(s, lexer.pos());
                    }
                    match lexer.next() {
                        Some(Ok(t3)) => {
                            match t3 {
                                Token { kind: TokenKind::Semicolon, .. } => {},
                                t3 => {
                                    return Err(
                                        ParserError {
                                            location: t3.location,
                                            kind: ParserErrorKind::UnexpectedToken(t3),
                                        },
                                    );
                                },
                            }
                        },
                        Some(Err(e)) => {
                            return Err(ParserError::from(e));
                        },
                        None => {
                            let location = *lexer.get_location();
                            return Err(
                                ParserError { location, kind: ParserErrorKind::UnexpectedEOF },
                            );
                        },
                    }
                    Ok(v)
                },
            }
        },
    }
}

/// Parse one expression: precedence climbing from the lowest bound.
pub fn parse_expression(lexer: &mut Lexer<'_>, arena: &mut AstArena) -> (r: Result<
    (AstId, Location),
    ParserError,
>)
    requires
        old(lexer).wf(),
        old(arena).wf(),
        arena_has_room(*old(arena), *old(lexer)),
    ensures
        parse_frame(*old(lexer), *final(lexer), *old(arena), *final(arena)),
        r matches Err(e) ==> error_located(old(lexer).file(), old(lexer).text(), e),
        r matches Ok(ok) ==> parse_ok_at(*old(lexer), *final(lexer), *final(arena), ok.0, ok.1),
        whitespace_end(old(lexer).text(), old(lexer).pos()) == old(lexer).text().len() ==> (
        r matches Err(e) && e.kind matches ParserErrorKind::UnexpectedEOF),
        name_then_no_operator(old(lexer).text(), old(lexer).pos()) ==> ({
            let s = old(lexer).text();
            let a = whitespace_end(s, old(lexer).pos());
            let b = step_end(s, a);
            &&& r matches Ok(ok)
            &&& final(lexer).pos() == b
            &&& located_at(ok.1, old(lexer).file(), s, a, b)
            &&& (final(arena).contents()[ok.0@].kind matches AstKind::Name { name } && name@
                == s.subrange(a, b))
        }),
        ({
            let s = old(lexer).text();
            let c = whitespace_end(s, step_end(s, whitespace_end(s, whitespace_end(
                s,
                old(lexer).pos(),
            ) + 1)));
            paren_name_first(s, old(lexer).pos()) && no_continuation(s, c + 1)
        }) ==> ({
            let s = old(lexer).text();
            let a2 = whitespace_end(s, whitespace_end(s, old(lexer).pos()) + 1);
            let b2 = step_end(s, a2);
            let c = whitespace_end(s, b2);
            &&& r matches Ok(ok)
            &&& final(lexer).pos() == c + 1
            &&& located_at(ok.1, old(lexer).file(), s, a2, b2)
            &&& (final(arena).contents()[ok.0@].kind matches AstKind::Name { name } && name@
                == s.subrange(a2, b2))
        }),
        primary_rejects_first(old(lexer).text(), old(lexer).pos()) ==> ({
            let s = old(lexer).text();
            let a = whitespace_end(s, old(lexer).pos());
            let b = step_end(s, a);
            &&& r matches Err(e)
            &&& e.kind matches ParserErrorKind::UnexpectedToken(t) && {
                &&& located_at(t.location, old(lexer).file(), s, a, b)
                &&& (is_punctuation_char(s[a]) ==> t.kind == punctuation_kind(s[a]))
                &&& (is_name_start_char(s[a]) ==> word_kind_matches(s.subrange(a, b), t.kind))
            }
            &&& final(lexer).pos() == b
        }),
        pipe_pair(old(lexer).text(), old(lexer).pos()) ==> ({
            let s = old(lexer).text();
            let b2 = step_end(s, whitespace_end(s, whitespace_end(s, step_end(s, whitespace_end(
                s,
                old(lexer).pos(),
            ))) + 1));
            &&& r matches Ok(ok)
            &&& pipe_pair_result(
                old(lexer).file(),
                old(lexer).text(),
                old(lexer).pos(),
                *final(arena),
                ok.0,
                ok.1,
            )
            &&& final(lexer).pos() == b2
        }),
        pipe_chain3(old(lexer).text(), old(lexer).pos()) ==> ({
            let s = old(lexer).text();
            let b2 = step_end(s, whitespace_end(s, whitespace_end(s, step_end(s, whitespace_end(
                s,
                old(lexer).pos(),
            ))) + 1));
            let b3 = step_end(s, whitespace_end(s, whitespace_end(s, b2) + 1));
            &&& r matches Ok(ok)
            &&& pipe_chain3_result(
                old(lexer).file(),
                old(lexer).text(),
                old(lexer).pos(),
                *final(arena),
                ok.0,
                ok.1,
            )
            &&& final(lexer).pos() == b3
        }),
    decreases lexer.text().len() - lexer.pos(), 3int,
{
    parse_binary_expression(lexer, arena, 0)
}

/// Climb binary operators above `parent_precedence`: parse a primary
/// expression as the left operand, then, while the lookahead token is an
/// operator binding strictly tighter than the bound, consume it, parse the
/// right side at the operator's own precedence, and fold the two sides into
/// a `BinaryOperator` node whose location joins the operands' locations.
/// The strict comparison keeps equal-precedence chains left-associated.
#[verifier::loop_isolation(false)]
pub fn parse_binary_expression(
    lexer: &mut Lexer<'_>,
    arena: &mut AstArena,
    parent_precedence: u8,
) -> (r: Result<(AstId, Location), ParserError>)
    requires
        old(lexer).wf(),
        old(arena).wf(),
        arena_has_room(*old(arena), *old(lexer)),
    ensures
        parse_frame(*old(lexer), *final(lexer), *old(arena), *final(arena)),
        r matches Err(e) ==> error_located(old(lexer).file(), old(lexer).text(), e),
        r matches Ok(ok) ==> parse_ok_at(*old(lexer), *final(lexer), *final(arena), ok.0, ok.1),
        whitespace_end(old(lexer).text(), old(lexer).pos()) == old(lexer).text().len() ==> (
        r matches Err(e) && e.kind matches ParserErrorKind::UnexpectedEOF),
        name_then_no_operator(old(lexer).text(), old(lexer).pos()) ==> ({
            let s = old(lexer).text();
            let a = whitespace_end(s, old(lexer).pos());
            let b = step_end(s, a);
            &&& r matches Ok(ok)
            &&& final(lexer).pos() == b
            &&& located_at(ok.1, old(lexer).file(), s, a, b)
            &&& (final(arena).contents()[ok.0@].kind matches AstKind::Name { name } && name@
                == s.subrange(a, b))
        }),
        ({
            let s = old(lexer).text();
            let c = whitespace_end(s, step_end(s, whitespace_end(s, whitespace_end(
                s,
                old(lexer).pos(),
            ) + 1)));
            paren_name_first(s, old(lexer).pos()) && no_continuation(s, c + 1)
        }) ==> ({
            let s = old(lexer).text();
            let a2 = whitespace_end(s, whitespace_end(s, old(lexer).pos()) + 1);
            let b2 = step_end(s, a2);
            let c = whitespace_end(s, b2);
            &&& r matches Ok(ok)
            &&& final(lexer).pos() == c + 1
            &&& located_at(ok.1, old(lexer).file(), s, a2, b2)
            &&& (final(arena).contents()[ok.0@].kind matches AstKind::Name { name } && name@
                == s.subrange(a2, b2))
        }),
        primary_rejects_first(old(lexer).text(), old(lexer).pos()) ==> ({
            let s = old(lexer).text();
            let a = whitespace_end(s, old(lexer).pos());
            let b = step_end(s, a);
            &&& r matches Err(e)
            &&& e.kind matches ParserErrorKind::UnexpectedToken(t) && {
                &&& located_at(t.location, old(lexer).file(), s, a, b)
                &&& (is_punctuation_char(s[a]) ==> t.kind == punctuation_kind(s[a]))
                &&& (is_name_start_char(s[a]) ==> word_kind_matches(s.subrange(a, b), t.kind))
            }
            &&& final(lexer).pos() == b
        }),
        ({
            let s = old(lexer).text();
            let b = step_end(s, whitespace_end(s, old(lexer).pos()));
            parent_precedence >= 1 && plain_name_first(s, old(lexer).pos())
                && lookahead_scannable(s, b)
        }) ==> ({
            let s = old(lexer).text();
            let a = whitespace_end(s, old(lexer).pos());
            let b = step_end(s, a);
            &&& r matches Ok(ok)
            &&& final(lexer).pos() == b
            &&& located_at(ok.1, old(lexer).file(), s, a, b)
            &&& (final(arena).contents()[ok.0@].kind matches AstKind::Name { name } && name@
                == s.subrange(a, b))
        }),
        (parent_precedence == 0 && pipe_pair(old(lexer).text(), old(lexer).pos())) ==> ({
            let s = old(lexer).text();
            let b2 = step_end(s, whitespace_end(s, whitespace_end(s, step_end(s, whitespace_end(
                s,
                old(lexer).pos(),
            ))) + 1));
            &&& r matches Ok(ok)
            &&& pipe_pair_result(
                old(lexer).file(),
                old(lexer).text(),
                old(lexer).pos(),
                *final(arena),
                ok.0,
                ok.1,
            )
            &&& final(lexer).pos() == b2
        }),
        (parent_precedence == 0 && pipe_chain3(old(lexer).text(), old(lexer).pos())) ==> ({
            let s = old(lexer).text();
            let b2 = step_end(s, whitespace_end(s, whitespace_end(s, step_end(s, whitespace_end(
                s,
                old(lexer).pos(),
            ))) + 1));
            let b3 = step_end(s, whitespace_end(s, whitespace_end(s, b2) + 1));
            &&& r matches Ok(ok)
            &&& pipe_chain3_result(
                old(lexer).file(),
                old(lexer).text(),
                old(lexer).pos(),
                *final(arena),
                ok.0,
                ok.1,
            )
            &&& final(lexer).pos() == b3
        }),
    decreases lexer.text().len() - lexer.pos(), 2int,
{
    let ghost lx0 = *lexer;
    let ghost ar0 = *arena;
    let ghost s = lx0.text();
    let first = match parse_primary_expression(lexer, arena) {
        Ok(v) => v,
        Err(e) => {
            return Err(e);
        },
    };
    let ghost ar_first = *arena;
    let ghost lx_first = *lexer;
    let mut left_id = first.0;
    let mut left_loc = first.1;
    loop
        invariant
            lexer.wf(),
            arena.wf(),
            lexer.text() == s,
            lexer.file() == lx0.file(),
            lx0.pos() < lexer.pos() <= s.len(),
            ar0.contents().submap_of(arena.contents()),
            arena.contents().dom().len() + s.len() - lexer.pos() <= ar0.contents().dom().len()
                + s.len() - lx0.pos(),
            parse_ok_at(lx0, *lexer, *arena, left_id, left_loc),
            parent_precedence >= 1 ==> {
                &&& left_id == first.0
                &&& left_loc == first.1
                &&& *arena == ar_first
                &&& *lexer == lx_first
            },
            no_continuation(s, lx_first.pos()) ==> {
                &&& left_id == first.0
                &&& left_loc == first.1
                &&& *arena == ar_first
                &&& *lexer == lx_first
            },
            (parent_precedence == 0 && pipe_pair(s, lx0.pos())) ==> {
                ||| (left_id == first.0 && left_loc == first.1 && *arena == ar_first && *lexer
                    == lx_first)
                ||| (pipe_pair_result(lx0.file(), s, lx0.pos(), *arena, left_id, left_loc)
                    && lexer.pos() == step_end(
                    s,
                    whitespace_end(s, whitespace_end(s, step_end(s, whitespace_end(s, lx0.pos())))
                        + 1),
                ))
            },
            (parent_precedence == 0 && pipe_chain3(s, lx0.pos())) ==> {
                ||| (left_id == first.0 && left_loc == first.1 && *arena == ar_first && *lexer
                    == lx_first)
                ||| (pipe_pair_result(lx0.file(), s, lx0.pos(), *arena, left_id, left_loc)
                    && lexer.pos() == step_end(
                    s,
                    whitespace_end(s, whitespace_end(s, step_end(s, whitespace_end(s, lx0.pos())))
                        + 1),
                ))
                ||| (pipe_chain3_result(lx0.file(), s, lx0.pos(), *arena, left_id, left_loc)
                    && lexer.pos() == step_end(
                    s,
                    whitespace_end(s, whitespace_end(s, step_end(s, whitespace_end(s, whitespace_end(
                        s,
                        step_end(s, whitespace_end(s, lx0.pos())),
                    ) + 1))) + 1),
                ))
            },
        decreases s.len() - lexer.pos(),
    {
        let ghost lx_iter = *lexer;
        let ghost ar_iter = *arena;
        proof {
            lemma_whitespace_end(s, lexer.pos());
        }
        proof {
            lemma_step_bounds(s, lexer.pos());
        }
        match lexer.peek() {
            Some(Ok(operator_token)) => {
                if !matches!(operator_token.kind, TokenKind::Pipe) {
                    break;
                }
                let operator_precedence: u8 = 1;
                if operator_precedence <= parent_precedence {
                    break;
                }
                let _consumed = lexer.next();
                let right = match parse_binary_expression(lexer, arena, operator_precedence) {
                    Ok(v) => v,
                    Err(e) => {
                        return Err(e);
                    },
                };
                proof {
                    lemma_whitespace_end(s, next_pos(s, lx_iter.pos()));
                    lemma_line_at_monotonic(
                        s,
                        left_loc.span.start as int,
                        right.1.span.start as int,
                    );
                    lemma_line_at_monotonic(
                        s,
                        left_loc.span.start as int,
                        operator_token.location.span.start as int,
                    );
                }
                let location = left_loc.combine(&right.1);
                let operator = BinaryOperator {
                    location: operator_token.location,
                    kind: BinaryOperatorKind::Pipe,
                };
                let node = Ast {
                    location,
                    kind: AstKind::BinaryOperator { left: left_id, operator, right: right.0 },
                };
                let ghost ar_before = *arena;
                proof {
                    assert(ar_iter.contents().contains_key(left_id@));
                    assert(ar_before.contents()[left_id@] == ar_iter.contents()[left_id@]);
                }
                let id = arena.insert(node);
                proof {
                    lemma_insert_preserves_well_formed(ar_before.contents(), id@, node);
                }
                left_id = id;
                left_loc = location;
            },
            Some(Err(e)) => {
                return Err(ParserError::from(e));
            },
            None => {
                break;
            },
        }
    }
    Ok((left_id, left_loc))
}

/// Parse a primary expression: a `Name` token becomes a `Name` node; an
/// opening parenthesis wraps a sub-expression that must be closed and is
/// returned unchanged — parentheses contribute no node of their own; any
/// other token is a parse error, and exhausted input is `UnexpectedEOF`.
pub fn parse_primary_expression(lexer: &mut Lexer<'_>, arena: &mut AstArena) -> (r: Result<
    (AstId, Location),
    ParserError,
>)
    requires
        old(lexer).wf(),
        old(arena).wf(),
        arena_has_room(*old(arena), *old(lexer)),
    ensures
        parse_frame(*old(lexer), *final(lexer), *old(arena), *final(arena)),
        r matches Err(e) ==> error_located(old(lexer).file(), old(lexer).text(), e),
        r matches Ok(ok) ==> parse_ok_at(*old(lexer), *final(lexer), *final(arena), ok.0, ok.1),
        whitespace_end(old(lexer).text(), old(lexer).pos()) == old(lexer).text().len() ==> (
        r matches Err(e) && e.kind matches ParserErrorKind::UnexpectedEOF),
        plain_name_first(old(lexer).text(), old(lexer).pos()) ==> ({
            let s = old(lexer).text();
            let a = whitespace_end(s, old(lexer).pos());
            let b = step_end(s, a);
            &&& r matches Ok(ok)
            &&& final(lexer).pos() == b
            &&& located_at(ok.1, old(lexer).file(), s, a, b)
            &&& (final(arena).contents()[ok.0@].kind matches AstKind::Name { name } && name@
                == s.subrange(a, b))
        }),
        paren_name_first(old(lexer).text(), old(lexer).pos()) ==> ({
            let s = old(lexer).text();
            let a = whitespace_end(s, old(lexer).pos());
            let a2 = whitespace_end(s, a + 1);
            let b2 = step_end(s, a2);
            let c = whitespace_end(s, b2);
            &&& r matches Ok(ok)
            &&& final(lexer).pos() == c + 1
            &&& located_at(ok.1, old(lexer).file(), s, a2, b2)
            &&& (final(arena).contents()[ok.0@].kind matches AstKind::Name { name } && name@
                == s.subrange(a2, b2))
        }),
        primary_rejects_first(old(lexer).text(), old(lexer).pos()) ==> ({
            let s = old(lexer).text();
            let a = whitespace_end(s, old(lexer).pos());
            let b = step_end(s, a);
            &&& r matches Err(e)
            &&& e.kind matches ParserErrorKind::UnexpectedToken(t) && {
                &&& located_at(t.location, old(lexer).file(), s, a, b)
                &&& (is_punctuation_char(s[a]) ==> t.kind == punctuation_kind(s[a]))
                &&& (is_name_start_char(s[a]) ==> word_kind_matches(s.subrange(a, b), t.kind))
            }
            &&& final(lexer).pos() == b
        }),
        ({
            let s = old(lexer).text();
            let a = whitespace_end(s, old(lexer).pos());
            a < s.len() && !is_punctuation_char(s[a]) && !is_name_start_char(s[a])
        }) ==> (r matches Err(e) && e.kind matches ParserErrorKind::LexerError(le)
            && le.kind == LexerErrorKind::UnexpectedChar(
            old(lexer).text()[whitespace_end(old(lexer).text(), old(lexer).pos())],
        )),
        ({
            let s = old(lexer).text();
            whitespace_end(s, old(lexer).pos()) == s.len()
        }) ==> (r matches Err(e) && e.location.span.start == old(lexer).text().len()
            && e.location.line == line_at(old(lexer).text(), old(lexer).text().len() as int)),
    decreases lexer.text().len() - lexer.pos(), 1int,
{
    let ghost lx0 = *lexer;
    let ghost ar0 = *arena;
    let ghost s = lx0.text();
    proof {
        lemma_step_bounds(s, lexer.pos());
    }
    match lexer.next() {
        None => {
            let location = *lexer.get_location();
            Err(ParserError { location, kind: ParserErrorKind::UnexpectedEOF })
        },
        Some(Err(e)) => Err(ParserError::from(e)),
        Some(Ok(token)) => {
            match token {
                Token { location, kind: TokenKind::Name(name) } => {
                    let node = Ast { location, kind: AstKind::Name { name } };
                    let id = arena.insert(node);
                    proof {
                        lemma_insert_preserves_well_formed(ar0.contents(), id@, node);
                    }
                    Ok((id, location))
                },
                Token { kind: TokenKind::OpenParenthesis, .. } => {
                    proof {
                        lemma_whitespace_end(s, lexer.pos());
                    }
                    let inner = match parse_expression(lexer, arena) {
                        Ok(v) => v,
                        Err(e) => {
                            return Err(e);
                        },
                    };
                    proof {
                        lemma_step_bounds(s, lexer.pos());
                    }
                    match lexer.next() {
                        Some(Ok(t2)) => {
                            match t2 {
                                Token { kind: TokenKind::CloseParenthesis, .. } => {},
                                t2 => {
                                    return Err(
                                        ParserError {
                                            location: t2.location,
                                            kind: ParserErrorKind::UnexpectedToken(t2),
                                        },
                                    );
                                },
                            }
                        },
                        Some(Err(e)) => {
                            return Err(ParserError::from(e));
                        },
                        None => {
                            let location = *lexer.get_location();
                            return Err(
                                ParserError { location, kind: ParserErrorKind::UnexpectedEOF },
                            );
                        },
                    }
                    Ok(inner)
                },
                token => {
                    Err(
                        ParserError {
                            location: token.location,
                            kind: ParserErrorKind::UnexpectedToken(token),
                        },
                    )
                },
            }
        },
    }
}

/// Parse a pattern: a `Name` token becomes a `Name` pattern carrying the
/// token's own location, with an optional `:`-introduced type-annotation
/// expression; a parenthesized pattern must be closed and is returned
/// unchanged.
pub fn parse_pattern(lexer: &mut Lexer<'_>, arena: &mut AstArena) -> (r: Result<
    AstPattern,
    ParserError,
>)
    requires
        old(lexer).wf(),
        old(arena).wf(),
        arena_has_room(*old(arena), *old(lexer)),
    ensures
        parse_frame(*old(lexer), *final(lexer), *old(arena), *final(arena)),
        r matches Err(e) ==> error_located(old(lexer).file(), old(lexer).text(), e),
        r matches Ok(p) ==> pattern_ok_at(*old(lexer), *final(lexer), *final(arena), p),
        whitespace_end(old(lexer).text(), old(lexer).pos()) == old(lexer).text().len() ==> (
        r matches Err(e) && e.kind matches ParserErrorKind::UnexpectedEOF),
        name_then_no_annotation(old(lexer).text(), old(lexer).pos()) ==> ({
            let s = old(lexer).text();
            let a = whitespace_end(s, old(lexer).pos());
            let b = step_end(s, a);
            &&& r matches Ok(p)
            &&& final(lexer).pos() == b
            &&& located_at(p.location, old(lexer).file(), s, a, b)
            &&& (p.kind matches AstPatternKind::Name { name, typ } && name@ == s.subrange(a, b)
                && typ is None)
        }),
        name_with_name_annotation(old(lexer).text(), old(lexer).pos()) ==> ({
            let s = old(lexer).text();
            let a = whitespace_end(s, old(lexer).pos());
            let b = step_end(s, a);
            let c = whitespace_end(s, b);
            let a2 = whitespace_end(s, c + 1);
            let b2 = step_end(s, a2);
            &&& r matches Ok(p)
            &&& final(lexer).pos() == b2
            &&& located_at(p.location, old(lexer).file(), s, a, b)
            &&& (p.kind matches AstPatternKind::Name { name, typ } && {
                &&& name@ == s.subrange(a, b)
                &&& typ matches Some(t) && {
                    &&& final(arena).contents().contains_key(t@)
                    &&& (final(arena).contents()[t@].kind matches AstKind::Name { name }
                        && name@ == s.subrange(a2, b2))
                    &&& located_at(
                        final(arena).contents()[t@].location,
                        old(lexer).file(),
                        s,
                        a2,
                        b2,
                    )
                }
            })
        }),
        name_with_pipe_annotation(old(lexer).text(), old(lexer).pos()) ==> ({
            let s = old(lexer).text();
            let a = whitespace_end(s, old(lexer).pos());
            let b = step_end(s, a);
            let c = whitespace_end(s, b);
            let b3 = step_end(s, whitespace_end(s, whitespace_end(s, step_end(s, whitespace_end(
                s,
                c + 1,
            ))) + 1));
            &&& r matches Ok(p)
            &&& final(lexer).pos() == b3
            &&& located_at(p.location, old(lexer).file(), s, a, b)
            &&& (p.kind matches AstPatternKind::Name { name, typ } && {
                &&& name@ == s.subrange(a, b)
                &&& typ matches Some(t) && pipe_pair_result(
                    old(lexer).file(),
                    s,
                    c + 1,
                    *final(arena),
                    t,
                    final(arena).contents()[t@].location,
                )
            })
        }),
        primary_rejects_first(old(lexer).text(), old(lexer).pos()) ==> ({
            let s = old(lexer).text();
            let a = whitespace_end(s, old(lexer).pos());
            let b = step_end(s, a);
            &&& r matches Err(e)
            &&& e.kind matches ParserErrorKind::UnexpectedToken(t) && {
                &&& located_at(t.location, old(lexer).file(), s, a, b)
                &&& (is_punctuation_char(s[a]) ==> t.kind == punctuation_kind(s[a]))
                &&& (is_name_start_char(s[a]) ==> word_kind_matches(s.subrange(a, b), t.kind))
            }
            &&& final(lexer).pos() == b
        }),
        paren_pattern_first(old(lexer).text(), old(lexer).pos()) ==> ({
            let s = old(lexer).text();
            let a = whitespace_end(s, old(lexer).pos());
            let a2 = whitespace_end(s, a + 1);
            let b2 = step_end(s, a2);
            let c = whitespace_end(s, b2);
            &&& r matches Ok(p)
            &&& final(lexer).pos() == c + 1
            &&& located_at(p.location, old(lexer).file(), s, a2, b2)
            &&& (p.kind matches AstPatternKind::Name { name, typ } && name@ == s.subrange(a2, b2)
                && typ is None)
        }),
        ({
            let s = old(lexer).text();
            whitespace_end(s, old(lexer).pos()) == s.len()
        }) ==> (r matches Err(e) && e.location.span.start == old(lexer).text().len()
            && e.location.line == line_at(old(lexer).text(), old(lexer).text().len() as int)),
    decreases lexer.text().len() - lexer.pos(), 2int,
{
    let ghost lx0 = *lexer;
    let ghost ar0 = *arena;
    let ghost s = lx0.text();
    proof {
        lemma_step_bounds(s, lexer.pos());
    }
    match lexer.next() {
        None => {
            let location = *lexer.get_location();
            Err(ParserError { location, kind: ParserErrorKind::UnexpectedEOF })
        },
        Some(Err(e)) => Err(ParserError::from(e)),
        Some(Ok(token)) => {
            match token {
                Token { location, kind: TokenKind::Name(name) } => {
                    let ghost lx1 = *lexer;
                    proof {
                        lemma_whitespace_end(s, lx1.pos());
                    }
                    let mut annotated = false;
                    proof {
                        lemma_step_bounds(s, lexer.pos());
                    }
                    match lexer.peek() {
                        Some(Ok(t2)) => {
                            if matches!(t2.kind, TokenKind::Colon) {
                                annotated = true;
                            }
                        },
                        Some(Err(e)) => {
                            return Err(ParserError::from(e));
                        },
                        None => {},
                    }
                    let typ: Option<AstId> = if annotated {
                        let _colon = lexer.next();
                        proof {
                            lemma_whitespace_end(s, lexer.pos());
                        }
                        let t = match parse_expression(lexer, arena) {
                            Ok(v) => v,
                            Err(e) => {
                                return Err(e);
                            },
                        };
                        Some(t.0)
                    } else {
                        None
                    };
                    Ok(AstPattern { location, kind: AstPatternKind::Name { name, typ } })
                },
                Token { kind: TokenKind::OpenParenthesis, .. } => {
                    proof {
                        lemma_whitespace_end(s, lexer.pos());
                    }
                    let inner = match parse_pattern(lexer, arena) {
                        Ok(v) => v,
                        Err(e) => {
                            return Err(e);
                        },
                    };
                    proof {
                        lemma_step_bounds(s, lexer.pos());
                    }
                    match lexer.next() {
                        Some(Ok(t2)) => {
                            match t2 {
                                Token { kind: TokenKind::CloseParenthesis, .. } => {},
                                t2 => {
                                    return Err(
                                        ParserError {
                                            location: t2.location,
                                            kind: ParserErrorKind::UnexpectedToken(t2),
                                        },
                                    );
                                },
                            }
                        },
                        Some(Err(e)) => {
                            return Err(ParserError::from(e));
                        },
                        None => {
                            let location = *lexer.get_location();
                            return Err(
                                ParserError { location, kind: ParserErrorKind::UnexpectedEOF },
                            );
                        },
                    }
                    Ok(inner)
                },
                token => {
                    Err(
                        ParserError {
                            location: token.location,
                            kind: ParserErrorKind::UnexpectedToken(token),
                        },
                    )
                },
            }
        },
    }
}

} // verus!



