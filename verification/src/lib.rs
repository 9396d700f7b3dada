//! Front end for a small expression-oriented language: a lexer that turns
//! source text into located tokens, and a recursive-descent parser that
//! builds an abstract syntax tree held in an arena of identifier-addressed
//! nodes. Every token and every AST node carries the source range it came
//! from.

pub mod ast;
pub mod file;
pub mod lexer;
pub mod parser;

pub use ast::{
    Ast, AstArena, AstId, AstKind, AstMatchArm, AstPattern, AstPatternKind, BinaryOperator,
    BinaryOperatorKind,
};
pub use file::{File, FileId, Files, Location, Span};
pub use lexer::{Lexer, LexerError, LexerErrorKind, Token, TokenKind};
pub use parser::{
    parse_binary_expression, parse_expression, parse_pattern, parse_primary_expression,
    parse_statement, ParserError, ParserErrorKind,
};
