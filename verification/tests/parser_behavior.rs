use minilang::{
    parse_statement, Ast, AstArena, AstId, AstKind, AstPatternKind, BinaryOperatorKind, File,
    FileId, Files, Lexer, LexerErrorKind, Location, ParserError, ParserErrorKind, Span, TokenKind,
};

fn file_id(source: &str) -> FileId {
    let mut files = Files::new();
    files.register(File { file_path: String::from("main.lang"), source: String::from(source) })
}

fn parse_one(source: &str) -> (AstArena, AstId, Location) {
    let file = file_id(source);
    let mut lexer = Lexer::new(file, source);
    let mut arena = AstArena::new();
    match parse_statement(&mut lexer, &mut arena) {
        Ok((id, location)) => (arena, id, location),
        Err(e) => panic!("expected a successful parse, got {:?}", e),
    }
}

fn parse_err(source: &str) -> ParserError {
    let file = file_id(source);
    let mut lexer = Lexer::new(file, source);
    let mut arena = AstArena::new();
    match parse_statement(&mut lexer, &mut arena) {
        Ok(ok) => panic!("expected a parse error, got {:?}", ok),
        Err(e) => e,
    }
}

fn expect_name(arena: &AstArena, id: AstId, expected: &str) -> Location {
    let node = arena.get(id).expect("node is in the arena");
    match &node.kind {
        AstKind::Name { name } => assert_eq!(name, expected),
        other => panic!("expected a name node, got {:?}", other),
    }
    node.location
}

#[test]
fn let_with_pattern_type_parses_pipe_expression() {
    let (arena, id, location) = parse_one("let x: a | b;");
    let root = arena.get(id).expect("root is in the arena");
    assert_eq!(root.location, location);
    match &root.kind {
        AstKind::Let { pattern, value } => {
            assert!(value.is_none());
            match &pattern.kind {
                AstPatternKind::Name { name, typ } => {
                    assert_eq!(name, "x");
                    assert_eq!(pattern.location.span, Span { start: 4, end: 5 });
                    let typ = (*typ).expect("the pattern carries a type annotation");
                    let typ_node = arena.get(typ).expect("type node is in the arena");
                    match &typ_node.kind {
                        AstKind::BinaryOperator { left, operator, right } => {
                            assert!(matches!(operator.kind, BinaryOperatorKind::Pipe));
                            expect_name(&arena, *left, "a");
                            expect_name(&arena, *right, "b");
                        },
                        other => panic!("expected a binary operator, got {:?}", other),
                    }
                },
            }
        },
        other => panic!("expected a let node, got {:?}", other),
    }
}

#[test]
fn pipe_chains_associate_left() {
    let (arena, id, _location) = parse_one("a | b | c;");
    let root = arena.get(id).expect("root is in the arena");
    match &root.kind {
        AstKind::BinaryOperator { left, operator, right } => {
            assert!(matches!(operator.kind, BinaryOperatorKind::Pipe));
            expect_name(&arena, *right, "c");
            let left_node = arena.get(*left).expect("left child is in the arena");
            match &left_node.kind {
                AstKind::BinaryOperator { left, operator, right } => {
                    assert!(matches!(operator.kind, BinaryOperatorKind::Pipe));
                    expect_name(&arena, *left, "a");
                    expect_name(&arena, *right, "b");
                },
                other => panic!("expected the left side to nest, got {:?}", other),
            }
        },
        other => panic!("expected a binary operator, got {:?}", other),
    }
}

#[test]
fn parentheses_are_transparent() {
    let (wrapped_arena, wrapped_id, wrapped_location) = parse_one("(a);");
    let (bare_arena, bare_id, bare_location) = parse_one("a;");

    // both parses produce exactly one node: a name, with no wrapper node
    assert_eq!(wrapped_arena.len(), 1);
    assert_eq!(bare_arena.len(), 1);
    let wrapped_loc = expect_name(&wrapped_arena, wrapped_id, "a");
    let bare_loc = expect_name(&bare_arena, bare_id, "a");
    assert_eq!(wrapped_loc, wrapped_location);
    assert_eq!(bare_loc, bare_location);
    // the node's location is the name's own span in each text
    assert_eq!(wrapped_location.span, Span { start: 1, end: 2 });
    assert_eq!(bare_location.span, Span { start: 0, end: 1 });
}

#[test]
fn empty_input_fails_with_unexpected_eof() {
    let e = parse_err("");
    assert!(matches!(e.kind, ParserErrorKind::UnexpectedEOF));
    let e = parse_err("   \n ");
    assert!(matches!(e.kind, ParserErrorKind::UnexpectedEOF));
}

#[test]
fn missing_semicolon_fails() {
    let e = parse_err("a");
    assert!(matches!(e.kind, ParserErrorKind::UnexpectedEOF));
    let e = parse_err("a b");
    match e.kind {
        ParserErrorKind::UnexpectedToken(token) => match token.kind {
            TokenKind::Name(name) => assert_eq!(name, "b"),
            other => panic!("expected the stray name, got {:?}", other),
        },
        other => panic!("expected an unexpected-token error, got {:?}", other),
    }
}

#[test]
fn statement_cannot_begin_with_punctuation() {
    let e = parse_err(";");
    match e.kind {
        ParserErrorKind::UnexpectedToken(token) => {
            assert!(matches!(token.kind, TokenKind::Semicolon));
            assert_eq!(token.location.span, Span { start: 0, end: 1 });
        },
        other => panic!("expected an unexpected-token error, got {:?}", other),
    }
}

#[test]
fn lexical_error_is_wrapped() {
    let e = parse_err("a | 1;");
    match e.kind {
        ParserErrorKind::LexerError(inner) => {
            assert_eq!(inner.kind, LexerErrorKind::UnexpectedChar('1'));
            assert_eq!(inner.location.span, Span { start: 4, end: 5 });
            assert_eq!(e.location.span, Span { start: 4, end: 5 });
        },
        other => panic!("expected a wrapped lexical error, got {:?}", other),
    }
}

#[test]
fn unclosed_parenthesis_fails() {
    let e = parse_err("(a;");
    match e.kind {
        ParserErrorKind::UnexpectedToken(token) => {
            assert!(matches!(token.kind, TokenKind::Semicolon));
        },
        other => panic!("expected an unexpected-token error, got {:?}", other),
    }
}

#[test]
fn let_with_initializer() {
    let (arena, id, _location) = parse_one("let x a;");
    let root = arena.get(id).expect("root is in the arena");
    match &root.kind {
        AstKind::Let { pattern, value } => {
            match &pattern.kind {
                AstPatternKind::Name { name, typ } => {
                    assert_eq!(name, "x");
                    assert!(typ.is_none());
                },
            }
            let value = (*value).expect("the let carries an initializer");
            expect_name(&arena, value, "a");
        },
        other => panic!("expected a let node, got {:?}", other),
    }
}

#[test]
fn parenthesized_pattern_is_transparent() {
    let (arena, id, _location) = parse_one("let (x);");
    let root = arena.get(id).expect("root is in the arena");
    match &root.kind {
        AstKind::Let { pattern, value } => {
            assert!(value.is_none());
            match &pattern.kind {
                AstPatternKind::Name { name, typ } => {
                    assert_eq!(name, "x");
                    assert!(typ.is_none());
                    assert_eq!(pattern.location.span, Span { start: 5, end: 6 });
                },
            }
        },
        other => panic!("expected a let node, got {:?}", other),
    }
}

#[test]
fn consecutive_statements_share_the_lexer() {
    let source = "a; let b;";
    let file = file_id(source);
    let mut lexer = Lexer::new(file, source);
    let mut arena = AstArena::new();

    let (first, _) = parse_statement(&mut lexer, &mut arena).expect("first statement parses");
    expect_name(&arena, first, "a");
    let (second, _) = parse_statement(&mut lexer, &mut arena).expect("second statement parses");
    let node = arena.get(second).expect("second root is in the arena");
    assert!(matches!(node.kind, AstKind::Let { .. }));
    let e = parse_statement(&mut lexer, &mut arena).expect_err("input is exhausted");
    assert!(matches!(e.kind, ParserErrorKind::UnexpectedEOF));
}

fn assert_contains(outer: Location, inner: Location) {
    assert_eq!(outer.file, inner.file);
    assert!(outer.line <= inner.line);
    assert!(outer.span.start <= inner.span.start);
    assert!(inner.span.end <= outer.span.end);
}

#[test]
fn node_locations_contain_their_descendants() {
    let (arena, id, location) = parse_one("let x: a | b | c;");
    let root = arena.get(id).expect("root is in the arena");
    match &root.kind {
        AstKind::Let { pattern, value } => {
            assert!(value.is_none());
            assert_contains(location, pattern.location);
            match &pattern.kind {
                AstPatternKind::Name { name: _, typ } => {
                    let typ = (*typ).expect("the pattern carries a type annotation");
                    let typ_node = arena.get(typ).expect("type node is in the arena");
                    assert_contains(location, typ_node.location);
                    match &typ_node.kind {
                        AstKind::BinaryOperator { left, operator, right } => {
                            let left_node = arena.get(*left).expect("left child");
                            let right_node = arena.get(*right).expect("right child");
                            assert_contains(typ_node.location, left_node.location);
                            assert_contains(typ_node.location, operator.location);
                            assert_contains(typ_node.location, right_node.location);
                            match &left_node.kind {
                                AstKind::BinaryOperator { left, operator: _, right } => {
                                    let a = arena.get(*left).expect("leftmost leaf");
                                    let b = arena.get(*right).expect("middle leaf");
                                    assert_contains(left_node.location, a.location);
                                    assert_contains(left_node.location, b.location);
                                    assert_contains(location, a.location);
                                },
                                other => panic!("expected a nested pipe, got {:?}", other),
                            }
                        },
                        other => panic!("expected a binary operator, got {:?}", other),
                    }
                },
            }
        },
        other => panic!("expected a let node, got {:?}", other),
    }
}

#[test]
fn combine_joins_same_file_spans() {
    let source = "let x; let y;";
    let file = file_id(source);
    let a = Location { file, line: 1, span: Span { start: 0, end: 3 } };
    let b = Location { file, line: 1, span: Span { start: 4, end: 6 } };
    let joined = a.combine(&b);
    assert_eq!(joined, Location { file, line: 1, span: Span { start: 0, end: 6 } });
}

#[test]
fn combine_across_files_is_identity() {
    let mut files = Files::new();
    let first = files.register(File {
        file_path: String::from("one.lang"),
        source: String::from("a;"),
    });
    let second = files.register(File {
        file_path: String::from("two.lang"),
        source: String::from("b;"),
    });
    let a = Location { file: first, line: 2, span: Span { start: 3, end: 5 } };
    let b = Location { file: second, line: 7, span: Span { start: 9, end: 11 } };
    let combined = a.combine(&b);
    assert_eq!(combined, a);
}

#[test]
fn arena_returns_stored_nodes_under_fresh_identifiers() {
    let source = "n m";
    let file = file_id(source);
    let mut arena = AstArena::new();
    assert_eq!(arena.len(), 0);
    let loc_n = Location { file, line: 1, span: Span { start: 0, end: 1 } };
    let loc_m = Location { file, line: 1, span: Span { start: 2, end: 3 } };
    let n = arena.insert(Ast { location: loc_n, kind: AstKind::Name { name: String::from("n") } });
    let m = arena.insert(Ast { location: loc_m, kind: AstKind::Name { name: String::from("m") } });
    assert_ne!(n, m);
    assert_eq!(arena.len(), 2);
    assert_eq!(expect_name(&arena, n, "n"), loc_n);
    assert_eq!(expect_name(&arena, m, "m"), loc_m);
}
