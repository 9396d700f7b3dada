use minilang::{File, FileId, Files, Lexer, LexerError, LexerErrorKind, Span, Token, TokenKind};

fn file_id(source: &str) -> FileId {
    let mut files = Files::new();
    files.register(File { file_path: String::from("main.lang"), source: String::from(source) })
}

fn next_token(lexer: &mut Lexer) -> Token {
    match lexer.next() {
        Some(Ok(token)) => token,
        Some(Err(e)) => panic!("unexpected lexer error: {:?}", e),
        None => panic!("unexpected end of input"),
    }
}

fn next_error(lexer: &mut Lexer) -> LexerError {
    match lexer.next() {
        Some(Err(e)) => e,
        other => panic!("expected a lexer error, got {:?}", other),
    }
}

#[test]
fn tokenize_let_statement() {
    let source = "let x;";
    let file = file_id(source);
    let mut lexer = Lexer::new(file, source);

    let t1 = next_token(&mut lexer);
    assert!(matches!(t1.kind, TokenKind::LetKeyword));
    assert_eq!(t1.location.span, Span { start: 0, end: 3 });
    assert_eq!(t1.location.line, 1);

    let t2 = next_token(&mut lexer);
    match &t2.kind {
        TokenKind::Name(name) => assert_eq!(name, "x"),
        other => panic!("expected a name, got {:?}", other),
    }
    assert_eq!(t2.location.span, Span { start: 4, end: 5 });

    let t3 = next_token(&mut lexer);
    assert!(matches!(t3.kind, TokenKind::Semicolon));
    assert_eq!(t3.location.span, Span { start: 5, end: 6 });

    assert!(lexer.next().is_none());
    // the lexer stays exhausted
    assert!(lexer.next().is_none());

    // the three spans cover the source with only whitespace removed
    let mut covered = String::new();
    for span in [t1.location.span, t2.location.span, t3.location.span] {
        covered.push_str(&source[span.start..span.end]);
    }
    assert_eq!(covered, "letx;");
}

#[test]
fn tokenize_unexpected_character() {
    let source = "1";
    let file = file_id(source);
    let mut lexer = Lexer::new(file, source);

    let e = next_error(&mut lexer);
    assert_eq!(e.kind, LexerErrorKind::UnexpectedChar('1'));
    assert_eq!(e.location.span, Span { start: 0, end: 1 });
    assert_eq!(e.location.line, 1);
    assert!(lexer.next().is_none());
}

#[test]
fn keywords_are_exact_matches() {
    let source = "match matches lets let";
    let file = file_id(source);
    let mut lexer = Lexer::new(file, source);

    assert!(matches!(next_token(&mut lexer).kind, TokenKind::MatchKeyword));
    match next_token(&mut lexer).kind {
        TokenKind::Name(name) => assert_eq!(name, "matches"),
        other => panic!("expected a name, got {:?}", other),
    }
    match next_token(&mut lexer).kind {
        TokenKind::Name(name) => assert_eq!(name, "lets"),
        other => panic!("expected a name, got {:?}", other),
    }
    assert!(matches!(next_token(&mut lexer).kind, TokenKind::LetKeyword));
    assert!(lexer.next().is_none());
}

#[test]
fn punctuation_tokens() {
    let source = ";:,{}()|";
    let file = file_id(source);
    let mut lexer = Lexer::new(file, source);

    assert!(matches!(next_token(&mut lexer).kind, TokenKind::Semicolon));
    assert!(matches!(next_token(&mut lexer).kind, TokenKind::Colon));
    assert!(matches!(next_token(&mut lexer).kind, TokenKind::Comma));
    assert!(matches!(next_token(&mut lexer).kind, TokenKind::OpenBracket));
    assert!(matches!(next_token(&mut lexer).kind, TokenKind::CloseBracket));
    assert!(matches!(next_token(&mut lexer).kind, TokenKind::OpenParenthesis));
    assert!(matches!(next_token(&mut lexer).kind, TokenKind::CloseParenthesis));
    let pipe = next_token(&mut lexer);
    assert!(matches!(pipe.kind, TokenKind::Pipe));
    assert_eq!(pipe.location.span, Span { start: 7, end: 8 });
    assert!(lexer.next().is_none());
}

#[test]
fn line_numbers_follow_newlines() {
    let source = "a\nb\n c";
    let file = file_id(source);
    let mut lexer = Lexer::new(file, source);

    let a = next_token(&mut lexer);
    assert_eq!(a.location.line, 1);
    assert_eq!(a.location.span, Span { start: 0, end: 1 });
    let b = next_token(&mut lexer);
    assert_eq!(b.location.line, 2);
    assert_eq!(b.location.span, Span { start: 2, end: 3 });
    let c = next_token(&mut lexer);
    assert_eq!(c.location.line, 3);
    assert_eq!(c.location.span, Span { start: 5, end: 6 });
    assert!(lexer.next().is_none());
}

#[test]
fn whitespace_only_input_is_empty() {
    let source = " \t\r\n ";
    let file = file_id(source);
    let mut lexer = Lexer::new(file, source);
    assert!(lexer.next().is_none());
}

#[test]
fn unicode_whitespace_is_skipped() {
    let source = "a\u{00a0}b";
    let file = file_id(source);
    let mut lexer = Lexer::new(file, source);

    match next_token(&mut lexer).kind {
        TokenKind::Name(name) => assert_eq!(name, "a"),
        other => panic!("expected a name, got {:?}", other),
    }
    let b = next_token(&mut lexer);
    match b.kind {
        TokenKind::Name(name) => assert_eq!(name, "b"),
        other => panic!("expected a name, got {:?}", other),
    }
    assert_eq!(b.location.span, Span { start: 2, end: 3 });
    assert!(lexer.next().is_none());
}

#[test]
fn peek_has_no_side_effect() {
    let source = "let x;";
    let file = file_id(source);
    let mut lexer = Lexer::new(file, source);

    let peeked = match lexer.peek() {
        Some(Ok(token)) => token,
        other => panic!("expected a token, got {:?}", other),
    };
    // peeking twice gives the same answer, and next returns it afterwards
    let peeked_again = match lexer.peek() {
        Some(Ok(token)) => token,
        other => panic!("expected a token, got {:?}", other),
    };
    assert_eq!(peeked.location, peeked_again.location);
    let consumed = next_token(&mut lexer);
    assert_eq!(consumed.location, peeked.location);
    assert!(matches!(consumed.kind, TokenKind::LetKeyword));
}

#[test]
fn char_cursor_tracks_lines_and_spans() {
    let source = "a\nb";
    let file = file_id(source);
    let mut lexer = Lexer::new(file, source);

    assert_eq!(lexer.peek_char(), Some('a'));
    assert_eq!(lexer.get_location().line, 1);
    assert_eq!(lexer.get_location().span, Span { start: 0, end: 0 });

    assert_eq!(lexer.next_char(), Some('a'));
    assert_eq!(lexer.get_location().span, Span { start: 1, end: 1 });
    assert_eq!(lexer.get_location().line, 1);

    assert_eq!(lexer.next_char(), Some('\n'));
    assert_eq!(lexer.get_location().line, 2);
    assert_eq!(lexer.get_location().span, Span { start: 2, end: 2 });

    assert_eq!(lexer.next_char(), Some('b'));
    assert_eq!(lexer.next_char(), None);
    assert_eq!(lexer.peek_char(), None);
}

#[test]
fn files_store_returns_registered_files() {
    let mut files = Files::new();
    let first = files.register(File {
        file_path: String::from("one.lang"),
        source: String::from("let a;"),
    });
    let second = files.register(File {
        file_path: String::from("two.lang"),
        source: String::from("b;"),
    });

    let one = files.get(first).expect("first file is registered");
    assert_eq!(one.file_path, "one.lang");
    assert_eq!(one.source, "let a;");
    let two = files.get(second).expect("second file is registered");
    assert_eq!(two.file_path, "two.lang");
    assert_eq!(two.source, "b;");
}

#[test]
fn spans_cover_source_without_whitespace() {
    // every scanned unit, token or error character, carries its exact span:
    // concatenating them reproduces the text with only whitespace removed
    let source = " let \tx\n| (9) ;";
    let file = file_id(source);
    let mut lexer = Lexer::new(file, source);
    let mut covered = String::new();
    loop {
        let span = match lexer.next() {
            Some(Ok(token)) => token.location.span,
            Some(Err(e)) => e.location.span,
            None => break,
        };
        covered.push_str(&source[span.start..span.end]);
    }
    assert_eq!(covered, "letx|(9);");
}

#[test]
fn error_location_tracks_lines() {
    let source = "a\n ?";
    let file = file_id(source);
    let mut lexer = Lexer::new(file, source);
    let a = next_token(&mut lexer);
    assert_eq!(a.location.line, 1);
    let e = next_error(&mut lexer);
    assert_eq!(e.kind, LexerErrorKind::UnexpectedChar('?'));
    assert_eq!(e.location.line, 2);
    assert_eq!(e.location.span, Span { start: 3, end: 4 });
    assert!(lexer.next().is_none());
}
