use lexer::{DiagnosticsEngine, Lexer, LexerError, LexerErrorKind, Span, Token, TokenType};

/// All tokens of `source` and all errors it raises, scanned as file 0.
fn scan(source: &str) -> (Vec<Token>, Vec<LexerError>) {
    let mut diagnostics = DiagnosticsEngine::new();
    let tokens = Lexer::new(source, 0, &mut diagnostics).collect();
    (tokens, diagnostics.errors().clone())
}

fn kinds(source: &str) -> Vec<TokenType> {
    scan(source).0.iter().map(|token| token.kind).collect()
}

fn token(kind: TokenType, lexeme: &str, start: usize, end: usize) -> Token {
    Token { kind, lexeme: lexeme.to_string(), span: Span { file_id: 0, start, end } }
}

fn error(kind: LexerErrorKind, start: usize, end: usize) -> LexerError {
    LexerError { kind, span: Span { file_id: 0, start, end } }
}

#[test]
fn blank_text_yields_no_tokens() {
    for source in ["", " ", "   ", "\t", "\r", " \t\r \t  \r"] {
        let (tokens, errors) = scan(source);
        assert_eq!(tokens, vec![], "source {:?}", source);
        assert_eq!(errors, vec![], "source {:?}", source);
    }
}

#[test]
fn end_of_blank_text_is_an_empty_eof() {
    let mut diagnostics = DiagnosticsEngine::new();
    let mut lexer = Lexer::new("  \t", 0, &mut diagnostics);
    assert_eq!(lexer.next_token(), token(TokenType::Eof, "", 3, 3));
    assert_eq!(lexer.column, 4);
    assert_eq!(lexer.line, 1);
}

#[test]
fn each_punctuation_character_is_one_token() {
    let table = [
        ("{", TokenType::LeftBrace),
        ("}", TokenType::RightBrace),
        ("(", TokenType::LeftParen),
        (")", TokenType::RightParen),
        ("=", TokenType::Equal),
        ("^", TokenType::Caret),
        ("&", TokenType::Ampersand),
        (".", TokenType::Dot),
        (",", TokenType::Comma),
        ("+", TokenType::Plus),
        ("*", TokenType::Star),
        ("/", TokenType::Slash),
    ];
    for (source, kind) in table {
        let (tokens, errors) = scan(source);
        assert_eq!(tokens, vec![token(kind, source, 0, 1)]);
        assert_eq!(tokens[0].span.end - tokens[0].span.start, 1);
        assert_eq!(errors, vec![]);
    }
}

#[test]
fn minus_and_arrow() {
    assert_eq!(scan("-").0, vec![token(TokenType::Minus, "-", 0, 1)]);
    assert_eq!(scan("->").0, vec![token(TokenType::Arrow, "->", 0, 2)]);
    assert_eq!(
        scan("-a").0,
        vec![token(TokenType::Minus, "-", 0, 1), token(TokenType::Identifier, "a", 1, 2)]
    );
    assert_eq!(kinds("- >"), vec![TokenType::Minus, TokenType::Illegal]);
    assert_eq!(kinds("-->"), vec![TokenType::Minus, TokenType::Arrow]);
}

#[test]
fn colon_and_double_colon() {
    assert_eq!(scan(":").0, vec![token(TokenType::Colon, ":", 0, 1)]);
    assert_eq!(scan("::").0, vec![token(TokenType::DoubleColon, "::", 0, 2)]);
    assert_eq!(kinds(":::"), vec![TokenType::DoubleColon, TokenType::Colon]);
    assert_eq!(kinds(": :"), vec![TokenType::Colon, TokenType::Colon]);
}

#[test]
fn integers_and_floats() {
    assert_eq!(scan("123").0, vec![token(TokenType::Integer, "123", 0, 3)]);
    assert_eq!(scan("3.14159").0, vec![token(TokenType::Float, "3.14159", 0, 7)]);
    assert_eq!(scan("0.5").0, vec![token(TokenType::Float, "0.5", 0, 3)]);
    assert_eq!(scan("7").0, vec![token(TokenType::Integer, "7", 0, 1)]);
}

#[test]
fn a_dot_without_a_digit_behind_it_stays_a_dot() {
    assert_eq!(
        scan("a.b").0,
        vec![
            token(TokenType::Identifier, "a", 0, 1),
            token(TokenType::Dot, ".", 1, 2),
            token(TokenType::Identifier, "b", 2, 3),
        ]
    );
    assert_eq!(
        scan("12.").0,
        vec![token(TokenType::Integer, "12", 0, 2), token(TokenType::Dot, ".", 2, 3)]
    );
    assert_eq!(
        scan("7.x").0,
        vec![
            token(TokenType::Integer, "7", 0, 1),
            token(TokenType::Dot, ".", 1, 2),
            token(TokenType::Identifier, "x", 2, 3),
        ]
    );
    assert_eq!(
        scan("1.2.3").0,
        vec![
            token(TokenType::Float, "1.2", 0, 3),
            token(TokenType::Dot, ".", 3, 4),
            token(TokenType::Integer, "3", 4, 5),
        ]
    );
    assert_eq!(kinds(".5"), vec![TokenType::Dot, TokenType::Integer]);
    assert_eq!(kinds("1. 5"), vec![TokenType::Integer, TokenType::Dot, TokenType::Integer]);
}

#[test]
fn boolean_literals() {
    assert_eq!(scan("true").0, vec![token(TokenType::Bool, "true", 0, 4)]);
    assert_eq!(scan("false").0, vec![token(TokenType::Bool, "false", 0, 5)]);
    assert_eq!(kinds("True"), vec![TokenType::Identifier]);
    assert_eq!(kinds("FALSE"), vec![TokenType::Identifier]);
    assert_eq!(kinds("truex"), vec![TokenType::Identifier]);
    assert_eq!(kinds("true false"), vec![TokenType::Bool, TokenType::Bool]);
}

#[test]
fn every_keyword_has_its_kind() {
    let table = [
        ("let", TokenType::Let),
        ("if", TokenType::If),
        ("else", TokenType::Else),
        ("while", TokenType::While),
        ("struct", TokenType::Struct),
        ("fun", TokenType::Fun),
        ("return", TokenType::Return),
        ("pub", TokenType::Pub),
        ("use", TokenType::Use),
    ];
    for (source, kind) in table {
        assert_eq!(scan(source).0, vec![token(kind, source, 0, source.len())]);
    }
}

#[test]
fn keywords_are_whole_words_and_case_sensitive() {
    for source in ["funny", "Let", "iff", "elsewhere", "_", "_x1", "x_1", "let1", "returns", "Fun"] {
        assert_eq!(
            scan(source).0,
            vec![token(TokenType::Identifier, source, 0, source.len())]
        );
    }
    assert_eq!(kinds("fun fun_ fu n"), vec![
        TokenType::Fun,
        TokenType::Identifier,
        TokenType::Identifier,
        TokenType::Identifier,
    ]);
}

#[test]
fn string_lexeme_is_verbatim() {
    let source = "\"hello\\nworld\"";
    let (tokens, errors) = scan(source);
    assert_eq!(tokens, vec![token(TokenType::String, "\"hello\\nworld\"", 0, 14)]);
    assert!(tokens[0].lexeme.contains("\\n"));
    assert!(!tokens[0].lexeme.contains('\n'));
    assert_eq!(errors, vec![]);
}

#[test]
fn valid_escapes_report_nothing() {
    let source = r#""\" \\ \n \r \t""#;
    let (tokens, errors) = scan(source);
    assert_eq!(tokens, vec![token(TokenType::String, source, 0, 16)]);
    assert_eq!(errors, vec![]);
}

#[test]
fn empty_string_literal() {
    assert_eq!(scan("\"\"").0, vec![token(TokenType::String, "\"\"", 0, 2)]);
}

#[test]
fn unterminated_string_reports_its_span() {
    let source = r#" "hello world "#;
    let (tokens, errors) = scan(source);
    assert_eq!(tokens, vec![token(TokenType::Illegal, "\"hello world ", 1, 14)]);
    assert_eq!(errors, vec![error(LexerErrorKind::UnterminatedString, 1, 14)]);
}

#[test]
fn a_lone_quote_is_unterminated() {
    let (tokens, errors) = scan("\"");
    assert_eq!(tokens, vec![token(TokenType::Illegal, "\"", 0, 1)]);
    assert_eq!(errors, vec![error(LexerErrorKind::UnterminatedString, 0, 1)]);
}

#[test]
fn dangling_backslash_is_unterminated() {
    let (tokens, errors) = scan("\"abc\\");
    assert_eq!(tokens, vec![token(TokenType::Illegal, "\"abc\\", 0, 5)]);
    assert_eq!(errors, vec![error(LexerErrorKind::UnterminatedString, 0, 5)]);
}

#[test]
fn an_escaped_quote_does_not_close_the_literal() {
    let (tokens, errors) = scan("\"a\\\"");
    assert_eq!(tokens, vec![token(TokenType::Illegal, "\"a\\\"", 0, 4)]);
    assert_eq!(errors, vec![error(LexerErrorKind::UnterminatedString, 0, 4)]);
}

#[test]
fn invalid_escape_is_reported_and_the_scan_goes_on() {
    let (tokens, errors) = scan("\"a\\qb\" x");
    assert_eq!(
        tokens,
        vec![
            token(TokenType::String, "\"a\\qb\"", 0, 6),
            token(TokenType::Identifier, "x", 7, 8),
        ]
    );
    assert_eq!(errors, vec![error(LexerErrorKind::InvalidEscapeSequence('q'), 2, 4)]);
}

#[test]
fn several_invalid_escapes_are_reported_in_order() {
    let (tokens, errors) = scan("\"\\a\\n\\é\"");
    assert_eq!(tokens, vec![token(TokenType::String, "\"\\a\\n\\é\"", 0, 9)]);
    assert_eq!(
        errors,
        vec![
            error(LexerErrorKind::InvalidEscapeSequence('a'), 1, 3),
            error(LexerErrorKind::InvalidEscapeSequence('é'), 5, 8),
        ]
    );
}

#[test]
fn invalid_escape_in_an_unterminated_string() {
    let (tokens, errors) = scan("\"\\z");
    assert_eq!(tokens, vec![token(TokenType::Illegal, "\"\\z", 0, 3)]);
    assert_eq!(
        errors,
        vec![
            error(LexerErrorKind::InvalidEscapeSequence('z'), 1, 3),
            error(LexerErrorKind::UnterminatedString, 0, 3),
        ]
    );
}

#[test]
fn newline_moves_to_the_next_line() {
    let mut diagnostics = DiagnosticsEngine::new();
    let mut lexer = Lexer::new("a\n  b", 0, &mut diagnostics);
    assert_eq!((lexer.line, lexer.column), (1, 1));

    assert_eq!(lexer.next_token(), token(TokenType::Identifier, "a", 0, 1));
    assert_eq!((lexer.line, lexer.column), (1, 2));

    assert_eq!(lexer.next_token(), token(TokenType::Newline, "\n", 1, 2));
    assert_eq!((lexer.line, lexer.column), (2, 1));

    assert_eq!(lexer.next_token(), token(TokenType::Identifier, "b", 4, 5));
    assert_eq!((lexer.line, lexer.column), (2, 4));
}

#[test]
fn every_newline_counts() {
    let mut diagnostics = DiagnosticsEngine::new();
    let mut lexer = Lexer::new("\n\n \nx", 0, &mut diagnostics);
    for line in 2..=4 {
        assert_eq!(lexer.next_token().kind, TokenType::Newline);
        assert_eq!((lexer.line, lexer.column), (line, 1));
    }
    assert_eq!(lexer.next_token().kind, TokenType::Identifier);
    assert_eq!((lexer.line, lexer.column), (4, 2));
}

#[test]
fn strings_may_span_lines() {
    let mut diagnostics = DiagnosticsEngine::new();
    let mut lexer = Lexer::new("\"a\nb\" c", 0, &mut diagnostics);
    assert_eq!(lexer.next_token(), token(TokenType::String, "\"a\nb\"", 0, 5));
    assert_eq!((lexer.line, lexer.column), (2, 3));
    assert_eq!(lexer.next_token(), token(TokenType::Identifier, "c", 6, 7));
    assert_eq!((lexer.line, lexer.column), (2, 5));
    assert!(!diagnostics.has_errors());
}

#[test]
fn a_line_feed_behind_a_backslash_is_an_invalid_escape() {
    let mut diagnostics = DiagnosticsEngine::new();
    let mut lexer = Lexer::new("\"\\\n\"", 0, &mut diagnostics);
    assert_eq!(lexer.next_token(), token(TokenType::String, "\"\\\n\"", 0, 4));
    assert_eq!((lexer.line, lexer.column), (1, 5));
    assert_eq!(
        diagnostics.errors(),
        &vec![error(LexerErrorKind::InvalidEscapeSequence('\n'), 1, 3)]
    );
}

#[test]
fn full_program_without_leading_newline() {
    let source = "fun add(a: int) -> int {\n    return a + 1\n}\n";
    let (tokens, errors) = scan(source);
    let expected = vec![
        TokenType::Fun,
        TokenType::Identifier,
        TokenType::LeftParen,
        TokenType::Identifier,
        TokenType::Colon,
        TokenType::Identifier,
        TokenType::RightParen,
        TokenType::Arrow,
        TokenType::Identifier,
        TokenType::LeftBrace,
        TokenType::Newline,
        TokenType::Return,
        TokenType::Identifier,
        TokenType::Plus,
        TokenType::Integer,
        TokenType::Newline,
        TokenType::RightBrace,
        TokenType::Newline,
    ];
    assert_eq!(tokens.iter().map(|token| token.kind).collect::<Vec<_>>(), expected);
    assert_eq!(errors, vec![]);
    let lexemes: Vec<&str> = tokens.iter().map(|token| token.lexeme.as_str()).collect();
    assert_eq!(
        lexemes,
        vec![
            "fun", "add", "(", "a", ":", "int", ")", "->", "int", "{", "\n", "return", "a", "+",
            "1", "\n", "}", "\n",
        ]
    );
}

#[test]
fn semicolon_is_reported_and_the_scan_goes_on() {
    let (tokens, errors) = scan("a;b");
    assert_eq!(
        tokens,
        vec![
            token(TokenType::Identifier, "a", 0, 1),
            token(TokenType::Illegal, ";", 1, 2),
            token(TokenType::Identifier, "b", 2, 3),
        ]
    );
    assert_eq!(errors, vec![error(LexerErrorKind::UnnecessarySemicolon, 1, 2)]);
}

#[test]
fn every_semicolon_is_reported() {
    let (tokens, errors) = scan("; ;");
    assert_eq!(
        tokens,
        vec![token(TokenType::Illegal, ";", 0, 1), token(TokenType::Illegal, ";", 2, 3)]
    );
    assert_eq!(
        errors,
        vec![
            error(LexerErrorKind::UnnecessarySemicolon, 0, 1),
            error(LexerErrorKind::UnnecessarySemicolon, 2, 3),
        ]
    );
}

#[test]
fn unknown_characters_are_illegal_and_silent() {
    for source in ["@", "#", ">", "<", "!", "%", "?", "'", "\\", "$", "~", "|", "[", "]"] {
        let (tokens, errors) = scan(source);
        assert_eq!(tokens, vec![token(TokenType::Illegal, source, 0, 1)]);
        assert_eq!(errors, vec![]);
    }
    assert_eq!(
        kinds("a # b"),
        vec![TokenType::Identifier, TokenType::Illegal, TokenType::Identifier]
    );
}

#[test]
fn eof_is_empty_and_repeats() {
    let mut diagnostics = DiagnosticsEngine::new();
    let mut lexer = Lexer::new("ab ", 0, &mut diagnostics);
    assert_eq!(lexer.next_token(), token(TokenType::Identifier, "ab", 0, 2));
    for _ in 0..3 {
        assert_eq!(lexer.next_token(), token(TokenType::Eof, "", 3, 3));
        assert_eq!((lexer.line, lexer.column), (1, 4));
    }
    assert!(!diagnostics.has_errors());
}

#[test]
fn next_ends_the_stream_at_eof() {
    let mut diagnostics = DiagnosticsEngine::new();
    let mut lexer = Lexer::new("x +", 0, &mut diagnostics);
    assert_eq!(lexer.next(), Some(token(TokenType::Identifier, "x", 0, 1)));
    assert_eq!(lexer.next(), Some(token(TokenType::Plus, "+", 2, 3)));
    assert_eq!(lexer.next(), None);
    assert_eq!(lexer.next(), None);
}

#[test]
fn collect_returns_what_is_left() {
    let mut diagnostics = DiagnosticsEngine::new();
    let mut lexer = Lexer::new("let x = 1", 0, &mut diagnostics);
    assert_eq!(lexer.next_token().kind, TokenType::Let);
    assert_eq!(
        lexer.collect(),
        vec![
            token(TokenType::Identifier, "x", 4, 5),
            token(TokenType::Equal, "=", 6, 7),
            token(TokenType::Integer, "1", 8, 9),
        ]
    );
}

#[test]
fn spans_count_bytes_and_columns_count_characters() {
    let mut diagnostics = DiagnosticsEngine::new();
    let mut lexer = Lexer::new("é = 日本", 0, &mut diagnostics);
    assert_eq!(lexer.next_token(), token(TokenType::Identifier, "é", 0, 2));
    assert_eq!(lexer.column, 2);
    assert_eq!(lexer.next_token(), token(TokenType::Equal, "=", 3, 4));
    assert_eq!(lexer.column, 4);
    assert_eq!(lexer.next_token(), token(TokenType::Identifier, "日本", 5, 11));
    assert_eq!(lexer.column, 7);
    assert_eq!(lexer.next_token(), token(TokenType::Eof, "", 11, 11));
}

#[test]
fn a_four_byte_character_is_one_illegal_token() {
    let (tokens, errors) = scan("😀x");
    assert_eq!(
        tokens,
        vec![token(TokenType::Illegal, "😀", 0, 4), token(TokenType::Identifier, "x", 4, 5)]
    );
    assert_eq!(errors, vec![]);
}

#[test]
fn multibyte_text_inside_a_string() {
    let (tokens, errors) = scan("\"héllo\" y");
    assert_eq!(
        tokens,
        vec![
            token(TokenType::String, "\"héllo\"", 0, 8),
            token(TokenType::Identifier, "y", 9, 10),
        ]
    );
    assert_eq!(errors, vec![]);
}

#[test]
fn lexemes_are_the_text_under_their_spans() {
    let source = "fun añadir(x: int) -> int {\n  return x + 1.5 ; \"s\\q\"\n}";
    let (tokens, _) = scan(source);
    assert!(!tokens.is_empty());
    let mut previous_end = 0;
    for token in &tokens {
        assert!(token.span.start <= token.span.end);
        assert!(previous_end <= token.span.start);
        assert_eq!(token.lexeme.len(), token.span.end - token.span.start);
        assert_eq!(&source[token.span.start..token.span.end], token.lexeme);
        assert_ne!(token.kind, TokenType::Eof);
        previous_end = token.span.end;
    }
    assert!(previous_end <= source.len());
}

#[test]
fn file_id_is_carried_into_spans() {
    let mut diagnostics = DiagnosticsEngine::new();
    let tokens = Lexer::new("a ;", 7, &mut diagnostics).collect();
    assert_eq!(tokens.len(), 2);
    for token in &tokens {
        assert_eq!(token.span.file_id, 7);
    }
    assert_eq!(
        diagnostics.errors(),
        &vec![LexerError {
            kind: LexerErrorKind::UnnecessarySemicolon,
            span: Span { file_id: 7, start: 2, end: 3 },
        }]
    );
}

#[test]
fn one_collector_serves_several_scans() {
    let mut diagnostics = DiagnosticsEngine::new();
    let first = Lexer::new(";", 1, &mut diagnostics).collect();
    assert_eq!(first.len(), 1);
    assert_eq!(diagnostics.errors().len(), 1);

    let second = Lexer::new("ok", 2, &mut diagnostics).collect();
    assert_eq!(second.len(), 1);
    assert_eq!(diagnostics.errors().len(), 1);

    let third = Lexer::new("\"", 3, &mut diagnostics).collect();
    assert_eq!(third.len(), 1);
    assert_eq!(
        diagnostics.errors(),
        &vec![
            LexerError {
                kind: LexerErrorKind::UnnecessarySemicolon,
                span: Span { file_id: 1, start: 0, end: 1 },
            },
            LexerError {
                kind: LexerErrorKind::UnterminatedString,
                span: Span { file_id: 3, start: 0, end: 1 },
            },
        ]
    );
}

#[test]
fn a_new_scanner_reports_nothing() {
    let mut diagnostics = DiagnosticsEngine::new();
    {
        let lexer = Lexer::new("\"never scanned", 0, &mut diagnostics);
        assert_eq!((lexer.cursor, lexer.current_pos, lexer.line, lexer.column), (0, 0, 1, 1));
        assert_eq!(lexer.source_len, 14);
        assert_eq!(lexer.file_id, 0);
        assert_eq!(lexer.source, "\"never scanned");
    }
    assert!(!diagnostics.has_errors());
}
