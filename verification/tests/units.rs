use lexer::chars::{blank, digit, escape, punctuation_kind, word_part, word_start};
use lexer::scanner::keyword_or_identifier;
use lexer::text::{byte_len, chars_of, same_text, slice_bytes, utf8_width};
use lexer::{DiagnosticsEngine, LexerError, LexerErrorKind, Span, TokenType};

#[test]
fn utf8_width_of_each_class() {
    assert_eq!(utf8_width('\0'), 1);
    assert_eq!(utf8_width('a'), 1);
    assert_eq!(utf8_width('\u{7f}'), 1);
    assert_eq!(utf8_width('\u{80}'), 2);
    assert_eq!(utf8_width('é'), 2);
    assert_eq!(utf8_width('\u{7ff}'), 2);
    assert_eq!(utf8_width('\u{800}'), 3);
    assert_eq!(utf8_width('日'), 3);
    assert_eq!(utf8_width('\u{ffff}'), 3);
    assert_eq!(utf8_width('\u{10000}'), 4);
    assert_eq!(utf8_width('😀'), 4);
    assert_eq!(utf8_width('\u{10ffff}'), 4);
    for c in ['a', 'é', '日', '😀', '\u{d7ff}', '\u{e000}'] {
        assert_eq!(utf8_width(c), c.len_utf8());
    }
}

#[test]
fn byte_len_counts_bytes() {
    assert_eq!(byte_len(""), 0);
    assert_eq!(byte_len("abc"), 3);
    assert_eq!(byte_len("aé日😀"), 10);
}

#[test]
fn chars_of_lists_the_characters() {
    assert_eq!(chars_of(""), Vec::<char>::new());
    assert_eq!(chars_of("a é"), vec!['a', ' ', 'é']);
    assert_eq!(chars_of("日本\n"), vec!['日', '本', '\n']);
}

#[test]
fn slice_bytes_cuts_between_offsets() {
    let text = "aé日😀z";
    assert_eq!(slice_bytes(text, 0, 0), "");
    assert_eq!(slice_bytes(text, 0, 1), "a");
    assert_eq!(slice_bytes(text, 1, 3), "é");
    assert_eq!(slice_bytes(text, 1, 6), "é日");
    assert_eq!(slice_bytes(text, 6, 10), "😀");
    assert_eq!(slice_bytes(text, 10, 11), "z");
    assert_eq!(slice_bytes(text, 11, 11), "");
    assert_eq!(slice_bytes(text, 0, 11), text);
}

#[test]
fn same_text_compares_characters() {
    assert!(same_text("", ""));
    assert!(same_text("fun", "fun"));
    assert!(same_text("日本", "日本"));
    assert!(!same_text("fun", "fum"));
    assert!(!same_text("fun", "func"));
    assert!(!same_text("fun", ""));
    assert!(!same_text("Fun", "fun"));
}

#[test]
fn blanks_are_space_tab_and_carriage_return() {
    assert!(blank(' '));
    assert!(blank('\t'));
    assert!(blank('\r'));
    assert!(!blank('\n'));
    assert!(!blank('a'));
    assert!(!blank('\u{a0}'));
}

#[test]
fn digits_are_ascii() {
    for c in '0'..='9' {
        assert!(digit(c));
    }
    assert!(!digit('/'));
    assert!(!digit(':'));
    assert!(!digit('a'));
    assert!(!digit('٣'));
}

#[test]
fn escapes_are_five() {
    for c in ['"', '\\', 'n', 'r', 't'] {
        assert!(escape(c));
    }
    for c in ['q', 'N', '0', '\'', '\n', ' '] {
        assert!(!escape(c));
    }
}

#[test]
fn words_start_with_a_letter_or_underscore() {
    for c in ['a', 'Z', '_', 'é', '日', 'ß'] {
        assert!(word_start(c), "{:?}", c);
    }
    for c in ['0', '9', '-', ' ', ';', '"', '٣', '😀', '\n'] {
        assert!(!word_start(c), "{:?}", c);
    }
}

#[test]
fn words_go_on_with_letters_digits_and_underscores() {
    for c in ['a', 'Z', '_', 'é', '日', '0', '9', '٣'] {
        assert!(word_part(c), "{:?}", c);
    }
    for c in ['-', ' ', ';', '"', '.', '😀', '\n'] {
        assert!(!word_part(c), "{:?}", c);
    }
}

#[test]
fn punctuation_kinds() {
    assert_eq!(punctuation_kind('{'), Some(TokenType::LeftBrace));
    assert_eq!(punctuation_kind('}'), Some(TokenType::RightBrace));
    assert_eq!(punctuation_kind('('), Some(TokenType::LeftParen));
    assert_eq!(punctuation_kind(')'), Some(TokenType::RightParen));
    assert_eq!(punctuation_kind('='), Some(TokenType::Equal));
    assert_eq!(punctuation_kind('^'), Some(TokenType::Caret));
    assert_eq!(punctuation_kind('&'), Some(TokenType::Ampersand));
    assert_eq!(punctuation_kind('.'), Some(TokenType::Dot));
    assert_eq!(punctuation_kind(','), Some(TokenType::Comma));
    assert_eq!(punctuation_kind('+'), Some(TokenType::Plus));
    assert_eq!(punctuation_kind('*'), Some(TokenType::Star));
    assert_eq!(punctuation_kind('/'), Some(TokenType::Slash));
    for c in ['-', ':', ';', '\n', '"', 'a', '0', ' ', '>'] {
        assert_eq!(punctuation_kind(c), None);
    }
}

#[test]
fn keyword_table() {
    assert_eq!(keyword_or_identifier("true"), TokenType::Bool);
    assert_eq!(keyword_or_identifier("false"), TokenType::Bool);
    assert_eq!(keyword_or_identifier("fun"), TokenType::Fun);
    assert_eq!(keyword_or_identifier("let"), TokenType::Let);
    assert_eq!(keyword_or_identifier("if"), TokenType::If);
    assert_eq!(keyword_or_identifier("else"), TokenType::Else);
    assert_eq!(keyword_or_identifier("while"), TokenType::While);
    assert_eq!(keyword_or_identifier("struct"), TokenType::Struct);
    assert_eq!(keyword_or_identifier("return"), TokenType::Return);
    assert_eq!(keyword_or_identifier("pub"), TokenType::Pub);
    assert_eq!(keyword_or_identifier("use"), TokenType::Use);
    for word in ["", "x", "my_var", "int", "bool", "TRUE", "Use", "fun ", "whilee"] {
        assert_eq!(keyword_or_identifier(word), TokenType::Identifier);
    }
}

#[test]
fn diagnostics_engine_records_in_order() {
    let mut diagnostics = DiagnosticsEngine::new();
    assert!(!diagnostics.has_errors());
    assert!(diagnostics.errors().is_empty());

    let first = LexerError::new(
        LexerErrorKind::UnterminatedString,
        Span { file_id: 1, start: 2, end: 9 },
    );
    let second = LexerError::new(
        LexerErrorKind::InvalidEscapeSequence('q'),
        Span { file_id: 1, start: 3, end: 5 },
    );
    diagnostics.add_error(first);
    assert!(diagnostics.has_errors());
    assert_eq!(diagnostics.errors(), &vec![first]);
    diagnostics.add_error(second);
    diagnostics.add_error(first);
    assert_eq!(diagnostics.errors(), &vec![first, second, first]);
    assert!(diagnostics.has_errors());
}

#[test]
fn lexer_error_holds_kind_and_span() {
    let span = Span { file_id: 4, start: 10, end: 12 };
    let error = LexerError::new(LexerErrorKind::UnnecessarySemicolon, span);
    assert_eq!(error.kind, LexerErrorKind::UnnecessarySemicolon);
    assert_eq!(error.span, span);
    assert_eq!(error, LexerError { kind: LexerErrorKind::UnnecessarySemicolon, span });
    assert_ne!(
        LexerErrorKind::InvalidEscapeSequence('a'),
        LexerErrorKind::InvalidEscapeSequence('b')
    );
}
