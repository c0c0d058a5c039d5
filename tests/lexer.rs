use godotino_core::lexer::{keyword, Lexer, Token, TokenKind};
use godotino_core::tsukiError;

fn lex(src: &str) -> Vec<TokenKind> {
    Lexer::new(src, "test.go".to_string())
        .tokenize()
        .unwrap()
        .into_iter()
        .map(|t| t.kind)
        .filter(|k| k != &TokenKind::EOF)
        .collect()
}

fn lex_tokens(src: &str) -> Result<Vec<Token>, tsukiError> {
    Lexer::new(src, "test.go".to_string()).tokenize()
}

#[test]
fn test_keywords() {
    let kinds = lex("package main");
    assert_eq!(kinds, vec![TokenKind::KwPackage, TokenKind::Ident("main".into())]);
}

#[test]
fn test_operators() {
    let kinds = lex(":= += <<= &^");
    assert_eq!(
        kinds,
        vec![TokenKind::DeclAssign, TokenKind::PlusEq, TokenKind::LShiftEq, TokenKind::AmpCaret,]
    );
}

#[test]
fn test_integer_literals() {
    let kinds = lex("42 0xFF 0b1010 0o77");
    assert_eq!(
        kinds,
        vec![
            TokenKind::LitInt(42),
            TokenKind::LitInt(0xFF),
            TokenKind::LitInt(0b1010),
            TokenKind::LitInt(0o77),
        ]
    );
}

#[test]
fn test_float_literals() {
    let kinds = lex("3.14 2.5e10");
    assert!(matches!(kinds[0], TokenKind::LitFloat(_)));
    assert!(matches!(kinds[1], TokenKind::LitFloat(_)));
}

#[test]
fn test_string_literal() {
    let kinds = lex(r#""hello""#);
    assert_eq!(kinds, vec![TokenKind::LitString("hello".into())]);
}

#[test]
fn test_ellipsis() {
    let kinds = lex("...");
    assert_eq!(kinds, vec![TokenKind::Ellipsis]);
}

#[test]
fn float_digits_lose_underscores() {
    assert_eq!(lex("1_000.5"), vec![TokenKind::LitFloat("1000.5".into())]);
    assert_eq!(lex("2.5e10"), vec![TokenKind::LitFloat("2.5e10".into())]);
    assert_eq!(lex("7e-3"), vec![TokenKind::LitFloat("7e-3".into())]);
}

#[test]
fn underscores_in_integers() {
    assert_eq!(lex("1_000 0xff_ff 0b1_0"), vec![
        TokenKind::LitInt(1000),
        TokenKind::LitInt(0xffff),
        TokenKind::LitInt(2),
    ]);
}

#[test]
fn largest_integer_and_overflow() {
    assert_eq!(lex("9223372036854775807"), vec![TokenKind::LitInt(i64::MAX)]);
    let e = lex_tokens("9223372036854775808").unwrap_err();
    assert!(matches!(e, tsukiError::Lex { .. }));
    let e = lex_tokens("0x8000000000000000").unwrap_err();
    assert!(matches!(e, tsukiError::Lex { .. }));
}

#[test]
fn malformed_hex_points_at_literal_start() {
    let e = lex_tokens("x := 0xGG").unwrap_err();
    match e {
        tsukiError::Lex { msg, span } => {
            assert_eq!(span.line, 1);
            assert_eq!(span.col, 6);
            assert_eq!(span.offset, 5);
            assert!(msg.contains("`0xGG`"));
        }
        other => panic!("unexpected {:?}", other),
    }
    match lex_tokens("0xGG").unwrap_err() {
        tsukiError::Lex { span, .. } => {
            assert_eq!((span.line, span.col, span.offset), (1, 1, 0));
        }
        other => panic!("unexpected {:?}", other),
    }
}

#[test]
fn float_without_exponent_digits_is_rejected() {
    assert!(matches!(lex_tokens("1e+").unwrap_err(), tsukiError::Lex { .. }));
}

#[test]
fn newlines_are_tokens_and_comments_vanish() {
    let kinds = lex("a // note\nb /* block\n */ c");
    assert_eq!(kinds, vec![
        TokenKind::Ident("a".into()),
        TokenKind::Newline,
        TokenKind::Ident("b".into()),
        TokenKind::Ident("c".into()),
    ]);
}

#[test]
fn unterminated_block_comment_points_at_opening() {
    match lex_tokens("a\n  /* open").unwrap_err() {
        tsukiError::Lex { span, .. } => assert_eq!((span.line, span.col), (2, 3)),
        other => panic!("unexpected {:?}", other),
    }
}

#[test]
fn string_escapes_and_raw_strings() {
    assert_eq!(lex(r#""a\tb\n\"q\"\x""#), vec![TokenKind::LitString("a\tb\n\"q\"x".into())]);
    assert_eq!(lex("`a\\n\nb`"), vec![TokenKind::LitString("a\\n\nb".into())]);
    assert!(matches!(lex_tokens("\"abc\ndef\"").unwrap_err(), tsukiError::Lex { .. }));
    assert!(matches!(lex_tokens("`abc").unwrap_err(), tsukiError::Lex { .. }));
}

#[test]
fn rune_literals() {
    assert_eq!(lex(r"'x' '\n' '\''"), vec![
        TokenKind::LitRune('x'),
        TokenKind::LitRune('\n'),
        TokenKind::LitRune('\''),
    ]);
    assert!(matches!(lex_tokens("'ab'").unwrap_err(), tsukiError::Lex { .. }));
    assert!(matches!(lex_tokens("'").unwrap_err(), tsukiError::Lex { .. }));
}

#[test]
fn longest_operator_wins() {
    assert_eq!(lex("<<= << <- <= < &^= &^ && & .. ."), vec![
        TokenKind::LShiftEq,
        TokenKind::LShift,
        TokenKind::Arrow,
        TokenKind::LtEq,
        TokenKind::Lt,
        TokenKind::AmpCaretEq,
        TokenKind::AmpCaret,
        TokenKind::AndAnd,
        TokenKind::Amp,
        TokenKind::Dot,
        TokenKind::Dot,
        TokenKind::Dot,
    ]);
}

#[test]
fn unknown_character_is_a_lex_error() {
    match lex_tokens("a @ b").unwrap_err() {
        tsukiError::Lex { msg, span } => {
            assert!(msg.contains('@'));
            assert_eq!(span.col, 3);
        }
        other => panic!("unexpected {:?}", other),
    }
}

#[test]
fn stream_ends_with_one_eof() {
    let toks = lex_tokens("a\n").unwrap();
    assert_eq!(toks.len(), 3);
    assert!(toks[2].is_eof());
    assert!(toks[1].is_newline());
    assert_eq!(toks[1].span.line, 1);
    assert_eq!(toks[2].span.line, 2);
    assert_eq!(toks[2].span.col, 1);
    assert_eq!(toks[0].span.file, "test.go");
}

#[test]
fn keyword_table() {
    assert_eq!(keyword("func"), Some(TokenKind::KwFunc));
    assert_eq!(keyword("true"), Some(TokenKind::LitBool(true)));
    assert_eq!(keyword("chan"), Some(TokenKind::KwChan));
    assert_eq!(keyword("funcs"), None);
}

#[test]
fn operator_tables() {
    assert_eq!(TokenKind::AmpCaretEq.as_assign_op(), Some("&^="));
    assert_eq!(TokenKind::Plus.as_assign_op(), None);
    assert_eq!(TokenKind::Star.as_binary_op(), Some((9, "*")));
    assert_eq!(TokenKind::OrOr.as_binary_op(), Some((1, "||")));
    assert_eq!(TokenKind::Assign.as_binary_op(), None);
}

#[test]
fn identifiers_may_be_unicode() {
    assert_eq!(lex("héllo _x1"), vec![TokenKind::Ident("héllo".into()), TokenKind::Ident("_x1".into())]);
}

#[test]
fn offsets_count_bytes() {
    let toks = lex_tokens("é := \"ü\" + x").unwrap();
    assert_eq!(toks[0].span.offset, 0);
    assert_eq!(toks[1].span.offset, 3);
    assert_eq!(toks[2].span.offset, 6);
    assert_eq!(toks[3].span.offset, 11);
    assert_eq!(toks[4].span.offset, 13);
    assert_eq!(toks[4].span.col, 12);
    assert_eq!(toks[2].raw, "\"ü\"");
}

#[test]
fn unclosed_comment_error_names_opening() {
    match lex_tokens("x /* a").unwrap_err() {
        tsukiError::Lex { msg, span } => {
            assert_eq!((span.line, span.col, span.offset), (1, 3, 2));
            assert!(msg.contains("unterminated block comment"));
        }
        other => panic!("unexpected {:?}", other),
    }
}
