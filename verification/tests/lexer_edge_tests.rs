use delta::lexer::Lexer;
use delta::token::{Token, TokenKind};

#[test]
fn lex_underscore_starts_identifier() {
    let mut lexer = Lexer::new("_tmp");
    assert_eq!(Token { kind: TokenKind::Ident("_tmp".into()), span: (1, 0) }, lexer.next().unwrap())
}

#[test]
fn lex_keyword_prefix_is_identifier() {
    let mut lexer = Lexer::new("truex");
    assert_eq!(Token { kind: TokenKind::Ident("truex".into()), span: (1, 0) }, lexer.next().unwrap())
}

#[test]
fn lex_string_escape() {
    let mut lexer = Lexer::new("\"a\\\"b\"");
    assert_eq!(Token { kind: TokenKind::String("a\"b".into()), span: (1, 0) }, lexer.next().unwrap())
}

#[test]
fn lex_unterminated_string_runs_to_end() {
    let mut lexer = Lexer::new("\"abc");
    assert_eq!(Token { kind: TokenKind::String("abc".into()), span: (1, 0) }, lexer.next().unwrap());
    assert_eq!(None, lexer.next());
}

#[test]
fn lex_backslash_without_quote_is_literal() {
    let mut lexer = Lexer::new("\"a\\b\"");
    assert_eq!(Token { kind: TokenKind::String("a\\b".into()), span: (1, 0) }, lexer.next().unwrap())
}

#[test]
fn lex_unknown_character_is_undefined() {
    let mut lexer = Lexer::new("@");
    assert_eq!(Token { kind: TokenKind::Undefined("@".into()), span: (1, 0) }, lexer.next().unwrap())
}

#[test]
fn lex_multi_dot_number_is_undefined() {
    // The numeric scan never aborts; a second decimal point makes the
    // whole scanned text an Undefined token.
    let lexer = Lexer::new("1.2.3").tokenize();
    assert_eq!(vec![Token { kind: TokenKind::Undefined("1.2.3".into()), span: (1, 0) }], lexer)
}

#[test]
fn lex_trailing_dot_stays_out_of_number() {
    let lexer = Lexer::new("12.x").tokenize();
    assert_eq!(
        vec![
            Token { kind: TokenKind::Number("12".into()), span: (1, 0) },
            Token { kind: TokenKind::Period, span: (1, 2) },
            Token { kind: TokenKind::Ident("x".into()), span: (1, 3) },
        ],
        lexer
    )
}

#[test]
fn lex_comment_trims_blanks() {
    let mut lexer = Lexer::new("//\t  padded note \t");
    assert_eq!(Token { kind: TokenKind::Comment("padded note".into()), span: (1, 0) }, lexer.next().unwrap())
}

#[test]
fn lex_comment_at_end_of_input() {
    let mut lexer = Lexer::new("//tail");
    assert_eq!(Token { kind: TokenKind::Comment("tail".into()), span: (1, 0) }, lexer.next().unwrap());
    assert_eq!(None, lexer.next());
}

#[test]
fn lex_newline_advances_line_and_resets_column() {
    let lexer = Lexer::new("a\nb").tokenize();
    assert_eq!(
        vec![
            Token { kind: TokenKind::Ident("a".into()), span: (1, 0) },
            Token { kind: TokenKind::Delimeter, span: (1, 1) },
            Token { kind: TokenKind::Ident("b".into()), span: (2, 0) },
        ],
        lexer
    )
}

#[test]
fn lex_semicolon_keeps_line() {
    let lexer = Lexer::new("a;b").tokenize();
    assert_eq!(
        vec![
            Token { kind: TokenKind::Ident("a".into()), span: (1, 0) },
            Token { kind: TokenKind::Delimeter, span: (1, 1) },
            Token { kind: TokenKind::Ident("b".into()), span: (1, 2) },
        ],
        lexer
    )
}

#[test]
fn lex_two_char_operators_before_prefixes() {
    let lexer = Lexer::new("<= < >= > == = != ! && & || |").tokenize();
    let kinds: Vec<TokenKind> = lexer.into_iter().map(|t| t.kind).collect();
    assert_eq!(
        kinds,
        vec![
            TokenKind::LessEq,
            TokenKind::Less,
            TokenKind::GreaterEq,
            TokenKind::Greater,
            TokenKind::Eq,
            TokenKind::Assign,
            TokenKind::NotEq,
            TokenKind::Not,
            TokenKind::And,
            TokenKind::BitAnd,
            TokenKind::Or,
            TokenKind::BitOr,
        ]
    )
}

#[test]
fn peek_and_raw_access() {
    let lexer = Lexer::new("ab");
    assert_eq!(Some('b'), lexer.peek());
    assert_eq!(Some('a'), lexer.get_char_raw(None));
    assert_eq!(Some('b'), lexer.get_char_raw(Some(1)));
    assert_eq!(None, lexer.get_char_raw(Some(2)));
}

#[test]
fn translate_advances_the_scan() {
    let mut lexer = Lexer::new("  xy");
    lexer.translate(2);
    assert_eq!(Token { kind: TokenKind::Ident("xy".into()), span: (1, 2) }, lexer.next().unwrap())
}

#[test]
fn lex_raw_newline_inside_string_keeps_line_count() {
    // A raw newline inside a string literal is copied into the text; the
    // cursor's line is advanced only by delimiter tokens, never by string
    // contents.
    let lexer = Lexer::new("\"a\nb\" c").tokenize();
    assert_eq!(
        vec![
            Token { kind: TokenKind::String("a\nb".into()), span: (1, 0) },
            Token { kind: TokenKind::Ident("c".into()), span: (1, 6) },
        ],
        lexer
    )
}

#[test]
fn lex_comment_trims_unicode_whitespace() {
    // str-style trimming: any Unicode white space is removed from both
    // ends of a comment's text, a non-breaking space included.
    let mut lexer = Lexer::new("//\u{a0}note\u{2003}");
    assert_eq!(Token { kind: TokenKind::Comment("note".into()), span: (1, 0) }, lexer.next().unwrap())
}
