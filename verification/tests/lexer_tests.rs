use delta::lexer::Lexer;
use delta::token::{Token, TokenKind};

#[test]
fn lex_newline() {
    let input = "\n";
    let mut lexer = Lexer::new(input);

    assert_eq!(Token { kind: TokenKind::Delimeter, span: (1, 0) }, lexer.next().unwrap())
}

#[test]
fn lex_comment() {
    let input = "//hello world!\n// test!";
    let lexer = Lexer::new(input).tokenize();

    assert_eq!(
        vec![
            Token { kind: TokenKind::Comment("hello world!".into()), span: (1, 0) },
            Token { kind: TokenKind::Delimeter, span: (1, 14) },
            Token { kind: TokenKind::Comment("test!".into()), span: (2, 0) },
        ],
        lexer
    )
}

#[test]
fn lex_string() {
    let input = " \"hello!\"";
    let mut lexer = Lexer::new(input);

    assert_eq!(Token { kind: TokenKind::String("hello!".into()), span: (1, 1) }, lexer.next().unwrap())
}

#[test]
fn lex_whitespace() {
    let input = "     \t   \t";
    let mut lexer = Lexer::new(input);

    assert_eq!(None, lexer.next())
}

#[test]
fn lex_equate() {
    let input = "  ==";
    let mut lexer = Lexer::new(input);

    assert_eq!(Token { kind: TokenKind::Eq, span: (1, 2) }, lexer.next().unwrap())
}

#[test]
fn lex_not_equate() {
    let input = "!=";
    let mut lexer = Lexer::new(input);

    assert_eq!(Token { kind: TokenKind::NotEq, span: (1, 0) }, lexer.next().unwrap())
}

#[test]
fn lex_assign() {
    let input = " =";
    let mut lexer = Lexer::new(input);

    assert_eq!(Token { kind: TokenKind::Assign, span: (1, 1) }, lexer.next().unwrap())
}

#[test]
fn lex_parens() {
    let input = "()";
    let lexer = Lexer::new(input).tokenize();

    assert_eq!(
        vec![
            Token { kind: TokenKind::LParen, span: (1, 0) },
            Token { kind: TokenKind::RParen, span: (1, 1) },
        ],
        lexer
    )
}

#[test]
fn lex_braces() {
    let input = "{}";
    let lexer = Lexer::new(input).tokenize();

    assert_eq!(
        vec![
            Token { kind: TokenKind::LBrace, span: (1, 0) },
            Token { kind: TokenKind::RBrace, span: (1, 1) },
        ],
        lexer
    )
}

#[test]
fn lex_brackets() {
    let input = "[]";
    let lexer = Lexer::new(input).tokenize();

    assert_eq!(
        vec![
            Token { kind: TokenKind::LBracket, span: (1, 0) },
            Token { kind: TokenKind::RBracket, span: (1, 1) },
        ],
        lexer
    )
}

#[test]
fn lex_match_arms() {
    let input = "-> ->";
    let lexer = Lexer::new(input).tokenize();

    assert_eq!(
        vec![
            Token { kind: TokenKind::MatchArm, span: (1, 0) },
            Token { kind: TokenKind::MatchArm, span: (1, 3) },
        ],
        lexer
    )
}

#[test]
fn lex_plus() {
    let input = "+";
    let mut lexer = Lexer::new(input);

    assert_eq!(Token { kind: TokenKind::Plus, span: (1, 0) }, lexer.next().unwrap())
}

#[test]
fn lex_minus() {
    let input = "-";
    let mut lexer = Lexer::new(input);

    assert_eq!(Token { kind: TokenKind::Minus, span: (1, 0) }, lexer.next().unwrap())
}

#[test]
fn lex_multiply() {
    let input = "*";
    let mut lexer = Lexer::new(input);

    assert_eq!(Token { kind: TokenKind::Multiply, span: (1, 0) }, lexer.next().unwrap())
}

#[test]
fn lex_divide() {
    let input = "/";
    let mut lexer = Lexer::new(input);

    assert_eq!(Token { kind: TokenKind::Divide, span: (1, 0) }, lexer.next().unwrap())
}

#[test]
fn lex_mod() {
    let input = "%";
    let mut lexer = Lexer::new(input);

    assert_eq!(Token { kind: TokenKind::Mod, span: (1, 0) }, lexer.next().unwrap())
}

#[test]
fn lex_greater() {
    let input = ">";
    let mut lexer = Lexer::new(input);

    assert_eq!(Token { kind: TokenKind::Greater, span: (1, 0) }, lexer.next().unwrap())
}

#[test]
fn lex_less() {
    let input = "<";
    let mut lexer = Lexer::new(input);

    assert_eq!(Token { kind: TokenKind::Less, span: (1, 0) }, lexer.next().unwrap())
}

#[test]
fn lex_greater_equal() {
    let input = ">=";
    let mut lexer = Lexer::new(input);

    assert_eq!(Token { kind: TokenKind::GreaterEq, span: (1, 0) }, lexer.next().unwrap())
}

#[test]
fn lex_less_equal() {
    let input = "<=";
    let mut lexer = Lexer::new(input);

    assert_eq!(Token { kind: TokenKind::LessEq, span: (1, 0) }, lexer.next().unwrap())
}

#[test]
fn lex_bitwise_or() {
    let input = "|";
    let mut lexer = Lexer::new(input);

    assert_eq!(Token { kind: TokenKind::BitOr, span: (1, 0) }, lexer.next().unwrap())
}

#[test]
fn lex_bitwise_and() {
    let input = "&";
    let mut lexer = Lexer::new(input);

    assert_eq!(Token { kind: TokenKind::BitAnd, span: (1, 0) }, lexer.next().unwrap())
}

#[test]
fn lex_bitwise_not() {
    let input = "~";
    let mut lexer = Lexer::new(input);

    assert_eq!(Token { kind: TokenKind::BitNot, span: (1, 0) }, lexer.next().unwrap())
}

#[test]
fn lex_logical_or() {
    let input = "||";
    let mut lexer = Lexer::new(input);

    assert_eq!(Token { kind: TokenKind::Or, span: (1, 0) }, lexer.next().unwrap())
}

#[test]
fn lex_logical_and() {
    let input = "&&";
    let mut lexer = Lexer::new(input);

    assert_eq!(Token { kind: TokenKind::And, span: (1, 0) }, lexer.next().unwrap())
}

#[test]
fn lex_logical_not() {
    let input = "!";
    let mut lexer = Lexer::new(input);

    assert_eq!(Token { kind: TokenKind::Not, span: (1, 0) }, lexer.next().unwrap())
}

#[test]
fn lex_colon() {
    let input = ":";
    let mut lexer = Lexer::new(input);

    assert_eq!(Token { kind: TokenKind::Colon, span: (1, 0) }, lexer.next().unwrap())
}

#[test]
fn lex_comma() {
    let input = ",";
    let mut lexer = Lexer::new(input);

    assert_eq!(Token { kind: TokenKind::Comma, span: (1, 0) }, lexer.next().unwrap())
}

#[test]
fn lex_period() {
    let input = ".";
    let mut lexer = Lexer::new(input);

    assert_eq!(Token { kind: TokenKind::Period, span: (1, 0) }, lexer.next().unwrap())
}

#[test]
fn lex_ident() {
    let input = "br_uh";
    let mut lexer = Lexer::new(input);

    assert_eq!(Token { kind: TokenKind::Ident("br_uh".into()), span: (1, 0) }, lexer.next().unwrap())
}

#[test]
fn lex_true() {
    let input = "true";
    let mut lexer = Lexer::new(input);

    assert_eq!(Token { kind: TokenKind::True, span: (1, 0) }, lexer.next().unwrap())
}

#[test]
fn lex_false() {
    let input = "false";
    let mut lexer = Lexer::new(input);

    assert_eq!(Token { kind: TokenKind::False, span: (1, 0) }, lexer.next().unwrap())
}

#[test]
fn lex_fun() {
    let input = "fun";
    let mut lexer = Lexer::new(input);

    assert_eq!(Token { kind: TokenKind::Fun, span: (1, 0) }, lexer.next().unwrap())
}

#[test]
fn lex_match() {
    let input = "match";
    let mut lexer = Lexer::new(input);

    assert_eq!(Token { kind: TokenKind::Match, span: (1, 0) }, lexer.next().unwrap())
}

#[test]
fn lex_while() {
    let input = "while";
    let mut lexer = Lexer::new(input);

    assert_eq!(Token { kind: TokenKind::While, span: (1, 0) }, lexer.next().unwrap())
}

#[test]
fn lex_for() {
    let input = "for";
    let mut lexer = Lexer::new(input);

    assert_eq!(Token { kind: TokenKind::For, span: (1, 0) }, lexer.next().unwrap())
}

#[test]
fn lex_let() {
    let input = "let";
    let mut lexer = Lexer::new(input);

    assert_eq!(Token { kind: TokenKind::Let, span: (1, 0) }, lexer.next().unwrap())
}

#[test]
fn lex_float() {
    let input = "  123.03";
    let mut lexer = Lexer::new(input);

    assert_eq!(Token { kind: TokenKind::Number("123.03".into()), span: (1, 2) }, lexer.next().unwrap())
}

#[test]
fn lex_int() {
    let input = "142 ";
    let mut lexer = Lexer::new(input);

    assert_eq!(Token { kind: TokenKind::Number("142".into()), span: (1, 0) }, lexer.next().unwrap())
}
