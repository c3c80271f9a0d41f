use delta::error::Error;
use delta::lexer::Lexer;
use delta::parser::Parser;
use delta::token::{Association, Token, TokenKind};

fn kinds_of(tokens: &[Token]) -> Vec<TokenKind> {
    tokens.iter().map(|t| t.kind.clone()).collect()
}

fn postfix_kinds(input: &str) -> Vec<Vec<TokenKind>> {
    let stmts = Parser::new(Lexer::new(input)).parse().unwrap();
    stmts.iter().map(|s| kinds_of(s)).collect()
}

#[test]
fn gen_postfix_stack() {
    let lexer = Lexer::new("1 + 2 * 3");
    let stack = Parser::new(lexer).parse().unwrap();

    assert_eq!(
        stack,
        vec![vec![
            Token { kind: TokenKind::Number("1".into()), span: (1, 0) },
            Token { kind: TokenKind::Number("2".into()), span: (1, 4) },
            Token { kind: TokenKind::Number("3".into()), span: (1, 8) },
            Token { kind: TokenKind::Multiply, span: (1, 6) },
            Token { kind: TokenKind::Plus, span: (1, 2) },
        ]]
    )
}

#[test]
fn lex_then_parse_one_plus_one() {
    let toks = Lexer::new("1+1").tokenize();
    assert_eq!(
        kinds_of(&toks),
        vec![
            TokenKind::Number("1".into()),
            TokenKind::Plus,
            TokenKind::Number("1".into()),
        ]
    );

    let postfix = postfix_kinds("1+1");
    assert_eq!(
        postfix,
        vec![vec![
            TokenKind::Number("1".into()),
            TokenKind::Number("1".into()),
            TokenKind::Plus,
        ]]
    );
}

#[test]
fn parse_parenthesised_precedence() {
    let postfix = postfix_kinds("A * (B + C * D) + E");
    assert_eq!(
        postfix,
        vec![vec![
            TokenKind::Ident("A".into()),
            TokenKind::Ident("B".into()),
            TokenKind::Ident("C".into()),
            TokenKind::Ident("D".into()),
            TokenKind::Multiply,
            TokenKind::Plus,
            TokenKind::Multiply,
            TokenKind::Ident("E".into()),
            TokenKind::Plus,
        ]]
    );
}

#[test]
fn parse_empty_input() {
    assert_eq!(postfix_kinds(""), Vec::<Vec<TokenKind>>::new());
}

#[test]
fn parse_lone_left_paren_is_flushed_silently() {
    // An unmatched "(" raises no error: the stack is flushed as it stands.
    let postfix = postfix_kinds("(");
    assert_eq!(postfix, vec![vec![TokenKind::LParen]]);
}

#[test]
fn parse_lone_right_paren_is_fatal() {
    let r = Parser::new(Lexer::new(")")).parse();
    assert_eq!(r, Err(Error::UnmatchedRightParen));
}

#[test]
fn parse_unmatched_right_paren_in_expression() {
    let r = Parser::new(Lexer::new("a + b) * c")).parse();
    assert_eq!(r, Err(Error::UnmatchedRightParen));
}

#[test]
fn parse_statement_delimiters() {
    let postfix = postfix_kinds("a + b; c * d\ne");
    assert_eq!(
        postfix,
        vec![
            vec![TokenKind::Ident("a".into()), TokenKind::Ident("b".into()), TokenKind::Plus],
            vec![TokenKind::Ident("c".into()), TokenKind::Ident("d".into()), TokenKind::Multiply],
            vec![TokenKind::Ident("e".into())],
        ]
    );
}

#[test]
fn parse_trailing_delimiter_appends_empty_statement() {
    // One delimiter completes the statement; the end of input appends no
    // further statement for an empty queue.
    let postfix = postfix_kinds("a;");
    assert_eq!(postfix, vec![vec![TokenKind::Ident("a".into())]]);

    // A second delimiter completes an empty statement.
    let postfix = postfix_kinds("a;;");
    assert_eq!(postfix, vec![vec![TokenKind::Ident("a".into())], vec![]]);
}

#[test]
fn parse_filters_comments() {
    // A statement with a trailing comment reorders exactly as one without.
    let with_comment = postfix_kinds("x = 1 + 2 // note");
    let without = postfix_kinds("x = 1 + 2");
    assert_eq!(with_comment, without);

    // A comment-only line contributes an empty statement, no tokens.
    let lone = postfix_kinds("// only a note\na + b");
    assert_eq!(
        lone,
        vec![
            vec![],
            vec![TokenKind::Ident("a".into()), TokenKind::Ident("b".into()), TokenKind::Plus],
        ]
    );
}

#[test]
fn parse_equal_precedence_left_assoc() {
    let postfix = postfix_kinds("a - b + c");
    assert_eq!(
        postfix,
        vec![vec![
            TokenKind::Ident("a".into()),
            TokenKind::Ident("b".into()),
            TokenKind::Minus,
            TokenKind::Ident("c".into()),
            TokenKind::Plus,
        ]]
    );
}

#[test]
fn parse_assignment_right_assoc() {
    let postfix = postfix_kinds("a = b = c");
    assert_eq!(
        postfix,
        vec![vec![
            TokenKind::Ident("a".into()),
            TokenKind::Ident("b".into()),
            TokenKind::Ident("c".into()),
            TokenKind::Assign,
            TokenKind::Assign,
        ]]
    );
}

#[test]
fn relex_consecutive_token_spans() {
    // Cutting the characters covered by a consecutive run of tokens back
    // out of the source and lexing them again reproduces the same kinds.
    let toks = Lexer::new("ab + cd").tokenize();
    assert_eq!(toks.len(), 3);
    // The run from the second token's start through the last token's end.
    let again = Lexer::new("+ cd").tokenize();
    assert_eq!(kinds_of(&again), kinds_of(&toks[1..]));
}

#[test]
fn delimiter_flushes_open_paren_silently() {
    // A statement ending with an unmatched "(" is not validated: the
    // operator stack is flushed as it stands, parenthesis included.
    let postfix = postfix_kinds("(a\nb");
    assert_eq!(
        postfix,
        vec![
            vec![TokenKind::Ident("a".into()), TokenKind::LParen],
            vec![TokenKind::Ident("b".into())],
        ]
    );
}

#[test]
fn parentheses_carry_no_associativity() {
    let lp = Token { kind: TokenKind::LParen, span: (1, 0) };
    let rp = Token { kind: TokenKind::RParen, span: (1, 1) };
    assert_eq!(lp.get_associativity(), Association::NonAssoc);
    assert_eq!(rp.get_associativity(), Association::NonAssoc);
}
