use delta::ast::Node;
use delta::error::Error;
use delta::token::TokenKind;
use delta::tree::statements;

/// A compact, fully parenthesised rendering of a tree, for comparing
/// shapes without spelling out every token span.
fn render(n: &Node) -> String {
    match n {
        Node::BinExpr { op, lhs, rhs } => {
            format!("({} {} {})", render(lhs), op_text(&op.kind), render(rhs))
        }
        Node::UnaryExpr { op, rhs } => format!("({}{})", op_text(&op.kind), render(rhs)),
        Node::Assign { name, value } => format!("({} = {})", name, render(value)),
        Node::NumberLiteral(s) => s.clone(),
        Node::Ident(s) => s.clone(),
        Node::BooleanLiteral(b) => format!("{}", b),
        Node::StringLiteral(s) => format!("{:?}", s),
    }
}

fn op_text(k: &TokenKind) -> &'static str {
    match k {
        TokenKind::Plus => "+",
        TokenKind::Minus => "-",
        TokenKind::Multiply => "*",
        TokenKind::Divide => "/",
        TokenKind::Mod => "%",
        TokenKind::Not => "!",
        TokenKind::BitNot => "~",
        TokenKind::Assign => "=",
        TokenKind::Eq => "==",
        TokenKind::NotEq => "!=",
        TokenKind::Less => "<",
        TokenKind::LessEq => "<=",
        TokenKind::Greater => ">",
        TokenKind::GreaterEq => ">=",
        TokenKind::And => "&&",
        TokenKind::Or => "||",
        TokenKind::BitAnd => "&",
        TokenKind::BitOr => "|",
        TokenKind::Xor => "^",
        _ => "?",
    }
}

/// A small arithmetic evaluator over the built trees, used to check that
/// the implied evaluation order matches standard precedence.
fn eval(n: &Node) -> f64 {
    match n {
        Node::BinExpr { op, lhs, rhs } => {
            let l = eval(lhs);
            let r = eval(rhs);
            match op.kind {
                TokenKind::Plus => l + r,
                TokenKind::Minus => l - r,
                TokenKind::Multiply => l * r,
                TokenKind::Divide => l / r,
                _ => panic!("operator outside the arithmetic fragment"),
            }
        }
        Node::UnaryExpr { op, rhs } => match op.kind {
            TokenKind::Minus => -eval(rhs),
            _ => panic!("operator outside the arithmetic fragment"),
        },
        Node::Assign { name: _, value } => eval(value),
        Node::NumberLiteral(s) => s.parse().unwrap(),
        _ => panic!("leaf outside the arithmetic fragment"),
    }
}

fn eval_stmt(input: &str) -> f64 {
    let nodes = statements(input).unwrap();
    assert_eq!(nodes.len(), 1);
    eval(&nodes[0])
}

#[test]
fn two_assignments_with_unary_minus() {
    let nodes = statements("z = 1 - 1 * 7 - 4 / 3; l = -z + 7 - 2 + 1 / 3").unwrap();
    assert_eq!(nodes.len(), 2);
    assert!(matches!(nodes[0], Node::Assign { .. }));
    assert!(matches!(nodes[1], Node::Assign { .. }));
    assert_eq!(render(&nodes[0]), "(z = ((1 - (1 * 7)) - (4 / 3)))");
    // The leading -z is unary, never a binary subtraction of a missing
    // left operand.
    assert_eq!(render(&nodes[1]), "(l = ((((-z) + 7) - 2) + (1 / 3)))");
}

#[test]
fn empty_input_builds_no_statements() {
    assert_eq!(statements(""), Ok(vec![]));
}

#[test]
fn blank_statements_build_no_nodes() {
    let nodes = statements("x = 1;\n\ny = 2;").unwrap();
    assert_eq!(nodes.len(), 2);
    assert_eq!(render(&nodes[0]), "(x = 1)");
    assert_eq!(render(&nodes[1]), "(y = 2)");
}

#[test]
fn comment_only_line_builds_no_node() {
    let nodes = statements("// preamble\nx = 1").unwrap();
    assert_eq!(nodes.len(), 1);
    assert_eq!(render(&nodes[0]), "(x = 1)");
}

#[test]
fn comment_does_not_change_the_tree() {
    let with_comment = statements("x = 1 + 2 // note\ny = 3").unwrap();
    let without = statements("x = 1 + 2\ny = 3").unwrap();
    assert_eq!(
        with_comment.iter().map(render).collect::<Vec<_>>(),
        without.iter().map(render).collect::<Vec<_>>()
    );
}

#[test]
fn precedence_governs_evaluation_order() {
    assert_eq!(eval_stmt("x = 2 + 3 * 4"), 14.0);
    assert_eq!(eval_stmt("x = 2 * 3 + 4"), 10.0);
    assert_eq!(eval_stmt("x = (2 + 3) * 4"), 20.0);
    assert_eq!(eval_stmt("x = 100 / 4 / 5"), 5.0);
    assert_eq!(eval_stmt("x = 10 - 2 - 3"), 5.0);
    assert_eq!(eval_stmt("x = 2 + 12 / 4 - 1"), 4.0);
    assert_eq!(eval_stmt("x = 2 * (3 + 4) * 5"), 70.0);
}

#[test]
fn unmatched_right_paren_is_fatal_in_pipeline() {
    assert_eq!(statements("x = (1 + 2))"), Err(Error::UnmatchedRightParen));
}

#[test]
fn assignment_to_non_identifier_is_fatal() {
    assert_eq!(statements("1 = 2"), Err(Error::AssignToNonIdentifier));
}

#[test]
fn missing_operand_is_fatal() {
    assert_eq!(statements("x = +"), Err(Error::MissingOperand));
}

#[test]
fn two_roots_are_fatal() {
    assert_eq!(statements("x y"), Err(Error::RootCount));
}

#[test]
fn expression_statement_is_fatal() {
    // Only an assignment is statement-shaped.
    assert_eq!(statements("1 + 2"), Err(Error::NonStatementRoot));
}

#[test]
fn undefined_token_is_fatal_in_tree_builder() {
    // A malformed number never stops the lexer; it surfaces later as an
    // unrecognized token.
    assert_eq!(statements("x = 1.2.3"), Err(Error::UnrecognizedToken));
}

#[test]
fn keyword_token_is_fatal_in_tree_builder() {
    assert_eq!(statements("x = fun"), Err(Error::UnrecognizedToken));
}

#[test]
fn boolean_and_string_leaves() {
    let nodes = statements("x = true; y = \"hi\"").unwrap();
    assert_eq!(render(&nodes[0]), "(x = true)");
    assert_eq!(render(&nodes[1]), "(y = \"hi\")");
}

#[test]
fn bang_is_always_unary() {
    let nodes = statements("x = !true").unwrap();
    assert_eq!(render(&nodes[0]), "(x = (!true))");
}

#[test]
fn minus_is_binary_between_operands() {
    let nodes = statements("x = 1 - 2").unwrap();
    assert_eq!(render(&nodes[0]), "(x = (1 - 2))");
}

#[test]
fn chained_assignment_builds_nested_assign() {
    let nodes = statements("a = b = 1").unwrap();
    assert_eq!(render(&nodes[0]), "(a = (b = 1))");
}

#[test]
fn minus_between_identifiers_follows_the_positional_rule() {
    // The positional rule classifies `-` by the shape of the nodes already
    // built: with only identifiers on the stack every node is unary-ready,
    // so the `-` in `a - b` is taken as unary and the statement fails to
    // reduce to one root. The rule is kept exactly as specified, not
    // replaced by a lookahead grammar.
    assert_eq!(statements("x = a - b"), Err(Error::RootCount));
    // With numeric operands the freshly built right operand is never
    // unary-ready, so `-` stays binary.
    assert_eq!(render(&statements("x = 1 - 2").unwrap()[0]), "(x = (1 - 2))");
}
