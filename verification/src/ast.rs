//! Syntax-tree nodes. Every node owns its children outright: trees share
//! nothing and can hold no cycles.

use vstd::prelude::*;

use crate::token::{SpecToken, Token};

verus! {

/// A syntax-tree node. `Assign` is the one statement-shaped node; its name
/// always derives from an identifier leaf. A numeric literal keeps the
/// exact source spelling of the number.
#[derive(PartialEq, Debug)]
pub enum Node {
    BinExpr { op: Token, lhs: Box<Node>, rhs: Box<Node> },
    UnaryExpr { op: Token, rhs: Box<Node> },
    Assign { name: String, value: Box<Node> },
    NumberLiteral(String),
    Ident(String),
    BooleanLiteral(bool),
    StringLiteral(String),
}

/// Mathematical model of a syntax-tree node.
pub enum SpecNode {
    BinExpr { op: SpecToken, lhs: Box<SpecNode>, rhs: Box<SpecNode> },
    UnaryExpr { op: SpecToken, rhs: Box<SpecNode> },
    Assign { name: Seq<char>, value: Box<SpecNode> },
    NumberLiteral(Seq<char>),
    Ident(Seq<char>),
    BooleanLiteral(bool),
    StringLiteral(Seq<char>),
}

/// The model of a node, child by child.
pub open spec fn node_view(n: Node) -> SpecNode
    decreases n,
{
    match n {
        Node::BinExpr { op, lhs, rhs } => SpecNode::BinExpr {
            op: op@,
            lhs: Box::new(node_view(*lhs)),
            rhs: Box::new(node_view(*rhs)),
        },
        Node::UnaryExpr { op, rhs } => SpecNode::UnaryExpr {
            op: op@,
            rhs: Box::new(node_view(*rhs)),
        },
        Node::Assign { name, value } => SpecNode::Assign {
            name: name@,
            value: Box::new(node_view(*value)),
        },
        Node::NumberLiteral(s) => SpecNode::NumberLiteral(s@),
        Node::Ident(s) => SpecNode::Ident(s@),
        Node::BooleanLiteral(b) => SpecNode::BooleanLiteral(b),
        Node::StringLiteral(s) => SpecNode::StringLiteral(s@),
    }
}

impl View for Node {
    type V = SpecNode;

    open spec fn view(&self) -> SpecNode {
        node_view(*self)
    }
}

impl DeepView for Node {
    type V = SpecNode;

    open spec fn deep_view(&self) -> SpecNode {
        self.view()
    }
}

/// A node that may serve as the sole operand of a prefix unary operator:
/// itself a unary expression, a boolean literal, or an identifier.
pub open spec fn spec_is_unary_op_ready(n: SpecNode) -> bool {
    n matches SpecNode::UnaryExpr { .. } || n matches SpecNode::BooleanLiteral(_) || n
        matches SpecNode::Ident(_)
}

/// A node that may stand alone as a statement; only an assignment
/// qualifies.
pub open spec fn spec_is_statement(n: SpecNode) -> bool {
    n matches SpecNode::Assign { .. }
}

impl Node {
    /// Whether a prefix unary operator may take this node as its operand.
    pub fn is_unary_op_ready_node(&self) -> (r: bool)
        ensures
            r == spec_is_unary_op_ready(self@),
    {
        matches!(self, Node::UnaryExpr { .. } | Node::BooleanLiteral(_) | Node::Ident(_))
    }

    /// Whether this node may stand alone as a statement.
    pub fn is_statement(&self) -> (r: bool)
        ensures
            r == spec_is_statement(self@),
    {
        matches!(self, Node::Assign { .. })
    }
}

} // verus!
