//! The fatal, fail-fast anomalies the parser and the tree builder can
//! report. Lexical anomalies never appear here: the lexer folds them into
//! `Undefined` tokens instead.

use vstd::prelude::*;

verus! {

/// A structural anomaly that terminates the whole parse.
#[derive(PartialEq, Eq, Structural, Debug, Clone, Copy)]
pub enum Error {
    /// A `)` with no `(` open on the operator stack.
    UnmatchedRightParen,
    /// A token the tree builder has no rule for (keywords, brackets, a
    /// stray delimiter, or an `Undefined` lexical anomaly).
    UnrecognizedToken,
    /// An operator asked for more operands than the stack held.
    MissingOperand,
    /// The target of an assignment was not an identifier.
    AssignToNonIdentifier,
    /// A statement did not reduce to exactly one root node.
    RootCount,
    /// A statement's single root was not statement-shaped.
    NonStatementRoot,
}

} // verus!
