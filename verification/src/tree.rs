//! The tree builder: turns one statement's postfix token sequence into a
//! single statement-shaped syntax tree, and the whole pipeline from source
//! text to a statement list.
//!
//! `!` and `~` are always unary. `-` is unary exactly when the operand
//! stack is empty or every node on it is unary-ready; this positional rule
//! over already-built nodes is kept exactly as stated, not replaced by a
//! lookahead grammar. Any other operator takes two operands; an assignment
//! additionally demands an identifier target.

use vstd::prelude::*;

use crate::ast::{spec_is_statement, spec_is_unary_op_ready, Node, SpecNode};
use crate::error::Error;
use crate::lexer::{lex_tokens, Lexer};
use crate::parser::{spec_parse, Parser, ShuntOutcome};
use crate::token::{spec_is_op, spec_is_un_op, SpecToken, SpecTokenKind, Token, TokenKind};

verus! {

/// Whether a `-` in postfix is unary: the operand stack is empty, or every
/// node on it is unary-ready.
pub open spec fn minus_is_unary(stack: Seq<SpecNode>) -> bool {
    forall|i: int| 0 <= i < stack.len() ==> spec_is_unary_op_ready(#[trigger] stack[i])
}

/// One tree-building step per postfix token, over an operand stack of
/// partly built nodes; at the end exactly one statement-shaped root must
/// remain.
pub open spec fn build_from(toks: Seq<SpecToken>, k: nat, stack: Seq<SpecNode>) -> Result<
    SpecNode,
    Error,
>
    decreases toks.len() - k,
{
    if k >= toks.len() {
        if stack.len() == 1 {
            if spec_is_statement(stack[0]) {
                Ok(stack[0])
            } else {
                Err(Error::NonStatementRoot)
            }
        } else {
            Err(Error::RootCount)
        }
    } else {
        let t = toks[k as int];
        match t.kind {
            SpecTokenKind::Ident(s) => build_from(toks, k + 1, stack.push(SpecNode::Ident(s))),
            SpecTokenKind::Number(s) => build_from(
                toks,
                k + 1,
                stack.push(SpecNode::NumberLiteral(s)),
            ),
            SpecTokenKind::String(s) => build_from(
                toks,
                k + 1,
                stack.push(SpecNode::StringLiteral(s)),
            ),
            SpecTokenKind::True => build_from(
                toks,
                k + 1,
                stack.push(SpecNode::BooleanLiteral(true)),
            ),
            SpecTokenKind::False => build_from(
                toks,
                k + 1,
                stack.push(SpecNode::BooleanLiteral(false)),
            ),
            _ => {
                if spec_is_un_op(t.kind) || (t.kind is Minus && minus_is_unary(stack)) {
                    if stack.len() >= 1 {
                        build_from(
                            toks,
                            k + 1,
                            stack.drop_last().push(
                                SpecNode::UnaryExpr { op: t, rhs: Box::new(stack.last()) },
                            ),
                        )
                    } else {
                        Err(Error::MissingOperand)
                    }
                } else if spec_is_op(t.kind) {
                    if stack.len() >= 2 {
                        let rhs = stack.last();
                        let lhs = stack.drop_last().last();
                        let rest = stack.drop_last().drop_last();
                        if t.kind is Assign {
                            match lhs {
                                SpecNode::Ident(name) => build_from(
                                    toks,
                                    k + 1,
                                    rest.push(
                                        SpecNode::Assign { name, value: Box::new(rhs) },
                                    ),
                                ),
                                _ => Err(Error::AssignToNonIdentifier),
                            }
                        } else {
                            build_from(
                                toks,
                                k + 1,
                                rest.push(
                                    SpecNode::BinExpr {
                                        op: t,
                                        lhs: Box::new(lhs),
                                        rhs: Box::new(rhs),
                                    },
                                ),
                            )
                        }
                    } else {
                        Err(Error::MissingOperand)
                    }
                } else {
                    Err(Error::UnrecognizedToken)
                }
            },
        }
    }
}

/// The tree a postfix token sequence builds, or the fatal anomaly it hits.
pub open spec fn spec_build(toks: Seq<SpecToken>) -> Result<SpecNode, Error> {
    build_from(toks, 0, Seq::empty())
}

/// Whether every node on the operand stack is unary-ready.
fn all_unary_ready(stack: &Vec<Node>) -> (r: bool)
    ensures
        r == minus_is_unary(stack.deep_view()),
{
    let mut i: usize = 0;
    while i < stack.len()
        invariant
            0 <= i <= stack.deep_view().len(),
            stack.deep_view().len() == stack@.len(),
            forall|j: int| 0 <= j < i ==> spec_is_unary_op_ready(#[trigger] stack.deep_view()[j]),
        decreases stack.len() - i,
    {
        if !stack[i].is_unary_op_ready_node() {
            proof {
                assert(!spec_is_unary_op_ready(stack.deep_view()[i as int]));
            }
            return false;
        }
        i = i + 1;
    }
    true
}

/// Build the tree for one statement's postfix token sequence: literals
/// push leaves, operators pop their operands, and exactly one
/// statement-shaped root must remain.
pub fn build_tree(tokens: Vec<Token>) -> (r: Result<Node, Error>)
    ensures
        match r {
            Ok(n) => spec_build(tokens.deep_view()) == Ok::<SpecNode, Error>(n@),
            Err(e) => spec_build(tokens.deep_view()) == Err::<SpecNode, Error>(e),
        },
{
    let ghost full = tokens.deep_view();
    let mut toks = tokens;
    let mut stack: Vec<Node> = Vec::new();
    let ghost mut k: nat = 0;
    proof {
        assert(toks.deep_view() =~= full.skip(0));
        assert(stack.deep_view() =~= Seq::<SpecNode>::empty());
    }
    while toks.len() > 0
        invariant
            full == tokens.deep_view(),
            k + toks.deep_view().len() == full.len(),
            toks.deep_view() == full.skip(k as int),
            spec_build(full) == build_from(full, k, stack.deep_view()),
        decreases toks.len(),
    {
        let ghost k0 = k;
        let ghost st0 = stack.deep_view();
        let ghost toks0 = toks.deep_view();
        let ghost tv0 = toks@;
        let t = toks.remove(0);
        let span = t.span;
        proof {
            k = k0 + 1;
            assert(toks0[0] == tv0[0]@);
            assert(t@ == full[k0 as int]);
            assert forall|i: int| 0 <= i < toks.deep_view().len() implies toks.deep_view()[i]
                == full.skip(k as int)[i] by {
                assert(toks@[i] == tv0[i + 1]);
                assert(toks.deep_view()[i] == tv0[i + 1]@);
                assert(toks0[i + 1] == tv0[i + 1]@);
                assert(toks0[i + 1] == full[k0 + 1 + i]);
            }
            assert(toks.deep_view() =~= full.skip(k as int));
        }
        match t.kind {
            TokenKind::Ident(s) => {
                stack.push(Node::Ident(s));
                proof {
                    assert(stack.deep_view() =~= st0.push(SpecNode::Ident(s@)));
                }
            },
            TokenKind::Number(s) => {
                stack.push(Node::NumberLiteral(s));
                proof {
                    assert(stack.deep_view() =~= st0.push(SpecNode::NumberLiteral(s@)));
                }
            },
            TokenKind::String(s) => {
                stack.push(Node::StringLiteral(s));
                proof {
                    assert(stack.deep_view() =~= st0.push(SpecNode::StringLiteral(s@)));
                }
            },
            TokenKind::True => {
                stack.push(Node::BooleanLiteral(true));
                proof {
                    assert(stack.deep_view() =~= st0.push(SpecNode::BooleanLiteral(true)));
                }
            },
            TokenKind::False => {
                stack.push(Node::BooleanLiteral(false));
                proof {
                    assert(stack.deep_view() =~= st0.push(SpecNode::BooleanLiteral(false)));
                }
            },
            other => {
                let tok = Token { kind: other, span };
                proof {
                    assert(tok@ == full[k0 as int]);
                }
                let unary = if tok.is_un_op() {
                    true
                } else if matches!(tok.kind, TokenKind::Minus) {
                    all_unary_ready(&stack)
                } else {
                    false
                };
                if unary {
                    let rhs = match stack.pop() {
                        Some(n) => n,
                        None => {
                            return Err(Error::MissingOperand);
                        },
                    };
                    stack.push(Node::UnaryExpr { op: tok, rhs: Box::new(rhs) });
                    proof {
                        assert(stack.deep_view() =~= st0.drop_last().push(
                            SpecNode::UnaryExpr { op: full[k0 as int], rhs: Box::new(st0.last()) },
                        ));
                    }
                } else if tok.is_op() {
                    let rhs = match stack.pop() {
                        Some(n) => n,
                        None => {
                            return Err(Error::MissingOperand);
                        },
                    };
                    let lhs = match stack.pop() {
                        Some(n) => n,
                        None => {
                            return Err(Error::MissingOperand);
                        },
                    };
                    proof {
                        assert(rhs@ == st0.last());
                        assert(lhs@ == st0.drop_last().last());
                        assert(stack.deep_view() =~= st0.drop_last().drop_last());
                    }
                    if matches!(tok.kind, TokenKind::Assign) {
                        match lhs {
                            Node::Ident(name) => {
                                stack.push(Node::Assign { name, value: Box::new(rhs) });
                                proof {
                                    assert(stack.deep_view() =~= st0.drop_last().drop_last().push(
                                        SpecNode::Assign {
                                            name: st0.drop_last().last()->Ident_0,
                                            value: Box::new(st0.last()),
                                        },
                                    ));
                                }
                            },
                            _ => {
                                return Err(Error::AssignToNonIdentifier);
                            },
                        }
                    } else {
                        stack.push(Node::BinExpr { op: tok, lhs: Box::new(lhs), rhs: Box::new(rhs) });
                        proof {
                            assert(stack.deep_view() =~= st0.drop_last().drop_last().push(
                                SpecNode::BinExpr {
                                    op: full[k0 as int],
                                    lhs: Box::new(st0.drop_last().last()),
                                    rhs: Box::new(st0.last()),
                                },
                            ));
                        }
                    }
                } else {
                    return Err(Error::UnrecognizedToken);
                }
            },
        }
        proof {
            assert(spec_build(full) == build_from(full, k, stack.deep_view()));
        }
    }
    if stack.len() == 1 {
        let root = match stack.pop() {
            Some(n) => n,
            None => {
                return Err(Error::RootCount);
            },
        };
        if root.is_statement() {
            Ok(root)
        } else {
            Err(Error::NonStatementRoot)
        }
    } else {
        Err(Error::RootCount)
    }
}

/// Build the trees of a parsed statement list, skipping empty postfix
/// sequences (blank or comment-only statements), and stopping at the
/// first fatal anomaly.
pub open spec fn build_all(stmts: Seq<Seq<SpecToken>>, k: nat, acc: Seq<SpecNode>) -> Result<
    Seq<SpecNode>,
    Error,
>
    decreases stmts.len() - k,
{
    if k >= stmts.len() {
        Ok(acc)
    } else if stmts[k as int].len() == 0 {
        build_all(stmts, k + 1, acc)
    } else {
        match spec_build(stmts[k as int]) {
            Ok(n) => build_all(stmts, k + 1, acc.push(n)),
            Err(e) => Err(e),
        }
    }
}

/// What the whole pipeline yields for a source text: the statement roots
/// in order, or its first fatal anomaly.
pub open spec fn spec_statements(s: Seq<char>) -> Result<Seq<SpecNode>, Error> {
    match spec_parse(lex_tokens(s), Seq::empty()) {
        ShuntOutcome::Fail(_) => Err(Error::UnmatchedRightParen),
        ShuntOutcome::Done(stmts) => build_all(stmts, 0, Seq::empty()),
    }
}

/// The whole pipeline: lex the text, reorder each statement into postfix,
/// and build one tree per non-empty statement. Empty input yields an empty
/// statement list.
pub fn statements(input: &str) -> (r: Result<Vec<Node>, Error>)
    requires
        input@.len() < usize::MAX,
    ensures
        match r {
            Ok(v) => spec_statements(input@) == Ok::<Seq<SpecNode>, Error>(v.deep_view()),
            Err(e) => spec_statements(input@) == Err::<Seq<SpecNode>, Error>(e),
        },
{
    let lexer = Lexer::new(input);
    let mut parser = Parser::new(lexer);
    proof {
        assert(parser.pending() == lex_tokens(input@));
        assert(parser.ops() =~= Seq::<SpecToken>::empty());
    }
    let mut stmts = match parser.parse() {
        Ok(v) => v,
        Err(e) => {
            return Err(e);
        },
    };
    let ghost all = stmts.deep_view();
    let mut nodes: Vec<Node> = Vec::new();
    let ghost mut k: nat = 0;
    proof {
        assert(stmts.deep_view() =~= all.skip(0));
        assert(nodes.deep_view() =~= Seq::<SpecNode>::empty());
    }
    while stmts.len() > 0
        invariant
            k + stmts.deep_view().len() == all.len(),
            stmts.deep_view() == all.skip(k as int),
            spec_statements(input@) == build_all(all, k, nodes.deep_view()),
        decreases stmts.len(),
    {
        let ghost k0 = k;
        let ghost nodes0 = nodes.deep_view();
        let ghost sd0 = stmts.deep_view();
        let ghost sv0 = stmts@;
        let stmt = stmts.remove(0);
        proof {
            k = k0 + 1;
            assert(sd0[0] == sv0[0].deep_view());
            assert(stmt.deep_view() == all[k0 as int]);
            assert forall|i: int| 0 <= i < stmts.deep_view().len() implies stmts.deep_view()[i]
                == all.skip(k as int)[i] by {
                assert(stmts@[i] == sv0[i + 1]);
                assert(stmts.deep_view()[i] == sv0[i + 1].deep_view());
                assert(sd0[i + 1] == sv0[i + 1].deep_view());
                assert(sd0[i + 1] == all[k0 + 1 + i]);
            }
            assert(stmts.deep_view() =~= all.skip(k as int));
        }
        if stmt.len() > 0 {
            match build_tree(stmt) {
                Ok(n) => {
                    nodes.push(n);
                    proof {
                        assert(nodes.deep_view() =~= nodes0.push(n@));
                    }
                },
                Err(e) => {
                    return Err(e);
                },
            }
        }
    }
    Ok(nodes)
}

} // verus!
