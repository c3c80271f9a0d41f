//! The shunting-yard parser: consumes the token stream and reorders each
//! statement's infix tokens into postfix order, honouring precedence,
//! associativity, parentheses and statement delimiters.
//!
//! The algorithm is modelled by `shunt_from`; the executable `Parser` is
//! proved to compute exactly its outcome. Comments are filtered out here,
//! before the reordering, so they never reach the tree builder. An
//! unmatched `)` is the one fatal parse error; a statement left with open
//! `(` on the stack is flushed silently, a documented looseness of the
//! design that is kept as it is.

use vstd::prelude::*;

use crate::error::Error;
use crate::lexer::{items_to_tokens, Lexer};
use crate::token::{
    spec_associativity, spec_is_op, spec_precedence, Association, SpecToken, SpecTokenKind, Token,
    TokenKind,
};

verus! {

/// What a parse yields: one postfix sequence per statement, or the index
/// of an unmatched right parenthesis.
pub enum ShuntOutcome {
    Done(Seq<Seq<SpecToken>>),
    Fail(nat),
}

/// The operators popped (in pop order) before an incoming operator `t` is
/// pushed, and the stack that remains: the top is popped while it is no
/// `(` and binds strictly tighter than `t`, or equally tight while `t` is
/// left-associative.
pub open spec fn pop_for_op(t: SpecTokenKind, ops: Seq<SpecToken>) -> (Seq<SpecToken>, Seq<
    SpecToken,
>)
    decreases ops.len(),
{
    if ops.len() == 0 {
        (Seq::empty(), ops)
    } else {
        let top = ops.last();
        if top.kind is LParen {
            (Seq::empty(), ops)
        } else if spec_precedence(top.kind) > spec_precedence(t) || (spec_precedence(top.kind)
            == spec_precedence(t) && spec_associativity(t) == Association::LTR) {
            let rec = pop_for_op(t, ops.drop_last());
            (seq![top] + rec.0, rec.1)
        } else {
            (Seq::empty(), ops)
        }
    }
}

/// The operators popped (in pop order) down to the nearest `(`, and the
/// stack that remains once that `(` is discarded; `None` when no `(` is
/// open.
pub open spec fn pop_to_lparen(ops: Seq<SpecToken>) -> Option<(Seq<SpecToken>, Seq<SpecToken>)>
    decreases ops.len(),
{
    if ops.len() == 0 {
        None
    } else {
        let top = ops.last();
        if top.kind is LParen {
            Some((Seq::<SpecToken>::empty(), ops.drop_last()))
        } else {
            match pop_to_lparen(ops.drop_last()) {
                None => None,
                Some(rec) => Some((seq![top] + rec.0, rec.1)),
            }
        }
    }
}

/// The whole operator stack, in pop order.
pub open spec fn pop_all(ops: Seq<SpecToken>) -> Seq<SpecToken>
    decreases ops.len(),
{
    if ops.len() == 0 {
        Seq::empty()
    } else {
        seq![ops.last()] + pop_all(ops.drop_last())
    }
}

/// One step per token from index `k` on: operands go to the output queue,
/// `(` is pushed as a barrier, `)` pops down to its `(`, other operators
/// pop by precedence and are pushed, a delimiter flushes the stack and
/// completes the statement, and comments are dropped. At the end of input
/// the stack is flushed and a non-empty queue becomes a final, implicitly
/// terminated statement.
pub open spec fn shunt_from(
    toks: Seq<SpecToken>,
    k: nat,
    ops: Seq<SpecToken>,
    out: Seq<SpecToken>,
    done: Seq<Seq<SpecToken>>,
) -> ShuntOutcome
    decreases toks.len() - k,
{
    if k >= toks.len() {
        let flushed = out + pop_all(ops);
        if flushed.len() == 0 {
            ShuntOutcome::Done(done)
        } else {
            ShuntOutcome::Done(done.push(flushed))
        }
    } else {
        let t = toks[k as int];
        if t.kind is Comment {
            shunt_from(toks, k + 1, ops, out, done)
        } else if t.kind is Delimeter {
            shunt_from(toks, k + 1, Seq::empty(), Seq::empty(), done.push(out + pop_all(ops)))
        } else if !spec_is_op(t.kind) {
            shunt_from(toks, k + 1, ops, out.push(t), done)
        } else if t.kind is LParen {
            shunt_from(toks, k + 1, ops.push(t), out, done)
        } else if t.kind is RParen {
            match pop_to_lparen(ops) {
                None => ShuntOutcome::Fail(k),
                Some(rec) => shunt_from(toks, k + 1, rec.1, out + rec.0, done),
            }
        } else {
            let rec = pop_for_op(t.kind, ops);
            shunt_from(toks, k + 1, rec.1.push(t), out + rec.0, done)
        }
    }
}

/// The outcome of parsing a token sequence with an initial operator stack.
pub open spec fn spec_parse(toks: Seq<SpecToken>, ops: Seq<SpecToken>) -> ShuntOutcome {
    shunt_from(toks, 0, ops, Seq::empty(), Seq::empty())
}

/// Whether the parser pops the stack's top before pushing operator `t`.
fn should_pop(ops: &Vec<Token>, t: &Token) -> (r: bool)
    ensures
        r == ({
            let o = ops.deep_view();
            o.len() > 0 && !(o.last().kind is LParen) && (spec_precedence(o.last().kind)
                > spec_precedence(t@.kind) || (spec_precedence(o.last().kind) == spec_precedence(
                t@.kind,
            ) && spec_associativity(t@.kind) == Association::LTR))
        }),
{
    if ops.len() == 0 {
        return false;
    }
    let top = &ops[ops.len() - 1];
    if matches!(top.kind, TokenKind::LParen) {
        return false;
    }
    let tp = top.get_precedence();
    let cp = t.get_precedence();
    tp > cp || (tp == cp && t.get_associativity() == Association::LTR)
}

/// Pop every operator from `ops` into `out`, in pop order.
fn flush_into(ops: &mut Vec<Token>, out: &mut Vec<Token>)
    ensures
        final(ops)@.len() == 0,
        final(out).deep_view() == old(out).deep_view() + pop_all(old(ops).deep_view()),
{
    while ops.len() > 0
        invariant
            out.deep_view() + pop_all(ops.deep_view()) == old(out).deep_view() + pop_all(
                old(ops).deep_view(),
            ),
        decreases ops.len(),
    {
        let ghost ops0 = ops.deep_view();
        let ghost out0 = out.deep_view();
        let t = ops.pop().unwrap();
        out.push(t);
        proof {
            assert(ops.deep_view() =~= ops0.drop_last());
            assert(out.deep_view() =~= out0.push(ops0.last()));
            assert(out.deep_view() + pop_all(ops.deep_view()) =~= out0 + pop_all(ops0));
        }
    }
    proof {
        assert(final(out).deep_view() =~= old(out).deep_view() + pop_all(old(ops).deep_view()));
    }
}

/// The parser: owns the lexer it drains and the operator stack.
pub struct Parser<'a> {
    tokens: Lexer<'a>,
    pub op_stack: Vec<Token>,
}

impl<'a> Parser<'a> {
    /// The parser's invariant: its lexer is well formed.
    pub closed spec fn wf(&self) -> bool {
        self.tokens.wf()
    }

    /// The tokens the parser has yet to consume.
    pub closed spec fn pending(&self) -> Seq<SpecToken> {
        items_to_tokens(self.tokens@.remaining())
    }

    /// The operator stack's contents, bottom first.
    pub closed spec fn ops(&self) -> Seq<SpecToken> {
        self.op_stack.deep_view()
    }

    /// A parser over the given token stream, with an empty operator stack.
    pub fn new(tokens: Lexer<'a>) -> (r: Parser<'a>)
        requires
            tokens.wf(),
        ensures
            r.wf(),
            r.pending() == items_to_tokens(tokens@.remaining()),
            r.ops().len() == 0,
    {
        Parser { tokens, op_stack: Vec::new() }
    }

    /// Drain the token stream and reorder it into one postfix sequence per
    /// statement. Fails exactly on an unmatched right parenthesis, leaving
    /// the tokens after it unconsumed.
    pub fn parse(&mut self) -> (r: Result<Vec<Vec<Token>>, Error>)
        requires
            old(self).wf(),
        ensures
            final(self).wf(),
            final(self).ops().len() == 0,
            match r {
                Ok(v) => {
                    &&& spec_parse(old(self).pending(), old(self).ops())
                        == ShuntOutcome::Done(v.deep_view())
                    &&& final(self).pending().len() == 0
                },
                Err(e) => {
                    &&& e == Error::UnmatchedRightParen
                    &&& spec_parse(old(self).pending(), old(self).ops())
                        matches ShuntOutcome::Fail(kk) && final(self).pending() == old(
                        self,
                    ).pending().skip(kk as int + 1)
                },
            },
    {
        let ghost toks = self.pending();
        let ghost ops0 = self.op_stack.deep_view();
        let ghost mut k: nat = 0;
        let mut out_stack: Vec<Token> = Vec::new();
        let mut done: Vec<Vec<Token>> = Vec::new();
        proof {
            assert(self.pending() =~= toks.skip(0));
            assert(out_stack.deep_view() =~= Seq::<SpecToken>::empty());
            assert(done.deep_view() =~= Seq::<Seq<SpecToken>>::empty());
        }
        loop
            invariant
                self.wf(),
                toks == old(self).pending(),
                ops0 == old(self).ops(),
                k <= toks.len(),
                self.pending() == toks.skip(k as int),
                spec_parse(toks, ops0) == shunt_from(
                    toks,
                    k,
                    self.op_stack.deep_view(),
                    out_stack.deep_view(),
                    done.deep_view(),
                ),
            ensures
                self.wf(),
                k == toks.len(),
                self.pending().len() == 0,
                spec_parse(toks, ops0) == shunt_from(
                    toks,
                    k,
                    self.op_stack.deep_view(),
                    out_stack.deep_view(),
                    done.deep_view(),
                ),
            decreases toks.len() - k,
        {
            let ghost k0 = k;
            let ghost rem0 = self.pending();
            let ghost items0 = self.tokens@.remaining();
            let topt = self.tokens.next();
            let token = match topt {
                None => {
                    proof {
                        assert(rem0.len() == items0.len());
                        assert(rem0.len() == 0);
                        assert(toks.skip(k0 as int).len() == 0);
                        assert(k0 == toks.len());
                    }
                    break ;
                },
                Some(t) => t,
            };
            proof {
                k = k0 + 1;
                assert(items_to_tokens(items0.drop_first()) =~= items_to_tokens(
                    items0,
                ).drop_first());
                assert(rem0 == items_to_tokens(items0));
                assert(rem0.len() == items0.len());
                assert(rem0[0] == items0[0].token());
                assert(rem0[0] == toks.skip(k0 as int)[0]);
                assert(toks.skip(k0 as int)[0] == toks[k0 as int]);
                assert(token@ == toks[k0 as int]);
                assert(self.pending() =~= toks.skip(k as int));
            }
            if matches!(token.kind, TokenKind::Comment(_)) {
                proof {
                    assert(toks[k0 as int].kind is Comment);
                    assert(spec_parse(toks, ops0) == shunt_from(
                        toks,
                        k,
                        self.op_stack.deep_view(),
                        out_stack.deep_view(),
                        done.deep_view(),
                    ));
                }
            } else if matches!(token.kind, TokenKind::Delimeter) {
                let ghost ops_b = self.op_stack.deep_view();
                let ghost out_b = out_stack.deep_view();
                let ghost done_b = done.deep_view();
                proof {
                    assert(toks[k0 as int].kind is Delimeter);
                    assert(!(toks[k0 as int].kind is Comment));
                }
                flush_into(&mut self.op_stack, &mut out_stack);
                let stmt = out_stack;
                out_stack = Vec::new();
                done.push(stmt);
                proof {
                    assert(done.deep_view() =~= done_b.push(out_b + pop_all(ops_b)));
                    assert(out_stack.deep_view() =~= Seq::<SpecToken>::empty());
                    assert(self.op_stack.deep_view() =~= Seq::<SpecToken>::empty());
                    assert(spec_parse(toks, ops0) == shunt_from(
                        toks,
                        k,
                        self.op_stack.deep_view(),
                        out_stack.deep_view(),
                        done.deep_view(),
                    ));
                }
            } else if !token.is_op() {
                let ghost out_b = out_stack.deep_view();
                proof {
                    assert(!(toks[k0 as int].kind is Comment));
                    assert(!(toks[k0 as int].kind is Delimeter));
                    assert(!spec_is_op(toks[k0 as int].kind));
                }
                out_stack.push(token);
                proof {
                    assert(out_stack.deep_view() =~= out_b.push(toks[k0 as int]));
                    assert(spec_parse(toks, ops0) == shunt_from(
                        toks,
                        k,
                        self.op_stack.deep_view(),
                        out_stack.deep_view(),
                        done.deep_view(),
                    ));
                }
            } else if matches!(token.kind, TokenKind::LParen) {
                let ghost ops_b = self.op_stack.deep_view();
                proof {
                    assert(toks[k0 as int].kind is LParen);
                    assert(spec_is_op(toks[k0 as int].kind));
                }
                self.op_stack.push(token);
                proof {
                    assert(self.op_stack.deep_view() =~= ops_b.push(toks[k0 as int]));
                    assert(spec_parse(toks, ops0) == shunt_from(
                        toks,
                        k,
                        self.op_stack.deep_view(),
                        out_stack.deep_view(),
                        done.deep_view(),
                    ));
                }
            } else if matches!(token.kind, TokenKind::RParen) {
                let ghost ops_entry = self.op_stack.deep_view();
                let ghost out_entry = out_stack.deep_view();
                let ghost mut mv: Seq<SpecToken> = Seq::empty();
                proof {
                    assert(toks[k0 as int].kind is RParen);
                    assert(spec_is_op(toks[k0 as int].kind));
                }
                loop
                    invariant_except_break
                        pop_to_lparen(ops_entry) is None <==> pop_to_lparen(
                            self.op_stack.deep_view(),
                        ) is None,
                        pop_to_lparen(ops_entry) matches Some(r0) ==> (pop_to_lparen(
                            self.op_stack.deep_view(),
                        ) matches Some(r1) && r0.0 == mv + r1.0 && r0.1 == r1.1),
                    invariant
                        self.wf(),
                        toks == old(self).pending(),
                        ops0 == old(self).ops(),
                        k0 < toks.len(),
                        k == k0 + 1,
                        toks[k0 as int].kind is RParen,
                        spec_parse(toks, ops0) == shunt_from(
                            toks,
                            k0,
                            ops_entry,
                            out_entry,
                            done.deep_view(),
                        ),
                        self.pending() == toks.skip(k as int),
                        out_stack.deep_view() == out_entry + mv,
                    ensures
                        self.wf(),
                        self.pending() == toks.skip(k as int),
                        pop_to_lparen(ops_entry) matches Some(r0) && out_stack.deep_view()
                            == out_entry + r0.0 && self.op_stack.deep_view() == r0.1,
                    decreases self.op_stack.deep_view().len(),
                {
                    proof {
                        assert(out_entry + Seq::<SpecToken>::empty() =~= out_entry);
                    }
                    if self.op_stack.len() == 0 {
                        proof {
                            assert(self.op_stack.deep_view().len() == 0);
                            assert(pop_to_lparen(self.op_stack.deep_view()) is None);
                            assert(pop_to_lparen(ops_entry) is None);
                            assert(toks[k0 as int].kind is RParen);
                            assert(shunt_from(toks, k0, ops_entry, out_entry, done.deep_view())
                                == ShuntOutcome::Fail(k0));
                            assert(spec_parse(toks, ops0) == ShuntOutcome::Fail(k0));
                        }
                        return Err(Error::UnmatchedRightParen);
                    }
                    let ghost cur0 = self.op_stack.deep_view();
                    let top = self.op_stack.pop().unwrap();
                    proof {
                        assert(self.op_stack.deep_view() =~= cur0.drop_last());
                        assert(top@ == cur0.last());
                    }
                    if matches!(top.kind, TokenKind::LParen) {
                        proof {
                            assert(pop_to_lparen(cur0) matches Some(r1) && r1.0
                                == Seq::<SpecToken>::empty() && r1.1 == cur0.drop_last());
                            assert(pop_to_lparen(ops_entry) matches Some(r0) && r0.0 =~= mv
                                && r0.1 == cur0.drop_last());
                        }
                        break ;
                    } else {
                        let ghost mv0 = mv;
                        let ghost o0 = out_stack.deep_view();
                        out_stack.push(top);
                        proof {
                            mv = mv0.push(cur0.last());
                            assert(out_stack.deep_view() =~= o0.push(cur0.last()));
                            assert(out_stack.deep_view() =~= out_entry + mv);
                            match pop_to_lparen(ops_entry) {
                                Some(r0) => {
                                    match pop_to_lparen(cur0.drop_last()) {
                                        Some(r1) => {
                                            assert(r0.0 =~= mv + r1.0);
                                        },
                                        None => {},
                                    }
                                },
                                None => {},
                            }
                        }
                    }
                }
                proof {
                    match pop_to_lparen(ops_entry) {
                        Some(rec) => {
                            assert(self.op_stack.deep_view() == rec.1);
                            assert(out_stack.deep_view() == out_entry + rec.0);
                            assert(spec_parse(toks, ops0) == shunt_from(
                                toks,
                                k,
                                self.op_stack.deep_view(),
                                out_stack.deep_view(),
                                done.deep_view(),
                            ));
                        },
                        None => {
                            assert(false);
                        },
                    }
                }
            } else {
                let ghost tk = token@.kind;
                let ghost ops_entry = self.op_stack.deep_view();
                let ghost out_entry = out_stack.deep_view();
                proof {
                    assert(!(toks[k0 as int].kind is Comment));
                    assert(!(toks[k0 as int].kind is Delimeter));
                    assert(spec_is_op(toks[k0 as int].kind));
                    assert(!(toks[k0 as int].kind is LParen));
                    assert(!(toks[k0 as int].kind is RParen));
                }
                while should_pop(&self.op_stack, &token)
                    invariant
                        self.wf(),
                        tk == token@.kind,
                        self.pending() == toks.skip(k as int),
                        pop_for_op(tk, ops_entry).1 == pop_for_op(
                            tk,
                            self.op_stack.deep_view(),
                        ).1,
                        out_entry + pop_for_op(tk, ops_entry).0 == out_stack.deep_view()
                            + pop_for_op(tk, self.op_stack.deep_view()).0,
                    decreases self.op_stack.deep_view().len(),
                {
                    let ghost cur0 = self.op_stack.deep_view();
                    proof {
                        assert(cur0.len() > 0);
                        assert(!(cur0.last().kind is LParen));
                    }
                    let top = self.op_stack.pop().unwrap();
                    let ghost o0 = out_stack.deep_view();
                    out_stack.push(top);
                    proof {
                        assert(self.op_stack.deep_view() =~= cur0.drop_last());
                        assert(out_stack.deep_view() =~= o0.push(cur0.last()));
                        assert(!(cur0.last().kind is LParen));
                        assert(spec_precedence(cur0.last().kind) > spec_precedence(tk) || (
                        spec_precedence(cur0.last().kind) == spec_precedence(tk)
                            && spec_associativity(tk) == Association::LTR));
                        let rec = pop_for_op(tk, cur0.drop_last());
                        assert(pop_for_op(tk, cur0).0 =~= seq![cur0.last()] + rec.0);
                        assert(pop_for_op(tk, cur0).1 =~= rec.1);
                        assert(o0 + (seq![cur0.last()] + rec.0) =~= o0.push(cur0.last()) + rec.0);
                    }
                }
                let ghost ops_c = self.op_stack.deep_view();
                let ghost out_c = out_stack.deep_view();
                self.op_stack.push(token);
                proof {
                    assert(pop_for_op(tk, ops_c).0 =~= Seq::<SpecToken>::empty());
                    assert(pop_for_op(tk, ops_c).1 == ops_c);
                    assert(out_c + pop_for_op(tk, ops_c).0 =~= out_c);
                    assert(pop_for_op(tk, ops_entry).1 == ops_c);
                    assert(out_c =~= out_entry + pop_for_op(tk, ops_entry).0);
                    assert(self.op_stack.deep_view() =~= pop_for_op(tk, ops_entry).1.push(
                        toks[k0 as int],
                    ));
                    assert(spec_parse(toks, ops0) == shunt_from(
                        toks,
                        k,
                        self.op_stack.deep_view(),
                        out_stack.deep_view(),
                        done.deep_view(),
                    ));
                }
            }
        }
        let ghost ops_f = self.op_stack.deep_view();
        let ghost out_f = out_stack.deep_view();
        flush_into(&mut self.op_stack, &mut out_stack);
        if out_stack.len() == 0 {
            proof {
                assert(out_f + pop_all(ops_f) =~= out_stack.deep_view());
            }
            Ok(done)
        } else {
            let ghost done_f = done.deep_view();
            let flushed = out_stack;
            done.push(flushed);
            proof {
                assert(done.deep_view() =~= done_f.push(out_f + pop_all(ops_f)));
            }
            Ok(done)
        }
    }
}

} // verus!
