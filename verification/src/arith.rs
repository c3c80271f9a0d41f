//! The precedence law for the arithmetic fragment: an infix expression
//! over numeric literals, `+ - * /` and parentheses, written with the
//! standard conventions, is reordered by the parser into exactly the
//! postfix of its standard-precedence tree, and the tree builder rebuilds
//! exactly that tree.
//!
//! A well-formed expression is represented by its derivation: an `AForm`
//! records the tokens and the parenthesization, and `wf_form` holds the
//! grammar's levels — a binary node must bind at least as tight as its
//! context, its left child at least as tight as itself (left
//! associativity), and its right child strictly tighter.

use vstd::prelude::*;

use crate::ast::{spec_is_unary_op_ready, SpecNode};
use crate::error::Error;
use crate::parser::{pop_all, pop_for_op, pop_to_lparen, shunt_from, spec_parse, ShuntOutcome};
use crate::token::{
    spec_associativity, spec_is_op, spec_precedence, Association, SpecToken, SpecTokenKind,
};
use crate::tree::{build_from, minus_is_unary, spec_build};

verus! {

/// The derivation of a well-formed arithmetic expression: a numeric
/// literal, a parenthesised subexpression, or an infix application of one
/// of the four arithmetic operators. Each constructor carries the very
/// tokens of the source, parentheses included.
pub enum AForm {
    Num(SpecToken),
    Paren(SpecToken, SpecToken, Box<AForm>),
    Bin(SpecToken, Box<AForm>, Box<AForm>),
}

/// The four binary arithmetic operators.
pub open spec fn is_arith_bin(k: SpecTokenKind) -> bool {
    k is Plus || k is Minus || k is Multiply || k is Divide
}

/// Well-formedness of a derivation at a binding level: a binary node
/// binds at least as tight as `lv`, its left child at least as tight as
/// the node, its right child strictly tighter; parentheses reset the
/// level to the loosest arithmetic one.
pub open spec fn wf_form(f: AForm, lv: int) -> bool
    decreases f,
{
    match f {
        AForm::Num(t) => t.kind is Number,
        AForm::Paren(lp, rp, g) => lp.kind is LParen && rp.kind is RParen && wf_form(
            *g,
            spec_precedence(SpecTokenKind::Plus) as int,
        ),
        AForm::Bin(op, l, r) => {
            &&& is_arith_bin(op.kind)
            &&& spec_precedence(op.kind) >= lv
            &&& wf_form(*l, spec_precedence(op.kind) as int)
            &&& wf_form(*r, spec_precedence(op.kind) + 1)
        },
    }
}

/// The infix token sequence the derivation spells.
pub open spec fn infix_of(f: AForm) -> Seq<SpecToken>
    decreases f,
{
    match f {
        AForm::Num(t) => seq![t],
        AForm::Paren(lp, rp, g) => seq![lp] + infix_of(*g) + seq![rp],
        AForm::Bin(op, l, r) => infix_of(*l) + seq![op] + infix_of(*r),
    }
}

/// The postfix (reverse-Polish) token sequence of the derivation;
/// parentheses vanish.
pub open spec fn rpn_of(f: AForm) -> Seq<SpecToken>
    decreases f,
{
    match f {
        AForm::Num(t) => seq![t],
        AForm::Paren(lp, rp, g) => rpn_of(*g),
        AForm::Bin(op, l, r) => rpn_of(*l) + rpn_of(*r) + seq![op],
    }
}

/// The part of the postfix already written to the output queue once the
/// expression's tokens are consumed; the rest waits on the operator
/// stack.
pub open spec fn emitted_of(f: AForm) -> Seq<SpecToken>
    decreases f,
{
    match f {
        AForm::Num(t) => seq![t],
        AForm::Paren(lp, rp, g) => rpn_of(*g),
        AForm::Bin(op, l, r) => rpn_of(*l) + emitted_of(*r),
    }
}

/// The operators the expression leaves pending on the stack, bottom
/// first: the operator spine of its right edge.
pub open spec fn pend_of(f: AForm) -> Seq<SpecToken>
    decreases f,
{
    match f {
        AForm::Num(t) => Seq::empty(),
        AForm::Paren(lp, rp, g) => Seq::empty(),
        AForm::Bin(op, l, r) => seq![op] + pend_of(*r),
    }
}

/// The standard-precedence tree of the derivation.
pub open spec fn tree_of(f: AForm) -> SpecNode
    decreases f,
{
    match f {
        AForm::Num(t) => SpecNode::NumberLiteral(t.kind->Number_0),
        AForm::Paren(lp, rp, g) => tree_of(*g),
        AForm::Bin(op, l, r) => SpecNode::BinExpr {
            op,
            lhs: Box::new(tree_of(*l)),
            rhs: Box::new(tree_of(*r)),
        },
    }
}

/// Whether an incoming operator of level `lv` pops nothing off the top of
/// this stack: it is empty, or its top is a parenthesis barrier, or its
/// top binds strictly looser.
pub open spec fn top_blocked(ops: Seq<SpecToken>, lv: int) -> bool {
    ops.len() == 0 || ops.last().kind is LParen || spec_precedence(ops.last().kind) < lv
}

/// Popping a concatenated stack pops the upper part first.
proof fn lemma_pop_all_concat(a: Seq<SpecToken>, b: Seq<SpecToken>)
    ensures
        pop_all(a + b) == pop_all(b) + pop_all(a),
    decreases b.len(),
{
    if b.len() == 0 {
        assert(a + b =~= a);
        assert(pop_all(b) + pop_all(a) =~= pop_all(a));
    } else {
        assert((a + b).drop_last() =~= a + b.drop_last());
        assert((a + b).last() == b.last());
        lemma_pop_all_concat(a, b.drop_last());
        assert(pop_all(a + b) =~= pop_all(b) + pop_all(a));
    }
}

/// The emitted part plus the flushed pending operators is the whole
/// postfix.
proof fn lemma_emitted_pend(f: AForm)
    ensures
        emitted_of(f) + pop_all(pend_of(f)) == rpn_of(f),
    decreases f,
{
    match f {
        AForm::Num(t) => {
            assert(emitted_of(f) + pop_all(pend_of(f)) =~= rpn_of(f));
        },
        AForm::Paren(lp, rp, g) => {
            assert(emitted_of(f) + pop_all(pend_of(f)) =~= rpn_of(f));
        },
        AForm::Bin(op, l, r) => {
            lemma_emitted_pend(*r);
            lemma_pop_all_concat(seq![op], pend_of(*r));
            assert(seq![op].drop_last() =~= Seq::<SpecToken>::empty());
            assert(pop_all(Seq::<SpecToken>::empty()) =~= Seq::<SpecToken>::empty());
            assert(pop_all(seq![op]) =~= seq![op]);
            assert(emitted_of(f) + pop_all(pend_of(f)) =~= rpn_of(f));
        },
    }
}

/// The postfix of a derivation is never empty.
proof fn lemma_rpn_nonempty(f: AForm)
    ensures
        rpn_of(f).len() >= 1,
    decreases f,
{
    match f {
        AForm::Num(t) => {
        },
        AForm::Paren(lp, rp, g) => {
            lemma_rpn_nonempty(*g);
        },
        AForm::Bin(op, l, r) => {
            lemma_rpn_nonempty(*l);
        },
    }
}

/// Every pending operator of a level-`lv` derivation is one of the four
/// arithmetic operators and binds at least as tight as `lv`.
proof fn lemma_pend_ok(f: AForm, lv: int)
    requires
        wf_form(f, lv),
    ensures
        forall|i: int|
            0 <= i < pend_of(f).len() ==> is_arith_bin((#[trigger] pend_of(f)[i]).kind)
                && spec_precedence(pend_of(f)[i].kind) >= lv,
    decreases f,
{
    match f {
        AForm::Bin(op, l, r) => {
            let p = spec_precedence(op.kind) as int;
            lemma_pend_ok(*r, p + 1);
            assert forall|i: int| 0 <= i < pend_of(f).len() implies is_arith_bin(
                (#[trigger] pend_of(f)[i]).kind,
            ) && spec_precedence(pend_of(f)[i].kind) >= lv by {
                if i > 0 {
                    assert(pend_of(f)[i] == pend_of(*r)[i - 1]);
                }
            }
        },
        _ => {
        },
    }
}

/// An incoming left-associative operator pops exactly the run of
/// operators above the first blocking element: everything at least as
/// tight comes off, in pop order, and the base stays.
proof fn lemma_pop_run(t: SpecTokenKind, base: Seq<SpecToken>, pend: Seq<SpecToken>)
    requires
        spec_associativity(t) == Association::LTR,
        top_blocked(base, spec_precedence(t) as int),
        forall|i: int|
            0 <= i < pend.len() ==> !((#[trigger] pend[i]).kind is LParen) && spec_precedence(
                pend[i].kind,
            ) >= spec_precedence(t),
    ensures
        pop_for_op(t, base + pend).0 == pop_all(pend),
        pop_for_op(t, base + pend).1 == base,
    decreases pend.len(),
{
    if pend.len() == 0 {
        assert(base + pend =~= base);
        assert(pop_for_op(t, base).0 =~= pop_all(pend));
    } else {
        assert((base + pend).last() == pend.last());
        assert((base + pend).drop_last() =~= base + pend.drop_last());
        assert forall|i: int| 0 <= i < pend.drop_last().len() implies !((
        #[trigger] pend.drop_last()[i]).kind is LParen) && spec_precedence(
            pend.drop_last()[i].kind,
        ) >= spec_precedence(t) by {
            assert(pend.drop_last()[i] == pend[i]);
        }
        lemma_pop_run(t, base, pend.drop_last());
        assert(pop_for_op(t, base + pend).0 =~= pop_all(pend));
    }
}

/// A right parenthesis pops exactly the run of non-parenthesis operators
/// down to the nearest `(`, discards it, and leaves the base.
proof fn lemma_pop_lparen_run(base: Seq<SpecToken>, lp: SpecToken, pend: Seq<SpecToken>)
    requires
        lp.kind is LParen,
        forall|i: int| 0 <= i < pend.len() ==> !((#[trigger] pend[i]).kind is LParen),
    ensures
        pop_to_lparen(base + seq![lp] + pend) matches Some(rec) && rec.0 == pop_all(pend)
            && rec.1 == base,
    decreases pend.len(),
{
    if pend.len() == 0 {
        assert(base + seq![lp] + pend =~= base.push(lp));
        assert((base.push(lp)).last() == lp);
        assert((base.push(lp)).drop_last() =~= base);
        assert(pop_all(pend) =~= Seq::<SpecToken>::empty());
    } else {
        let whole = base + seq![lp] + pend;
        assert(whole.last() == pend.last());
        assert(whole.drop_last() =~= base + seq![lp] + pend.drop_last());
        assert forall|i: int| 0 <= i < pend.drop_last().len() implies !((
        #[trigger] pend.drop_last()[i]).kind is LParen) by {
            assert(pend.drop_last()[i] == pend[i]);
        }
        lemma_pop_lparen_run(base, lp, pend.drop_last());
        match pop_to_lparen(whole) {
            Some(rec) => {
                assert(rec.0 =~= pop_all(pend));
            },
            None => {
                assert(false);
            },
        }
    }
}


/// Consuming the infix tokens of a level-`lv` derivation, over a stack
/// whose top blocks level `lv`, writes its emitted part to the output
/// queue and leaves its pending operators on the stack.
#[verifier::rlimit(60)]
proof fn lemma_shunt_segment(
    f: AForm,
    lv: int,
    toks: Seq<SpecToken>,
    k: nat,
    ops: Seq<SpecToken>,
    out: Seq<SpecToken>,
    done: Seq<Seq<SpecToken>>,
)
    requires
        wf_form(f, lv),
        k + infix_of(f).len() <= toks.len(),
        toks.subrange(k as int, k as int + infix_of(f).len()) == infix_of(f),
        top_blocked(ops, lv),
    ensures
        shunt_from(toks, k, ops, out, done) == shunt_from(
            toks,
            (k + infix_of(f).len()) as nat,
            ops + pend_of(f),
            out + emitted_of(f),
        done,
        ),
    decreases f,
{
    let nf = infix_of(f).len();
    match f {
        AForm::Num(t) => {
            assert(toks[k as int] == t) by {
                assert(toks.subrange(k as int, k as int + nf)[0] == infix_of(f)[0]);
            }
            assert(ops + pend_of(f) =~= ops);
            assert(out + emitted_of(f) =~= out.push(t));
        },
        AForm::Paren(lp, rp, g) => {
            let ng = infix_of(*g).len();
            let base_lv = spec_precedence(SpecTokenKind::Plus) as int;
            assert(toks[k as int] == lp) by {
                assert(toks.subrange(k as int, k as int + nf)[0] == infix_of(f)[0]);
            }
            assert forall|i: int| 0 <= i < ng implies toks.subrange(
                k + 1 as int,
                (k + 1 + ng) as int,
            )[i] == infix_of(*g)[i] by {
                assert(infix_of(f)[i + 1] == infix_of(*g)[i]);
                assert(toks.subrange(k as int, k as int + nf)[i + 1] == infix_of(f)[i + 1]);
            }
            assert(toks.subrange(k + 1 as int, (k + 1 + ng) as int) =~= infix_of(*g));
            assert((ops.push(lp)).last() == lp);
            lemma_shunt_segment(*g, base_lv, toks, (k + 1) as nat, ops.push(lp), out, done);
            assert(toks[(k + 1 + ng) as int] == rp) by {
                assert(toks.subrange(k as int, k as int + nf)[(1 + ng) as int] == infix_of(
                    f,
                )[(1 + ng) as int]);
                assert(infix_of(f)[(1 + ng) as int] == rp);
            }
            lemma_pend_ok(*g, base_lv);
            assert forall|i: int| 0 <= i < pend_of(*g).len() implies !((
            #[trigger] pend_of(*g)[i]).kind is LParen) by {
                assert(is_arith_bin(pend_of(*g)[i].kind));
            }
            lemma_pop_lparen_run(ops, lp, pend_of(*g));
            assert(ops + seq![lp] + pend_of(*g) =~= ops.push(lp) + pend_of(*g));
            lemma_emitted_pend(*g);
            match pop_to_lparen(ops.push(lp) + pend_of(*g)) {
                Some(rec) => {
                    assert(ops + pend_of(f) =~= rec.1);
                    assert(out + emitted_of(f) =~= (out + emitted_of(*g)) + rec.0);
                },
                None => {
                    assert(false);
                },
            }
        },
        AForm::Bin(op, l, r) => {
            let p = spec_precedence(op.kind) as int;
            let nl = infix_of(*l).len();
            let nr = infix_of(*r).len();
            assert(nf == nl + 1 + nr);
            assert forall|i: int| 0 <= i < nl implies toks.subrange(
                k as int,
                k as int + nl,
            )[i] == infix_of(*l)[i] by {
                assert(infix_of(f)[i] == infix_of(*l)[i]);
                assert(toks.subrange(k as int, k as int + nf)[i] == infix_of(f)[i]);
            }
            assert(toks.subrange(k as int, k as int + nl) =~= infix_of(*l));
            lemma_shunt_segment(*l, p, toks, k, ops, out, done);
            assert(toks[(k + nl) as int] == op) by {
                assert(toks.subrange(k as int, k as int + nf)[nl as int] == infix_of(
                    f,
                )[nl as int]);
                assert(infix_of(f)[nl as int] == op);
            }
            assert(spec_associativity(op.kind) == Association::LTR);
            assert(spec_is_op(op.kind));
            lemma_pend_ok(*l, p);
            lemma_pop_run(op.kind, ops, pend_of(*l));
            lemma_emitted_pend(*l);
            assert((out + emitted_of(*l)) + pop_all(pend_of(*l)) =~= out + rpn_of(*l));
            assert forall|i: int| 0 <= i < nr implies toks.subrange(
                (k + nl + 1) as int,
                k as int + nf,
            )[i] == infix_of(*r)[i] by {
                assert(infix_of(f)[nl + 1 + i] == infix_of(*r)[i]);
                assert(toks.subrange(k as int, k as int + nf)[nl + 1 + i] == infix_of(
                    f,
                )[nl + 1 + i]);
            }
            assert(toks.subrange((k + nl + 1) as int, k as int + nf) =~= infix_of(*r));
            assert((ops.push(op)).last() == op);
            lemma_shunt_segment(*r, p + 1, toks, (k + nl + 1) as nat, ops.push(op), out + rpn_of(*l), done);
            assert(ops.push(op) + pend_of(*r) =~= ops + pend_of(f));
            assert((out + rpn_of(*l)) + emitted_of(*r) =~= out + emitted_of(f));
        },
    }
}

/// Consuming the postfix tokens of a derivation pushes exactly its
/// standard-precedence tree onto the operand stack. Such a tree is never
/// unary-ready, so a `-` whose right operand it is stays binary.
#[verifier::rlimit(60)]
proof fn lemma_build_segment(f: AForm, lv: int, toks: Seq<SpecToken>, k: nat, st: Seq<SpecNode>)
    requires
        wf_form(f, lv),
        k + rpn_of(f).len() <= toks.len(),
        toks.subrange(k as int, k as int + rpn_of(f).len()) == rpn_of(f),
    ensures
        build_from(toks, k, st) == build_from(
            toks,
            (k + rpn_of(f).len()) as nat,
            st.push(tree_of(f)),
        ),
        !spec_is_unary_op_ready(tree_of(f)),
    decreases f,
{
    let nf = rpn_of(f).len();
    match f {
        AForm::Num(t) => {
            assert(toks[k as int] == t) by {
                assert(toks.subrange(k as int, k as int + nf)[0] == rpn_of(f)[0]);
            }
        },
        AForm::Paren(lp, rp, g) => {
            lemma_build_segment(
                *g,
                spec_precedence(SpecTokenKind::Plus) as int,
                toks,
                k,
                st,
            );
        },
        AForm::Bin(op, l, r) => {
            let p = spec_precedence(op.kind) as int;
            let nl = rpn_of(*l).len();
            let nr = rpn_of(*r).len();
            assert(nf == nl + nr + 1);
            assert forall|i: int| 0 <= i < nl implies toks.subrange(
                k as int,
                k as int + nl,
            )[i] == rpn_of(*l)[i] by {
                assert(rpn_of(f)[i] == rpn_of(*l)[i]);
                assert(toks.subrange(k as int, k as int + nf)[i] == rpn_of(f)[i]);
            }
            assert(toks.subrange(k as int, k as int + nl) =~= rpn_of(*l));
            lemma_build_segment(*l, p, toks, k, st);
            let st1 = st.push(tree_of(*l));
            assert forall|i: int| 0 <= i < nr implies toks.subrange(
                (k + nl) as int,
                (k + nl + nr) as int,
            )[i] == rpn_of(*r)[i] by {
                assert(rpn_of(f)[nl + i] == rpn_of(*r)[i]);
                assert(toks.subrange(k as int, k as int + nf)[nl + i] == rpn_of(f)[nl + i]);
            }
            assert(toks.subrange((k + nl) as int, (k + nl + nr) as int) =~= rpn_of(*r));
            lemma_build_segment(*r, p + 1, toks, (k + nl) as nat, st1);
            let st2 = st1.push(tree_of(*r));
            assert(toks[(k + nl + nr) as int] == op) by {
                assert(toks.subrange(k as int, k as int + nf)[(nl + nr) as int] == rpn_of(
                    f,
                )[(nl + nr) as int]);
                assert(rpn_of(f)[(nl + nr) as int] == op);
            }
            assert(st2.last() == tree_of(*r));
            assert(!minus_is_unary(st2));
            assert(st2.drop_last() =~= st1);
            assert(st1.last() == tree_of(*l));
            assert(st1.drop_last() =~= st);
            assert(spec_is_op(op.kind));
            assert(build_from(toks, (k + nl + nr) as nat, st2) == build_from(
                toks,
                (k + nf) as nat,
                st.push(tree_of(f)),
            ));
        },
    }
}


/// The precedence law at the parser: the infix token sequence of any
/// well-formed arithmetic expression is reordered into exactly the
/// postfix of its standard-precedence tree — `*` and `/` bind tighter
/// than `+` and `-`, parentheses override, and equal precedence
/// associates to the left.
pub proof fn lemma_arith_postfix(f: AForm)
    requires
        wf_form(f, spec_precedence(SpecTokenKind::Plus) as int),
    ensures
        spec_parse(infix_of(f), Seq::empty()) == ShuntOutcome::Done(seq![rpn_of(f)]),
{
    let toks = infix_of(f);
    let n = toks.len();
    assert(toks.subrange(0, n as int) =~= toks);
    lemma_shunt_segment(
        f,
        spec_precedence(SpecTokenKind::Plus) as int,
        toks,
        0,
        Seq::empty(),
        Seq::empty(),
        Seq::empty(),
    );
    assert(Seq::<SpecToken>::empty() + pend_of(f) =~= pend_of(f));
    assert(Seq::<SpecToken>::empty() + emitted_of(f) =~= emitted_of(f));
    lemma_emitted_pend(f);
    lemma_rpn_nonempty(f);
    assert(Seq::<Seq<SpecToken>>::empty().push(rpn_of(f)) =~= seq![rpn_of(f)]);
}

/// The precedence law for a whole assignment statement `name = e`, with
/// `e` any well-formed arithmetic expression: the parser yields the
/// statement's postfix, and the tree builder rebuilds exactly the
/// standard-precedence tree under the assignment.
pub proof fn lemma_arith_statement(name_tok: SpecToken, assign_tok: SpecToken, f: AForm)
    requires
        name_tok.kind is Ident,
        assign_tok.kind is Assign,
        wf_form(f, spec_precedence(SpecTokenKind::Plus) as int),
    ensures
        spec_parse(seq![name_tok, assign_tok] + infix_of(f), Seq::empty()) == ShuntOutcome::Done(
            seq![seq![name_tok] + rpn_of(f) + seq![assign_tok]],
        ),
        spec_build(seq![name_tok] + rpn_of(f) + seq![assign_tok]) == Ok::<SpecNode, Error>(
            SpecNode::Assign { name: name_tok.kind->Ident_0, value: Box::new(tree_of(f)) },
        ),
{
    let lv = spec_precedence(SpecTokenKind::Plus) as int;
    let n = infix_of(f).len();
    let toks = seq![name_tok, assign_tok] + infix_of(f);
    let post = seq![name_tok] + rpn_of(f) + seq![assign_tok];

    // The identifier goes to the output queue.
    assert(toks[0] == name_tok);
    assert(!spec_is_op(name_tok.kind));
    assert(Seq::<SpecToken>::empty().push(name_tok) =~= seq![name_tok]);
    assert(shunt_from(toks, 0, Seq::empty(), Seq::empty(), Seq::empty()) == shunt_from(
        toks,
        1,
        Seq::empty(),
        seq![name_tok],
        Seq::empty(),
    ));

    // The assignment operator is pushed onto the empty stack.
    assert(toks[1] == assign_tok);
    assert(spec_is_op(assign_tok.kind));
    assert(pop_for_op(assign_tok.kind, Seq::<SpecToken>::empty()).0
        =~= Seq::<SpecToken>::empty());
    assert(pop_for_op(assign_tok.kind, Seq::<SpecToken>::empty()).1
        =~= Seq::<SpecToken>::empty());
    assert(Seq::<SpecToken>::empty().push(assign_tok) =~= seq![assign_tok]);
    assert(seq![name_tok] + Seq::<SpecToken>::empty() =~= seq![name_tok]);
    assert(shunt_from(toks, 1, Seq::empty(), seq![name_tok], Seq::empty()) == shunt_from(
        toks,
        2,
        seq![assign_tok],
        seq![name_tok],
        Seq::empty(),
    ));

    // The expression's tokens follow; the assignment blocks nothing at
    // the arithmetic levels.
    assert forall|i: int| 0 <= i < n implies toks.subrange(2, (2 + n) as int)[i] == infix_of(
        f,
    )[i] by {
        assert(toks[2 + i] == infix_of(f)[i]);
    }
    assert(toks.subrange(2, (2 + n) as int) =~= infix_of(f));
    assert((seq![assign_tok]).last() == assign_tok);
    lemma_shunt_segment(f, lv, toks, 2, seq![assign_tok], seq![name_tok], Seq::empty());

    // The end of input flushes the pending operators and the assignment.
    lemma_pop_all_concat(seq![assign_tok], pend_of(f));
    assert(seq![assign_tok].drop_last() =~= Seq::<SpecToken>::empty());
    assert(pop_all(Seq::<SpecToken>::empty()) =~= Seq::<SpecToken>::empty());
    assert(pop_all(seq![assign_tok]) =~= seq![assign_tok]);
    lemma_emitted_pend(f);
    assert((seq![name_tok] + emitted_of(f)) + pop_all(seq![assign_tok] + pend_of(f)) =~= post);
    assert(post.len() > 0);
    assert(Seq::<Seq<SpecToken>>::empty().push(post) =~= seq![post]);
    assert(spec_parse(toks, Seq::empty()) == ShuntOutcome::Done(seq![post]));

    // The tree builder: the identifier leaf, then the expression's tree,
    // then the assignment root.
    let nm = name_tok.kind->Ident_0;
    assert(name_tok.kind == SpecTokenKind::Ident(nm));
    assert(post[0] == name_tok);
    let st1 = Seq::<SpecNode>::empty().push(SpecNode::Ident(nm));
    assert(build_from(post, 0, Seq::empty()) == build_from(post, 1, st1));
    let nr = rpn_of(f).len();
    assert(post.len() == nr + 2);
    assert forall|i: int| 0 <= i < nr implies post.subrange(1, (1 + nr) as int)[i] == rpn_of(
        f,
    )[i] by {
        assert(post[1 + i] == rpn_of(f)[i]);
    }
    assert(post.subrange(1, (1 + nr) as int) =~= rpn_of(f));
    lemma_build_segment(f, lv, post, 1, st1);
    let st2 = st1.push(tree_of(f));
    assert(post[(1 + nr) as int] == assign_tok);
    assert(st2.last() == tree_of(f));
    assert(st2.drop_last() =~= st1);
    assert(st1.last() == SpecNode::Ident(nm));
    assert(st1.drop_last() =~= Seq::<SpecNode>::empty());
    assert(spec_is_op(SpecTokenKind::Assign));
    let fin = Seq::<SpecNode>::empty().push(
        SpecNode::Assign { name: nm, value: Box::new(tree_of(f)) },
    );
    assert(build_from(post, (1 + nr) as nat, st2) == build_from(post, (2 + nr) as nat, fin));
    assert(fin.len() == 1);
    assert(fin[0] == (SpecNode::Assign { name: nm, value: Box::new(tree_of(f)) }));
    assert(spec_build(post) == Ok::<SpecNode, Error>(
        SpecNode::Assign { name: nm, value: Box::new(tree_of(f)) },
    ));
}

} // verus!
