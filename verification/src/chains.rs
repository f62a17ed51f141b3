//! Operator expressions: at each of the four levels, an expression is its
//! operands of the next tighter level joined by that level's operators and
//! grouped to the left.
use vstd::prelude::*;
use crate::ast::{BinOp, SpecExpr};
use crate::grammar::{
    Step, additive_op, advanced, annotation, back_ws, comparison, comparison_more, equality_op,
    exp, exp_more, expr, expr_more, factor, factor_more, is_ws, lemma_advanced, multiplicative_op,
    past_kind, recorded, rem,
};
use crate::token::{SpecToken, TokenKind};

verus! {

/// The levels, loosest first: `+ -` over factors, `* / %` over
/// comparisons, `== !=` over powers, `^` over annotated primaries.
pub open spec fn operand(level: nat, ts: Seq<SpecToken>, p: int) -> Step<SpecExpr> {
    if level == 3 {
        factor(ts, p)
    } else if level == 2 {
        comparison(ts, p)
    } else if level == 1 {
        exp(ts, p)
    } else {
        annotation(ts, p)
    }
}

/// The operator that a token stands for at a level, if any.
pub open spec fn level_op(level: nat, k: TokenKind) -> Option<BinOp> {
    if level == 3 {
        if k == TokenKind::Add {
            Some(BinOp::Add)
        } else if k == TokenKind::Sub {
            Some(BinOp::Sub)
        } else {
            None
        }
    } else if level == 2 {
        if k == TokenKind::Mul {
            Some(BinOp::Mul)
        } else if k == TokenKind::Div {
            Some(BinOp::Div)
        } else if k == TokenKind::Mod {
            Some(BinOp::Mod)
        } else {
            None
        }
    } else if level == 1 {
        if k == TokenKind::Eq {
            Some(BinOp::Eq)
        } else if k == TokenKind::Neq {
            Some(BinOp::Ineq)
        } else {
            None
        }
    } else if k == TokenKind::Exp {
        Some(BinOp::Exp)
    } else {
        None
    }
}

/// `e`, read from `p` to `end`, is a left-grouped chain at `level` whose
/// operators stand at the positions `ops`: with no operator it is one
/// operand; otherwise it is the operator at the last position applied to
/// the chain before that position and the single operand right after it.
pub open spec fn left_chain(level: nat, ts: Seq<SpecToken>, p: int, end: int, ops: Seq<int>, e: SpecExpr) -> bool
    decreases ops.len(),
{
    if ops.len() == 0 {
        p <= end && operand(level, ts, p) == Step::Done(
            (end - p) as nat,
            Ok::<SpecExpr, crate::error::SpecError>(e),
        )
    } else {
        let q = ops.last();
        let q1 = advanced(ts, q);
        &&& p <= end
        &&& p <= q < ts.len()
        &&& q1 <= end
        &&& match e {
            SpecExpr::BinOp(op, l, r, sp) => {
                &&& level_op(level, ts[q].kind) == Some(op)
                &&& left_chain(level, ts, p, q, ops.drop_last(), *l)
                &&& operand(level, ts, q1) == Step::Done(
                    (end - q1) as nat,
                    Ok::<SpecExpr, crate::error::SpecError>(*r),
                )
                &&& recorded(ts, p, end) == Some(sp)
            },
            _ => false,
        }
    }
}

/// The chain stops at `end` because the token there is no operator of the level.
pub open spec fn chain_ends(level: nat, ts: Seq<SpecToken>, end: int) -> bool {
    0 <= end < ts.len() && level_op(level, ts[end].kind) is None
}

proof fn lemma_past_kind(ts: Seq<SpecToken>, q: int)
    requires
        0 <= q < ts.len(),
        !is_ws(ts, q),
    ensures
        past_kind(ts, advanced(ts, q)) == Some(ts[q].kind),
{
    lemma_advanced(ts, q);
    lemma_back_ws_to(ts, q, advanced(ts, q) - 1);
}

proof fn lemma_back_ws_to(ts: Seq<SpecToken>, q: int, r: int)
    requires
        0 <= q <= r < ts.len(),
        !is_ws(ts, q),
        forall|j: int| q < j <= r ==> is_ws(ts, j),
    ensures
        back_ws(ts, r) == Some(q),
    decreases r - q,
{
    if r > q {
        lemma_back_ws_to(ts, q, r - 1);
    }
}

#[verifier::spinoff_prover]
#[verifier::rlimit(80)]
proof fn chain_expr_more(ts: Seq<SpecToken>, start: int, q: int, lhs: SpecExpr, ops: Seq<int>) -> (r: Seq<int>)
    requires
        left_chain(3, ts, start, q, ops, lhs),
    ensures
        expr_more(ts, start, q, lhs) matches Step::Done(k, Ok(e)) ==> left_chain(3, ts, start, start + k, r, e)
            && chain_ends(3, ts, start + k),
    decreases rem(ts, q),
{
    reveal_with_fuel(crate::grammar::expr_more, 1);
    reveal_with_fuel(crate::grammar::factor, 1);
    if 0 <= q < ts.len() && (ts[q].kind is Add || ts[q].kind is Sub) {
        lemma_advanced(ts, q);
        lemma_past_kind(ts, q);
        let q1 = advanced(ts, q);
        if let Some(op) = additive_op(past_kind(ts, q1)) {
            if let Step::Done(m, Ok(rhs)) = factor(ts, q1) {
                if let Some(sp) = recorded(ts, start, q1 + m) {
                    let e = SpecExpr::BinOp(op, Box::new(lhs), Box::new(rhs), sp);
                    let ops2 = ops.push(q);
                    assert(ops2.drop_last() =~= ops);
                    assert(left_chain(3, ts, start, q1 + m, ops2, e));
                    return chain_expr_more(ts, start, q1 + m, e, ops2);
                }
            }
        }
    }
    ops
}

#[verifier::spinoff_prover]
#[verifier::rlimit(80)]
proof fn chain_factor_more(ts: Seq<SpecToken>, start: int, q: int, lhs: SpecExpr, ops: Seq<int>) -> (r: Seq<int>)
    requires
        left_chain(2, ts, start, q, ops, lhs),
    ensures
        factor_more(ts, start, q, lhs) matches Step::Done(k, Ok(e)) ==> left_chain(2, ts, start, start + k, r, e)
            && chain_ends(2, ts, start + k),
    decreases rem(ts, q),
{
    reveal_with_fuel(crate::grammar::factor_more, 1);
    reveal_with_fuel(crate::grammar::comparison, 1);
    if 0 <= q < ts.len() && (ts[q].kind is Mul || ts[q].kind is Div || ts[q].kind is Mod) {
        lemma_advanced(ts, q);
        lemma_past_kind(ts, q);
        let q1 = advanced(ts, q);
        if let Some(op) = multiplicative_op(past_kind(ts, q1)) {
            if let Step::Done(m, Ok(rhs)) = comparison(ts, q1) {
                if let Some(sp) = recorded(ts, start, q1 + m) {
                    let e = SpecExpr::BinOp(op, Box::new(lhs), Box::new(rhs), sp);
                    let ops2 = ops.push(q);
                    assert(ops2.drop_last() =~= ops);
                    assert(left_chain(2, ts, start, q1 + m, ops2, e));
                    return chain_factor_more(ts, start, q1 + m, e, ops2);
                }
            }
        }
    }
    ops
}

#[verifier::spinoff_prover]
#[verifier::rlimit(80)]
proof fn chain_comparison_more(ts: Seq<SpecToken>, start: int, q: int, lhs: SpecExpr, ops: Seq<int>) -> (r: Seq<int>)
    requires
        left_chain(1, ts, start, q, ops, lhs),
    ensures
        comparison_more(ts, start, q, lhs) matches Step::Done(k, Ok(e)) ==> left_chain(1, ts, start, start + k, r, e)
            && chain_ends(1, ts, start + k),
    decreases rem(ts, q),
{
    reveal_with_fuel(crate::grammar::comparison_more, 1);
    reveal_with_fuel(crate::grammar::exp, 1);
    if 0 <= q < ts.len() && (ts[q].kind is Eq || ts[q].kind is Neq) {
        lemma_advanced(ts, q);
        lemma_past_kind(ts, q);
        let q1 = advanced(ts, q);
        if let Some(op) = equality_op(past_kind(ts, q1)) {
            if let Step::Done(m, Ok(rhs)) = exp(ts, q1) {
                if let Some(sp) = recorded(ts, start, q1 + m) {
                    let e = SpecExpr::BinOp(op, Box::new(lhs), Box::new(rhs), sp);
                    let ops2 = ops.push(q);
                    assert(ops2.drop_last() =~= ops);
                    assert(left_chain(1, ts, start, q1 + m, ops2, e));
                    return chain_comparison_more(ts, start, q1 + m, e, ops2);
                }
            }
        }
    }
    ops
}

#[verifier::spinoff_prover]
#[verifier::rlimit(80)]
proof fn chain_exp_more(ts: Seq<SpecToken>, start: int, q: int, lhs: SpecExpr, ops: Seq<int>) -> (r: Seq<int>)
    requires
        left_chain(0, ts, start, q, ops, lhs),
    ensures
        exp_more(ts, start, q, lhs) matches Step::Done(k, Ok(e)) ==> left_chain(0, ts, start, start + k, r, e)
            && chain_ends(0, ts, start + k),
    decreases rem(ts, q),
{
    reveal_with_fuel(crate::grammar::exp_more, 1);
    if 0 <= q < ts.len() && ts[q].kind is Exp {
        lemma_advanced(ts, q);
        let q1 = advanced(ts, q);
        if let Step::Done(m, Ok(rhs)) = annotation(ts, q1) {
            if let Some(sp) = recorded(ts, start, q1 + m) {
                let e = SpecExpr::BinOp(BinOp::Exp, Box::new(lhs), Box::new(rhs), sp);
                let ops2 = ops.push(q);
                assert(ops2.drop_last() =~= ops);
                assert(left_chain(0, ts, start, q1 + m, ops2, e));
                return chain_exp_more(ts, start, q1 + m, e, ops2);
            }
        }
    }
    ops
}

/// An expression is its factors joined by `+` and `-`, grouped to the left:
/// with no operator it is one factor, and otherwise its right operand is the
/// single factor after its last operator, its left operand the expression
/// before it; it ends at the first token that is neither `+` nor `-`. In
/// the same way a factor is comparisons joined by `*`, `/` and `%`, a
/// comparison is powers joined by `==` and `!=`, and a power is annotated
/// primaries joined by `^`.
#[verifier::spinoff_prover]
#[verifier::rlimit(80)]
pub proof fn lemma_operators_group_left(ts: Seq<SpecToken>, p: int)
    requires
        0 <= p,
    ensures
        expr(ts, p) matches Step::Done(n, Ok(e)) ==> chain_ends(3, ts, p + n) && exists|ops: Seq<int>|
            #[trigger] left_chain(3, ts, p, p + n, ops, e),
        factor(ts, p) matches Step::Done(n, Ok(e)) ==> chain_ends(2, ts, p + n) && exists|ops: Seq<int>|
            #[trigger] left_chain(2, ts, p, p + n, ops, e),
        comparison(ts, p) matches Step::Done(n, Ok(e)) ==> chain_ends(1, ts, p + n) && exists|ops: Seq<int>|
            #[trigger] left_chain(1, ts, p, p + n, ops, e),
        exp(ts, p) matches Step::Done(n, Ok(e)) ==> chain_ends(0, ts, p + n) && exists|ops: Seq<int>|
            #[trigger] left_chain(0, ts, p, p + n, ops, e),
{
    reveal_with_fuel(crate::grammar::expr, 1);
    reveal_with_fuel(crate::grammar::expr_more, 1);
    reveal_with_fuel(crate::grammar::factor, 1);
    reveal_with_fuel(crate::grammar::factor_more, 1);
    reveal_with_fuel(crate::grammar::comparison, 1);
    reveal_with_fuel(crate::grammar::comparison_more, 1);
    reveal_with_fuel(crate::grammar::exp, 1);
    reveal_with_fuel(crate::grammar::exp_more, 1);
    if p < ts.len() {
        if let Step::Done(n, Ok(lhs)) = factor(ts, p) {
            assert(left_chain(3, ts, p, p + n, seq![], lhs));
            let ops = chain_expr_more(ts, p, p + n, lhs, seq![]);
            if let Step::Done(k, Ok(e)) = expr(ts, p) {
                assert(left_chain(3, ts, p, p + k, ops, e));
            }
        }
        if let Step::Done(n, Ok(lhs)) = comparison(ts, p) {
            assert(left_chain(2, ts, p, p + n, seq![], lhs));
            let ops = chain_factor_more(ts, p, p + n, lhs, seq![]);
            if let Step::Done(k, Ok(e)) = factor(ts, p) {
                assert(left_chain(2, ts, p, p + k, ops, e));
            }
        }
        if let Step::Done(n, Ok(lhs)) = exp(ts, p) {
            assert(left_chain(1, ts, p, p + n, seq![], lhs));
            let ops = chain_comparison_more(ts, p, p + n, lhs, seq![]);
            if let Step::Done(k, Ok(e)) = comparison(ts, p) {
                assert(left_chain(1, ts, p, p + k, ops, e));
            }
        }
        if let Step::Done(n, Ok(lhs)) = annotation(ts, p) {
            assert(left_chain(0, ts, p, p + n, seq![], lhs));
            let ops = chain_exp_more(ts, p, p + n, lhs, seq![]);
            if let Step::Done(k, Ok(e)) = exp(ts, p) {
                assert(left_chain(0, ts, p, p + k, ops, e));
            }
        }
    }
}

} // verus!
