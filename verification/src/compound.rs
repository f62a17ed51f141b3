//! Function types, list patterns, parenthesised expressions and type
//! annotations, described by the pieces of input they are read from.
use vstd::prelude::*;
use crate::ast::{SpecExpr, SpecPattern, SpecType};
use crate::grammar::{
    Step, advanced, annotation, expr, lemma_advanced, pattern, pattern_primary, primary, recorded,
    rem, type_, type_arrows, type_primary,
};
use crate::token::{SpecToken, TokenKind};

verus! {

/// The right-hand sides that a function type `l` built before the last
/// arrow already holds: none before the first arrow.
pub open spec fn earlier_rhs(l: SpecType, arrows: nat) -> Seq<SpecType> {
    if arrows <= 1 {
        Seq::empty()
    } else {
        match l {
            SpecType::Func(_, r, _) => r,
            _ => Seq::empty(),
        }
    }
}

/// `t`, read from `p` to `end`, is primary types joined by the arrows at
/// the positions `ops`: with no arrow it is one primary type; otherwise it
/// is a function type whose left-hand side is the type read before the
/// last arrow and whose right-hand sides are those of that type followed by
/// the primary type right after the last arrow.
pub open spec fn func_chain(ts: Seq<SpecToken>, p: int, end: int, ops: Seq<int>, t: SpecType) -> bool
    decreases ops.len(),
{
    if ops.len() == 0 {
        p <= end && type_primary(ts, p) == Step::Done(
            (end - p) as nat,
            Ok::<SpecType, crate::error::SpecError>(t),
        )
    } else {
        let q = ops.last();
        let q1 = advanced(ts, q);
        &&& p <= end
        &&& p <= q < ts.len()
        &&& ts[q].kind == TokenKind::Arrow
        &&& q1 <= end
        &&& match t {
            SpecType::Func(l, rhs, sp) => {
                &&& func_chain(ts, p, q, ops.drop_last(), *l)
                &&& rhs.len() == ops.len()
                &&& type_primary(ts, q1) == Step::Done(
                    (end - q1) as nat,
                    Ok::<SpecType, crate::error::SpecError>(rhs.last()),
                )
                &&& rhs.drop_last() == earlier_rhs(*l, ops.len())
                &&& recorded(ts, p, end) == Some(sp)
            },
            _ => false,
        }
    }
}

proof fn arrows_shape(
    ts: Seq<SpecToken>,
    start: int,
    q: int,
    lhs: SpecType,
    rhs: Seq<SpecType>,
    ops: Seq<int>,
) -> (r: Seq<int>)
    requires
        func_chain(ts, start, q, ops, lhs),
        rhs.len() == ops.len(),
        ops.len() > 0 ==> rhs == earlier_rhs(lhs, 2),
    ensures
        type_arrows(ts, start, q, lhs, rhs) matches Step::Done(k, Ok(t)) ==> func_chain(
            ts,
            start,
            start + k,
            r,
            t,
        ) && 0 <= start + k < ts.len() && ts[start + k].kind != TokenKind::Arrow,
    decreases rem(ts, q),
{
    reveal_with_fuel(crate::grammar::type_arrows, 1);
    if 0 <= q < ts.len() && ts[q].kind is Arrow {
        lemma_advanced(ts, q);
        let q1 = advanced(ts, q);
        if let Step::Done(n, Ok(t)) = type_primary(ts, q1) {
            if let Some(sp) = recorded(ts, start, q1 + n) {
                let rhs2 = rhs.push(t);
                let node = SpecType::Func(Box::new(lhs), rhs2, sp);
                let ops2 = ops.push(q);
                assert(ops2.drop_last() =~= ops);
                assert(rhs2.drop_last() =~= rhs);
                assert(ops.len() == 0 ==> rhs =~= Seq::<SpecType>::empty());
                assert(func_chain(ts, start, q1 + n, ops2, node));
                return arrows_shape(ts, start, q1 + n, node, rhs2, ops2);
            }
        }
    }
    ops
}

/// A type is primary types joined by `->`: each arrow makes a function
/// type whose left-hand side is the type so far and whose right-hand sides
/// are the earlier ones followed by the primary type after that arrow. The
/// type ends at the first token that is not `->`.
pub proof fn lemma_function_type_shape(ts: Seq<SpecToken>, p: int)
    requires
        0 <= p,
    ensures
        type_(ts, p) matches Step::Done(n, Ok(t)) ==> 0 <= p + n < ts.len() && ts[p + n].kind
            != TokenKind::Arrow && exists|ops: Seq<int>| #[trigger] func_chain(ts, p, p + n, ops, t),
{
    reveal_with_fuel(crate::grammar::type_, 1);
    reveal_with_fuel(crate::grammar::type_arrows, 1);
    if p < ts.len() {
        if let Step::Done(m, Ok(lhs)) = type_primary(ts, p) {
            assert(func_chain(ts, p, p + m, seq![], lhs));
            let ops = arrows_shape(ts, p, p + m, lhs, seq![], seq![]);
            if let Step::Done(n, Ok(t)) = type_(ts, p) {
                assert(func_chain(ts, p, p + n, ops, t));
            }
        }
    }
}

/// `pat`, read from `p` to `end`, is a primary pattern, or a primary
/// pattern, a `:`, and the whole pattern after it.
pub open spec fn cons_parts(ts: Seq<SpecToken>, p: int, end: int, pat: SpecPattern) -> bool {
    match pattern_primary(ts, p) {
        Step::Done(m, Ok(h)) => {
            let q = p + m;
            if 0 <= q < ts.len() && ts[q].kind == TokenKind::Colon {
                let q1 = advanced(ts, q);
                match pat {
                    SpecPattern::ListCons(a, b, sp) => {
                        &&& *a == h
                        &&& q1 <= end
                        &&& pattern(ts, q1) == Step::Done(
                            (end - q1) as nat,
                            Ok::<SpecPattern, crate::error::SpecError>(*b),
                        )
                        &&& recorded(ts, p, end) == Some(sp)
                    },
                    _ => false,
                }
            } else {
                pat == h && end == q
            }
        },
        _ => false,
    }
}

/// A pattern is a primary pattern, or a primary pattern as the head of a
/// list followed by `:` and the whole pattern after it as the tail.
pub proof fn lemma_list_pattern_shape(ts: Seq<SpecToken>, p: int)
    requires
        0 <= p,
    ensures
        pattern(ts, p) matches Step::Done(n, Ok(pat)) ==> cons_parts(ts, p, p + n, pat),
{
    reveal_with_fuel(crate::grammar::pattern, 1);
    if p < ts.len() {
        if let Step::Done(m, Ok(_)) = pattern_primary(ts, p) {
            if p + m < ts.len() {
                lemma_advanced(ts, p + m);
            }
        }
    }
}

/// A parenthesised expression is the whole expression after `(`, which a
/// `)` follows; it ends after the `)`.
pub proof fn lemma_parenthesised_shape(ts: Seq<SpecToken>, p: int)
    requires
        0 <= p < ts.len(),
        ts[p].kind is LParen,
    ensures
        primary(ts, p) matches Step::Done(n, Ok(e)) ==> exists|qr: int|
            #![trigger advanced(ts, qr)]
            advanced(ts, p) <= qr < ts.len() && ts[qr].kind == TokenKind::RParen && expr(
                ts,
                advanced(ts, p),
            ) == Step::Done(
                (qr - advanced(ts, p)) as nat,
                Ok::<SpecExpr, crate::error::SpecError>(e),
            ) && p + n == advanced(ts, qr),
{
    reveal_with_fuel(crate::grammar::primary, 1);
    reveal_with_fuel(crate::grammar::paren_expr, 1);
    lemma_advanced(ts, p);
    let q = advanced(ts, p);
    if let Step::Done(m, Ok(_)) = expr(ts, q) {
        let qr = q + m;
        if qr < ts.len() {
            lemma_advanced(ts, qr);
        }
        if let Step::Done(n, Ok(_)) = primary(ts, p) {
            assert(advanced(ts, qr) == advanced(ts, qr));
        }
    }
}

/// `e`, read from `p` to `end`, is a primary expression, or a primary
/// expression, a `::`, and the whole type after it, as an annotation.
pub open spec fn annotated(ts: Seq<SpecToken>, p: int, end: int, e: SpecExpr) -> bool {
    match primary(ts, p) {
        Step::Done(m, Ok(x)) => {
            let q = p + m;
            if 0 <= q < ts.len() && ts[q].kind == TokenKind::DoubleCollon {
                let q1 = advanced(ts, q);
                match e {
                    SpecExpr::Ann(a, ty, sp) => {
                        &&& *a == x
                        &&& q1 <= end
                        &&& type_(ts, q1) == Step::Done(
                            (end - q1) as nat,
                            Ok::<SpecType, crate::error::SpecError>(ty),
                        )
                        &&& recorded(ts, p, end) == Some(sp)
                    },
                    _ => false,
                }
            } else {
                e == x && end == q && 0 <= q < ts.len()
            }
        },
        _ => false,
    }
}

/// An annotated expression is a primary expression, optionally followed by
/// `::` and the whole type after it, which it then carries.
pub proof fn lemma_annotation_shape(ts: Seq<SpecToken>, p: int)
    requires
        0 <= p,
    ensures
        annotation(ts, p) matches Step::Done(n, Ok(e)) ==> annotated(ts, p, p + n, e),
{
    reveal_with_fuel(crate::grammar::annotation, 1);
    reveal_with_fuel(crate::grammar::primary, 1);
    reveal_with_fuel(crate::grammar::type_, 1);
    if p < ts.len() {
        if let Step::Done(m, Ok(_)) = primary(ts, p) {
            if p + m < ts.len() {
                lemma_advanced(ts, p + m);
            }
        }
    }
}

} // verus!
