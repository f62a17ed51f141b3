//! How far the rules that go on with a parse already under way reach: each
//! of them ends no earlier than the position it was asked to go on from.
use vstd::prelude::*;
use crate::ast::{SpecBind, SpecExpr, SpecIdentifier, SpecPattern, SpecType, SpecVariant};
use crate::grammar::{
    Step, recorded, advanced, annotation, app_args, bind, bind_pats, comparison, comparison_more,
    decl_params, decl_variants, exp, exp_more, expr, expr_more, factor, factor_more, if_else,
    if_expr, if_then, lambda_pats, lemma_advanced, let_binds, match_arms, match_expr, name_expr,
    paren_expr, pattern, pattern_types, rem, tuple_items, type_, type_args, type_arrows,
    type_primary, variant, variant_types,
};
use crate::token::{SpecToken, TokenKind};

verus! {

/// Every outcome of `type_args` ends no earlier than where it was asked to go on from.
pub proof fn reach_type_args(ts: Seq<SpecToken>, start: int, id: SpecIdentifier, q: int, acc: Seq<SpecType>)
    requires
        0 <= start <= q,
    ensures
        type_args(ts, start, id, q, acc) matches Step::Done(k, _) ==> start + k >= q,
    decreases rem(ts, q),
{
    reveal_with_fuel(crate::grammar::type_args, 1);
    if 0 <= q < ts.len() {
        if let Step::Done(n, Ok(t)) = type_(ts, q) {
            if n > 0 {
                reach_type_args(ts, start, id, q + n, acc.push(t));
            }
        }
    }
}

/// Every outcome of `tuple_items` ends no earlier than where it was asked to go on from.
pub proof fn reach_tuple_items(ts: Seq<SpecToken>, start: int, q: int, acc: Seq<SpecType>)
    requires
        0 <= start <= q,
    ensures
        tuple_items(ts, start, q, acc) matches Step::Done(k, _) ==> start + k >= q,
    decreases rem(ts, q),
{
    reveal_with_fuel(crate::grammar::tuple_items, 1);
    if 0 <= q < ts.len() {
        lemma_advanced(ts, q);
        if let Step::Done(n, Ok(t)) = type_(ts, q) {
            if q + n < ts.len() {
                lemma_advanced(ts, q + n);
                let m = (advanced(ts, q + n) - (q + n)) as nat;
                reach_tuple_items(ts, start, q + n + m, acc.push(t));
            }
        }
    }
}

/// Every outcome of `type_arrows` ends no earlier than where it was asked to go on from.
pub proof fn reach_type_arrows(ts: Seq<SpecToken>, start: int, q: int, lhs: SpecType, rhs: Seq<SpecType>)
    requires
        0 <= start <= q,
    ensures
        type_arrows(ts, start, q, lhs, rhs) matches Step::Done(k, _) ==> start + k >= q,
    decreases rem(ts, q),
{
    reveal_with_fuel(crate::grammar::type_arrows, 1);
    if 0 <= q < ts.len() && ts[q].kind is Arrow {
        lemma_advanced(ts, q);
        let q1 = advanced(ts, q);
        if let Step::Done(n, Ok(t)) = type_primary(ts, q1) {
            if let Some(sp) = crate::grammar::recorded(ts, start, q1 + n) {
                let rhs2 = rhs.push(t);
                reach_type_arrows(ts, start, q1 + n, SpecType::Func(Box::new(lhs), rhs2, sp), rhs2);
            }
        }
    }
}

/// Every outcome of `pattern_types` ends no earlier than where it was asked to go on from.
pub proof fn reach_pattern_types(ts: Seq<SpecToken>, start: int, id: SpecIdentifier, q: int, acc: Seq<SpecType>)
    requires
        0 <= start <= q,
    ensures
        pattern_types(ts, start, id, q, acc) matches Step::Done(k, _) ==> start + k >= q,
    decreases rem(ts, q),
{
    reveal_with_fuel(crate::grammar::pattern_types, 1);
    if 0 <= q < ts.len() {
        if let Step::Done(n, Ok(t)) = type_(ts, q) {
            if n > 0 {
                reach_pattern_types(ts, start, id, q + n, acc.push(t));
            }
        }
    }
}

/// Every outcome of `app_args` ends no earlier than where it was asked to go on from.
pub proof fn reach_app_args(ts: Seq<SpecToken>, start: int, id: SpecIdentifier, q: int, acc: Seq<SpecExpr>)
    requires
        0 <= start <= q,
    ensures
        app_args(ts, start, id, q, acc) matches Step::Done(k, _) ==> start + k >= q,
    decreases rem(ts, q),
{
    reveal_with_fuel(crate::grammar::app_args, 1);
    if 0 <= q < ts.len() {
        if let Step::Done(n, Ok(e)) = expr(ts, q) {
            if n > 0 {
                reach_app_args(ts, start, id, q + n, acc.push(e));
            }
        }
    }
}

/// Every outcome of `name_expr` ends no earlier than where it was asked to go on from.
pub proof fn reach_name_expr(ts: Seq<SpecToken>, start: int, q: int)
    requires
        0 <= start <= q,
    ensures
        name_expr(ts, start, q) matches Step::Done(k, _) ==> start + k >= q,
{
    reveal_with_fuel(crate::grammar::name_expr, 1);
    reveal_with_fuel(crate::grammar::app_args, 1);
    if let Step::Done(n, Ok(e)) = expr(ts, q) {
        if let Some(id) = crate::grammar::ident_at(ts, start, q) {
            reach_app_args(ts, start, id, q + n, seq![e, e]);
        }
    }
}

/// Every outcome of `paren_expr` ends no earlier than where it was asked to go on from.
pub proof fn reach_paren_expr(ts: Seq<SpecToken>, start: int, q: int)
    requires
        0 <= start <= q,
    ensures
        paren_expr(ts, start, q) matches Step::Done(k, _) ==> start + k >= q,
{
    reveal_with_fuel(crate::grammar::paren_expr, 1);
}

/// Every outcome of `match_arms` ends no earlier than where it was asked to go on from.
pub proof fn reach_match_arms(
    ts: Seq<SpecToken>,
    start: int,
    scrut: SpecExpr,
    q: int,
    acc: Seq<(SpecPattern, SpecExpr)>,
)
    requires
        0 <= start <= q,
    ensures
        match_arms(ts, start, scrut, q, acc) matches Step::Done(k, _) ==> start + k >= q,
    decreases rem(ts, q),
{
    reveal_with_fuel(crate::grammar::match_arms, 1);
    if 0 <= q < ts.len() && ts[q].kind is Pipe {
        lemma_advanced(ts, q);
        let q1 = advanced(ts, q);
        if let Step::Done(n, Ok(pat)) = pattern(ts, q1) {
            if let Step::Done(m, Ok(_)) = crate::grammar::expect_step(ts, q1 + n, TokenKind::Arrow) {
                let q2 = q1 + n + m;
                if let Step::Done(j, Ok(e)) = expr(ts, q2) {
                    reach_match_arms(ts, start, scrut, q2 + j, acc.push((pat, e)));
                }
            }
        }
    }
}

/// Every outcome of `match_expr` ends no earlier than where it was asked to go on from.
pub proof fn reach_match_expr(ts: Seq<SpecToken>, start: int, q: int)
    requires
        0 <= start <= q,
    ensures
        match_expr(ts, start, q) matches Step::Done(k, _) ==> start + k >= q,
{
    reveal_with_fuel(crate::grammar::match_expr, 1);
    reveal_with_fuel(crate::grammar::match_arms, 1);
    if let Step::Done(n, Ok(scrut)) = expr(ts, q) {
        if let Step::Done(m, Ok(_)) = crate::grammar::expect_step(ts, q + n, TokenKind::In) {
            reach_match_arms(ts, start, scrut, q + n + m, seq![]);
        }
    }
}

/// Every outcome of `if_else` ends no earlier than where it was asked to go on from.
pub proof fn reach_if_else(ts: Seq<SpecToken>, start: int, q: int, c: SpecExpr, t: SpecExpr)
    requires
        0 <= start <= q,
    ensures
        if_else(ts, start, q, c, t) matches Step::Done(k, _) ==> start + k >= q,
{
    reveal_with_fuel(crate::grammar::if_else, 1);
}

/// Every outcome of `if_then` ends no earlier than where it was asked to go on from.
pub proof fn reach_if_then(ts: Seq<SpecToken>, start: int, q: int, c: SpecExpr)
    requires
        0 <= start <= q,
    ensures
        if_then(ts, start, q, c) matches Step::Done(k, _) ==> start + k >= q,
{
    reveal_with_fuel(crate::grammar::if_then, 1);
    reveal_with_fuel(crate::grammar::if_else, 1);
    if let Step::Done(m, Ok(_)) = crate::grammar::expect_current_step(ts, q, TokenKind::Then) {
        if let Step::Done(j, Ok(t)) = expr(ts, q + m) {
            reach_if_else(ts, start, q + m + j, c, t);
        }
    }
}

/// Every outcome of `if_expr` ends no earlier than where it was asked to go on from.
pub proof fn reach_if_expr(ts: Seq<SpecToken>, start: int, q: int)
    requires
        0 <= start <= q,
    ensures
        if_expr(ts, start, q) matches Step::Done(k, _) ==> start + k >= q,
{
    reveal_with_fuel(crate::grammar::if_expr, 1);
    reveal_with_fuel(crate::grammar::if_then, 1);
    if let Step::Done(n, Ok(c)) = expr(ts, q) {
        reach_if_then(ts, start, q + n, c);
    }
}

/// Every outcome of `let_binds` ends no earlier than where it was asked to go on from.
pub proof fn reach_let_binds(ts: Seq<SpecToken>, start: int, q: int, acc: Seq<SpecBind>)
    requires
        0 <= start <= q,
    ensures
        let_binds(ts, start, q, acc) matches Step::Done(k, _) ==> start + k >= q,
    decreases rem(ts, q),
{
    reveal_with_fuel(crate::grammar::let_binds, 1);
    if 0 <= q < ts.len() {
        lemma_advanced(ts, q);
    }
    if 0 <= q < ts.len() && !(ts[q].kind is In) {
        if let Step::Done(n, Ok(b)) = bind(ts, q) {
            if q + n < ts.len() {
                lemma_advanced(ts, q + n);
                let m = (advanced(ts, q + n) - (q + n)) as nat;
                reach_let_binds(ts, start, q + n + m, acc.push(b));
            }
        }
    }
}

/// Every outcome of `lambda_pats` ends no earlier than where it was asked to go on from.
pub proof fn reach_lambda_pats(ts: Seq<SpecToken>, start: int, q: int, acc: Seq<SpecPattern>)
    requires
        0 <= start <= q,
    ensures
        lambda_pats(ts, start, q, acc) matches Step::Done(k, _) ==> start + k >= q,
    decreases rem(ts, q),
{
    reveal_with_fuel(crate::grammar::lambda_pats, 1);
    if 0 <= q < ts.len() {
        lemma_advanced(ts, q);
    }
    if 0 <= q < ts.len() && !(ts[q].kind is Arrow) {
        if let Step::Done(n, Ok(pat)) = pattern(ts, q) {
            if n > 0 {
                reach_lambda_pats(ts, start, q + n, acc.push(pat));
            }
        }
    }
}

/// Every outcome of `exp_more` ends no earlier than where it was asked to go on from.
pub proof fn reach_exp_more(ts: Seq<SpecToken>, start: int, q: int, lhs: SpecExpr)
    requires
        0 <= start <= q,
    ensures
        exp_more(ts, start, q, lhs) matches Step::Done(k, _) ==> start + k >= q,
    decreases rem(ts, q),
{
    reveal_with_fuel(crate::grammar::exp_more, 1);
    if 0 <= q < ts.len() && ts[q].kind is Exp {
        lemma_advanced(ts, q);
        let q1 = advanced(ts, q);
        if let Step::Done(m, Ok(rhs)) = annotation(ts, q1) {
            if let Some(sp) = crate::grammar::recorded(ts, start, q1 + m) {
                reach_exp_more(
                    ts,
                    start,
                    q1 + m,
                    SpecExpr::BinOp(crate::ast::BinOp::Exp, Box::new(lhs), Box::new(rhs), sp),
                );
            }
        }
    }
}

/// Every outcome of `comparison_more` ends no earlier than where it was asked to go on from.
pub proof fn reach_comparison_more(ts: Seq<SpecToken>, start: int, q: int, lhs: SpecExpr)
    requires
        0 <= start <= q,
    ensures
        comparison_more(ts, start, q, lhs) matches Step::Done(k, _) ==> start + k >= q,
    decreases rem(ts, q),
{
    reveal_with_fuel(crate::grammar::comparison_more, 1);
    if 0 <= q < ts.len() && (ts[q].kind is Eq || ts[q].kind is Neq) {
        lemma_advanced(ts, q);
        let q1 = advanced(ts, q);
        if let Some(op) = crate::grammar::equality_op(crate::grammar::past_kind(ts, q1)) {
            if let Step::Done(m, Ok(rhs)) = exp(ts, q1) {
                if let Some(sp) = crate::grammar::recorded(ts, start, q1 + m) {
                    reach_comparison_more(
                        ts,
                        start,
                        q1 + m,
                        SpecExpr::BinOp(op, Box::new(lhs), Box::new(rhs), sp),
                    );
                }
            }
        }
    }
}

/// Every outcome of `factor_more` ends no earlier than where it was asked to go on from.
pub proof fn reach_factor_more(ts: Seq<SpecToken>, start: int, q: int, lhs: SpecExpr)
    requires
        0 <= start <= q,
    ensures
        factor_more(ts, start, q, lhs) matches Step::Done(k, _) ==> start + k >= q,
    decreases rem(ts, q),
{
    reveal_with_fuel(crate::grammar::factor_more, 1);
    if 0 <= q < ts.len() && (ts[q].kind is Mul || ts[q].kind is Div || ts[q].kind is Mod) {
        lemma_advanced(ts, q);
        let q1 = advanced(ts, q);
        if let Some(op) = crate::grammar::multiplicative_op(crate::grammar::past_kind(ts, q1)) {
            if let Step::Done(m, Ok(rhs)) = comparison(ts, q1) {
                if let Some(sp) = crate::grammar::recorded(ts, start, q1 + m) {
                    reach_factor_more(
                        ts,
                        start,
                        q1 + m,
                        SpecExpr::BinOp(op, Box::new(lhs), Box::new(rhs), sp),
                    );
                }
            }
        }
    }
}

/// Every outcome of `expr_more` ends no earlier than where it was asked to go on from.
pub proof fn reach_expr_more(ts: Seq<SpecToken>, start: int, q: int, lhs: SpecExpr)
    requires
        0 <= start <= q,
    ensures
        expr_more(ts, start, q, lhs) matches Step::Done(k, _) ==> start + k >= q,
    decreases rem(ts, q),
{
    reveal_with_fuel(crate::grammar::expr_more, 1);
    if 0 <= q < ts.len() && (ts[q].kind is Add || ts[q].kind is Sub) {
        lemma_advanced(ts, q);
        let q1 = advanced(ts, q);
        if let Some(op) = crate::grammar::additive_op(crate::grammar::past_kind(ts, q1)) {
            if let Step::Done(m, Ok(rhs)) = factor(ts, q1) {
                if let Some(sp) = crate::grammar::recorded(ts, start, q1 + m) {
                    reach_expr_more(
                        ts,
                        start,
                        q1 + m,
                        SpecExpr::BinOp(op, Box::new(lhs), Box::new(rhs), sp),
                    );
                }
            }
        }
    }
}

/// Every outcome of `bind_pats` ends no earlier than where it was asked to go on from.
pub proof fn reach_bind_pats(ts: Seq<SpecToken>, start: int, id: SpecIdentifier, q: int, acc: Seq<SpecPattern>)
    requires
        0 <= start <= q,
    ensures
        bind_pats(ts, start, id, q, acc) matches Step::Done(k, _) ==> start + k >= q,
    decreases rem(ts, q),
{
    reveal_with_fuel(crate::grammar::bind_pats, 1);
    if 0 <= q < ts.len() {
        lemma_advanced(ts, q);
    }
    if 0 <= q < ts.len() && !(ts[q].kind is Assign) {
        if let Step::Done(n, Ok(pat)) = pattern(ts, q) {
            if n > 0 {
                reach_bind_pats(ts, start, id, q + n, acc.push(pat));
            }
        }
    }
}

/// Every outcome of `variant_types` ends no earlier than where it was asked to go on from.
pub proof fn reach_variant_types(ts: Seq<SpecToken>, start: int, id: SpecIdentifier, q: int, acc: Seq<SpecType>)
    requires
        0 <= start <= q,
    ensures
        variant_types(ts, start, id, q, acc) matches Step::Done(k, _) ==> start + k >= q,
    decreases rem(ts, q),
{
    reveal_with_fuel(crate::grammar::variant_types, 1);
    if 0 <= q < ts.len() {
        if let Step::Done(n, Ok(t)) = type_(ts, q) {
            if n > 0 {
                reach_variant_types(ts, start, id, q + n, acc.push(t));
            }
        }
    }
}

/// Every outcome of `decl_variants` ends no earlier than where it was asked to go on from.
pub proof fn reach_decl_variants(
    ts: Seq<SpecToken>,
    start: int,
    id: SpecIdentifier,
    params: Seq<SpecIdentifier>,
    q: int,
    vs: Seq<SpecVariant>,
)
    requires
        0 <= start <= q,
    ensures
        decl_variants(ts, start, id, params, q, vs) matches Step::Done(k, _) ==> start + k >= q,
    decreases rem(ts, q),
{
    reveal_with_fuel(crate::grammar::decl_variants, 1);
    if 0 <= q < ts.len() && ts[q].kind is Pipe {
        lemma_advanced(ts, q);
        let q1 = advanced(ts, q);
        if let Step::Done(n, Ok(v)) = variant(ts, q1) {
            reach_decl_variants(ts, start, id, params, q1 + n, vs.push(v));
        }
    }
}

/// Every outcome of `decl_params` ends no earlier than where it was asked to go on from.
pub proof fn reach_decl_params(
    ts: Seq<SpecToken>,
    start: int,
    id: SpecIdentifier,
    q: int,
    params: Seq<SpecIdentifier>,
)
    requires
        0 <= start <= q,
    ensures
        decl_params(ts, start, id, q, params) matches Step::Done(k, _) ==> start + k >= q,
    decreases rem(ts, q),
{
    reveal_with_fuel(crate::grammar::decl_params, 1);
    reveal_with_fuel(crate::grammar::decl_variants, 1);
    if 0 <= q < ts.len() {
        lemma_advanced(ts, q);
        let q1 = advanced(ts, q);
        if ts[q].kind is Assign {
            if let Step::Done(n, Ok(v)) = variant(ts, q1) {
                reach_decl_variants(ts, start, id, params, q1 + n, seq![v]);
            }
        } else if let Step::Done(n, Ok(x)) = crate::grammar::expect_identifier_step(ts, q) {
            reach_decl_params(ts, start, id, q + n, params.push(x));
        }
    }
}

/// A binding that parses covers the region from where it started to where
/// it ended.
pub proof fn span_bind_pats(ts: Seq<SpecToken>, start: int, id: SpecIdentifier, q: int, acc: Seq<SpecPattern>)
    requires
        0 <= start <= q,
    ensures
        bind_pats(ts, start, id, q, acc) matches Step::Done(k, Ok(b)) ==> recorded(ts, start, start + k)
            == Some(b.span),
    decreases rem(ts, q),
{
    reveal_with_fuel(crate::grammar::bind_pats, 1);
    if 0 <= q < ts.len() {
        lemma_advanced(ts, q);
    }
    if 0 <= q < ts.len() && !(ts[q].kind is Assign) {
        if let Step::Done(n, Ok(pat)) = pattern(ts, q) {
            if n > 0 {
                span_bind_pats(ts, start, id, q + n, acc.push(pat));
            }
        }
    }
}

/// A type declaration that parses covers the region from where it started
/// to where it ended.
pub proof fn span_decl_variants(
    ts: Seq<SpecToken>,
    start: int,
    id: SpecIdentifier,
    params: Seq<SpecIdentifier>,
    q: int,
    vs: Seq<SpecVariant>,
)
    requires
        0 <= start <= q,
    ensures
        decl_variants(ts, start, id, params, q, vs) matches Step::Done(k, Ok(st)) ==> st is TypeDecl
            && recorded(ts, start, start + k) == Some(st->TypeDecl_0.span),
    decreases rem(ts, q),
{
    reveal_with_fuel(crate::grammar::decl_variants, 1);
    if 0 <= q < ts.len() && ts[q].kind is Pipe {
        lemma_advanced(ts, q);
        let q1 = advanced(ts, q);
        if let Step::Done(n, Ok(v)) = variant(ts, q1) {
            span_decl_variants(ts, start, id, params, q1 + n, vs.push(v));
        }
    }
}

/// As above, from the declaration's parameters on.
pub proof fn span_decl_params(
    ts: Seq<SpecToken>,
    start: int,
    id: SpecIdentifier,
    q: int,
    params: Seq<SpecIdentifier>,
)
    requires
        0 <= start <= q,
    ensures
        decl_params(ts, start, id, q, params) matches Step::Done(k, Ok(st)) ==> st is TypeDecl
            && recorded(ts, start, start + k) == Some(st->TypeDecl_0.span),
    decreases rem(ts, q),
{
    reveal_with_fuel(crate::grammar::decl_params, 1);
    reveal_with_fuel(crate::grammar::decl_variants, 1);
    if 0 <= q < ts.len() {
        lemma_advanced(ts, q);
        let q1 = advanced(ts, q);
        if ts[q].kind is Assign {
            if let Step::Done(n, Ok(v)) = variant(ts, q1) {
                span_decl_variants(ts, start, id, params, q1 + n, seq![v]);
            }
        } else if let Step::Done(n, Ok(x)) = crate::grammar::expect_identifier_step(ts, q) {
            span_decl_params(ts, start, id, q + n, params.push(x));
        }
    }
}

} // verus!
