//! Where the rules stop: never past the last token, and on a failure at the
//! very token that the error reports.
use vstd::prelude::*;
use crate::ast::{SpecBind, SpecExpr, SpecIdentifier, SpecPattern, SpecStatment, SpecType, SpecVariant};
use crate::error::SpecError;
use crate::grammar::{
    Step, advanced, annotation, app_args, bind, bind_pats, comparison, comparison_more,
    decl_params, decl_variants, exp, exp_more, expect_current_step, expect_ident_step,
    expect_step, expr, expr_more, factor, factor_more, ident_at, if_else, if_expr, if_then,
    lambda_pats, lemma_advanced, let_binds, literal, match_arms, match_expr, name_expr,
    paren_expr, pattern, pattern_primary, pattern_types, primary, program_from, recorded, rem,
    statement, stmt_identifier, tuple_items, type_, type_args, type_arrows, type_decl,
    type_primary, variant, variant_types,
};
use crate::token::{SpecToken, TokenKind};

verus! {

/// The error `e` names the token at index `i`: as the token found, and as
/// its own span.
pub open spec fn reported_at(ts: Seq<SpecToken>, i: int, e: SpecError) -> bool {
    &&& e.span == ts[i].span
    &&& e.kind->found == ts[i].span
}

/// The tokens end with an `Eof` token.
pub open spec fn closed(ts: Seq<SpecToken>) -> bool {
    ts.len() > 0 && ts.last().kind == TokenKind::Eof
}

/// A rule that ended at `end` with `res` stayed within the tokens, never
/// past a closing `Eof`, and if it failed, it stopped on the token that its
/// error names.
pub open spec fn stops_at<T>(ts: Seq<SpecToken>, end: int, res: Result<T, SpecError>) -> bool {
    &&& end <= ts.len()
    &&& closed(ts) ==> end < ts.len()
    &&& res is Err ==> 0 <= end < ts.len() && reported_at(ts, end, res->Err_0)
}

/// The outcome `s` of a rule whose distance is counted from `start` ends well.
pub open spec fn ends_well<T>(ts: Seq<SpecToken>, start: int, s: Step<T>) -> bool {
    match s {
        Step::Crash => true,
        Step::Done(k, res) => stops_at(ts, start + k, res),
    }
}

proof fn bound_expect(ts: Seq<SpecToken>, q: int, k: TokenKind)
    requires
        0 <= q,
    ensures
        ends_well(ts, q, expect_step(ts, q, k)),
{
    if q < ts.len() {
        lemma_advanced(ts, q);
    }
}

proof fn bound_expect_current(ts: Seq<SpecToken>, q: int, k: TokenKind)
    requires
        0 <= q,
        k != TokenKind::Eof,
    ensures
        ends_well(ts, q, expect_current_step(ts, q, k)),
{
    if q < ts.len() {
        lemma_advanced(ts, q);
    }
}

proof fn bound_expect_ident(ts: Seq<SpecToken>, p: int, lower: bool, upper: bool, what: Seq<char>)
    requires
        0 <= p,
    ensures
        ends_well(ts, p, expect_ident_step(ts, p, lower, upper, what)),
{
    if p < ts.len() {
        lemma_advanced(ts, p);
    }
}

proof fn bound_literal(ts: Seq<SpecToken>, p: int)
    requires
        0 <= p,
    ensures
        ends_well(ts, p, literal(ts, p)),
{
    if p < ts.len() {
        lemma_advanced(ts, p);
    }
}

// ----- types -----

proof fn bound_type_primary(ts: Seq<SpecToken>, p: int)
    requires
        0 <= p,
    ensures
        ends_well(ts, p, type_primary(ts, p)),
    decreases rem(ts, p), 0nat,
{
    reveal_with_fuel(crate::grammar::type_primary, 1);
    reveal_with_fuel(crate::grammar::type_, 1);
    reveal_with_fuel(crate::grammar::type_args, 1);
    reveal_with_fuel(crate::grammar::tuple_items, 1);
    if p < ts.len() {
        let k = ts[p].kind;
        lemma_advanced(ts, p);
        let p1 = advanced(ts, p);
        if k is Identifier || k is PCIdentifier {
            if let Some(id) = ident_at(ts, p, p1) {
                bound_type(ts, p1);
                if let Step::Done(n, Ok(t)) = type_(ts, p1) {
                    bound_type_args(ts, p, id, p1 + n, seq![t]);
                }
            }
        } else if k is LBracket {
            bound_type(ts, p1);
            if let Step::Done(n, Ok(_)) = type_(ts, p1) {
                bound_expect(ts, p1 + n, TokenKind::RBracket);
            }
        } else if k is LParen {
            bound_tuple_items(ts, p, p1, seq![]);
        }
    }
}

proof fn bound_type_args(ts: Seq<SpecToken>, start: int, id: SpecIdentifier, q: int, acc: Seq<SpecType>)
    requires
        0 <= start <= q,
    ensures
        ends_well(ts, start, type_args(ts, start, id, q, acc)),
    decreases rem(ts, q), 3nat,
{
    reveal_with_fuel(crate::grammar::type_args, 1);
    reveal_with_fuel(crate::grammar::type_, 1);
    if 0 <= q < ts.len() {
        bound_type(ts, q);
        if let Step::Done(n, Ok(t)) = type_(ts, q) {
            if n > 0 {
                bound_type_args(ts, start, id, q + n, acc.push(t));
            }
        }
    }
}

proof fn bound_tuple_items(ts: Seq<SpecToken>, start: int, q: int, acc: Seq<SpecType>)
    requires
        0 <= start <= q,
    ensures
        ends_well(ts, start, tuple_items(ts, start, q, acc)),
    decreases rem(ts, q), 3nat,
{
    reveal_with_fuel(crate::grammar::tuple_items, 1);
    reveal_with_fuel(crate::grammar::type_, 1);
    if 0 <= q < ts.len() {
        lemma_advanced(ts, q);
        if !(ts[q].kind is RParen) {
            bound_type(ts, q);
            if let Step::Done(n, Ok(t)) = type_(ts, q) {
                bound_expect(ts, q + n, TokenKind::Comma);
                if let Step::Done(m, Ok(_)) = expect_step(ts, q + n, TokenKind::Comma) {
                    lemma_advanced(ts, q + n);
                    bound_tuple_items(ts, start, q + n + m, acc.push(t));
                }
            }
        }
    }
}

proof fn bound_type(ts: Seq<SpecToken>, p: int)
    requires
        0 <= p,
    ensures
        ends_well(ts, p, type_(ts, p)),
    decreases rem(ts, p), 2nat,
{
    reveal_with_fuel(crate::grammar::type_, 1);
    reveal_with_fuel(crate::grammar::type_primary, 1);
    reveal_with_fuel(crate::grammar::type_arrows, 1);
    if p < ts.len() {
        bound_type_primary(ts, p);
        if let Step::Done(n, Ok(lhs)) = type_primary(ts, p) {
            bound_type_arrows(ts, p, p + n, lhs, seq![]);
        }
    }
}

proof fn bound_type_arrows(ts: Seq<SpecToken>, start: int, q: int, lhs: SpecType, rhs: Seq<SpecType>)
    requires
        0 <= start <= q,
    ensures
        ends_well(ts, start, type_arrows(ts, start, q, lhs, rhs)),
    decreases rem(ts, q), 1nat,
{
    reveal_with_fuel(crate::grammar::type_arrows, 1);
    reveal_with_fuel(crate::grammar::type_primary, 1);
    if 0 <= q < ts.len() && ts[q].kind is Arrow {
        lemma_advanced(ts, q);
        let q1 = advanced(ts, q);
        bound_type_primary(ts, q1);
        if let Step::Done(n, Ok(t)) = type_primary(ts, q1) {
            if let Some(sp) = recorded(ts, start, q1 + n) {
                let rhs2 = rhs.push(t);
                bound_type_arrows(ts, start, q1 + n, SpecType::Func(Box::new(lhs), rhs2, sp), rhs2);
            }
        }
    }
}

// ----- patterns -----

proof fn bound_pattern_types(ts: Seq<SpecToken>, start: int, id: SpecIdentifier, q: int, acc: Seq<SpecType>)
    requires
        0 <= start <= q,
    ensures
        ends_well(ts, start, pattern_types(ts, start, id, q, acc)),
    decreases rem(ts, q),
{
    reveal_with_fuel(crate::grammar::pattern_types, 1);
    reveal_with_fuel(crate::grammar::type_, 1);
    if 0 <= q < ts.len() {
        bound_type(ts, q);
        if let Step::Done(n, Ok(t)) = type_(ts, q) {
            if n > 0 {
                bound_pattern_types(ts, start, id, q + n, acc.push(t));
            }
        }
    }
}

proof fn bound_pattern_primary(ts: Seq<SpecToken>, p: int)
    requires
        0 <= p,
    ensures
        ends_well(ts, p, pattern_primary(ts, p)),
{
    if p < ts.len() {
        lemma_advanced(ts, p);
        let p1 = advanced(ts, p);
        bound_literal(ts, p);
        if let Some(id) = ident_at(ts, p, p1) {
            bound_type(ts, p1);
            if let Step::Done(n, Ok(t)) = type_(ts, p1) {
                bound_pattern_types(ts, p, id, p1 + n, seq![t, t]);
            }
        }
    }
}

proof fn bound_pattern(ts: Seq<SpecToken>, p: int)
    requires
        0 <= p,
    ensures
        ends_well(ts, p, pattern(ts, p)),
    decreases rem(ts, p),
{
    reveal_with_fuel(crate::grammar::pattern, 1);
    if p < ts.len() {
        bound_pattern_primary(ts, p);
        if let Step::Done(n, Ok(_)) = pattern_primary(ts, p) {
            let q = p + n;
            if 0 <= q < ts.len() && ts[q].kind is Colon {
                lemma_advanced(ts, q);
                bound_pattern(ts, advanced(ts, q));
            }
        }
    }
}

// ----- expressions -----

#[verifier::spinoff_prover]
#[verifier::rlimit(50)]
proof fn bound_primary(ts: Seq<SpecToken>, p: int)
    requires
        0 <= p,
    ensures
        ends_well(ts, p, primary(ts, p)),
    decreases rem(ts, p), 0nat,
{
    reveal_with_fuel(crate::grammar::primary, 1);
    reveal_with_fuel(crate::grammar::name_expr, 1);
    reveal_with_fuel(crate::grammar::paren_expr, 1);
    reveal_with_fuel(crate::grammar::let_binds, 1);
    reveal_with_fuel(crate::grammar::if_expr, 1);
    reveal_with_fuel(crate::grammar::match_expr, 1);
    reveal_with_fuel(crate::grammar::lambda_pats, 1);
    if p < ts.len() {
        lemma_advanced(ts, p);
        let p1 = advanced(ts, p);
        bound_name_expr(ts, p, p1);
        bound_paren_expr(ts, p, p1);
        bound_let_binds(ts, p, p1, seq![]);
        bound_if_expr(ts, p, p1);
        bound_match_expr(ts, p, p1);
        bound_lambda_pats(ts, p, p1, seq![]);
    }
}

#[verifier::spinoff_prover]
#[verifier::rlimit(50)]
proof fn bound_name_expr(ts: Seq<SpecToken>, start: int, q: int)
    requires
        0 <= start <= q,
    ensures
        ends_well(ts, start, name_expr(ts, start, q)),
    decreases rem(ts, q), 14nat,
{
    reveal_with_fuel(crate::grammar::name_expr, 1);
    reveal_with_fuel(crate::grammar::expr, 1);
    reveal_with_fuel(crate::grammar::app_args, 1);
    if start < q < ts.len() {
        if let Some(id) = ident_at(ts, start, q) {
            bound_expr(ts, q);
            if let Step::Done(n, Ok(e)) = expr(ts, q) {
                bound_app_args(ts, start, id, q + n, seq![e, e]);
            }
        }
    }
}

#[verifier::spinoff_prover]
#[verifier::rlimit(50)]
proof fn bound_paren_expr(ts: Seq<SpecToken>, start: int, q: int)
    requires
        0 <= start <= q,
    ensures
        ends_well(ts, start, paren_expr(ts, start, q)),
    decreases rem(ts, q), 14nat,
{
    reveal_with_fuel(crate::grammar::paren_expr, 1);
    reveal_with_fuel(crate::grammar::expr, 1);
    if start < q {
        bound_expr(ts, q);
        if let Step::Done(n, Ok(_)) = expr(ts, q) {
            bound_expect_current(ts, q + n, TokenKind::RParen);
        }
    }
}

#[verifier::spinoff_prover]
#[verifier::rlimit(50)]
proof fn bound_match_expr(ts: Seq<SpecToken>, start: int, q: int)
    requires
        0 <= start <= q,
    ensures
        ends_well(ts, start, match_expr(ts, start, q)),
    decreases rem(ts, q), 14nat,
{
    reveal_with_fuel(crate::grammar::match_expr, 1);
    reveal_with_fuel(crate::grammar::expr, 1);
    reveal_with_fuel(crate::grammar::match_arms, 1);
    if start < q {
        bound_expr(ts, q);
        if let Step::Done(n, Ok(scrut)) = expr(ts, q) {
            bound_expect(ts, q + n, TokenKind::In);
            if let Step::Done(m, Ok(_)) = expect_step(ts, q + n, TokenKind::In) {
                bound_match_arms(ts, start, scrut, q + n + m, seq![]);
            }
        }
    }
}

#[verifier::spinoff_prover]
#[verifier::rlimit(50)]
proof fn bound_if_expr(ts: Seq<SpecToken>, start: int, q: int)
    requires
        0 <= start <= q,
    ensures
        ends_well(ts, start, if_expr(ts, start, q)),
    decreases rem(ts, q), 14nat,
{
    reveal_with_fuel(crate::grammar::if_expr, 1);
    reveal_with_fuel(crate::grammar::expr, 1);
    reveal_with_fuel(crate::grammar::if_then, 1);
    if start < q {
        bound_expr(ts, q);
        if let Step::Done(n, Ok(c)) = expr(ts, q) {
            bound_if_then(ts, start, q + n, c);
        }
    }
}

#[verifier::spinoff_prover]
#[verifier::rlimit(50)]
proof fn bound_if_then(ts: Seq<SpecToken>, start: int, q: int, c: SpecExpr)
    requires
        0 <= start <= q,
    ensures
        ends_well(ts, start, if_then(ts, start, q, c)),
    decreases rem(ts, q), 0nat,
{
    reveal_with_fuel(crate::grammar::if_then, 1);
    reveal_with_fuel(crate::grammar::expr, 1);
    reveal_with_fuel(crate::grammar::if_else, 1);
    if start < q {
        bound_expect_current(ts, q, TokenKind::Then);
        if let Step::Done(m, Ok(_)) = expect_current_step(ts, q, TokenKind::Then) {
            lemma_advanced(ts, q);
            bound_expr(ts, q + m);
            if let Step::Done(j, Ok(t)) = expr(ts, q + m) {
                bound_if_else(ts, start, q + m + j, c, t);
            }
        }
    }
}

#[verifier::spinoff_prover]
#[verifier::rlimit(50)]
proof fn bound_if_else(ts: Seq<SpecToken>, start: int, q: int, c: SpecExpr, t: SpecExpr)
    requires
        0 <= start <= q,
    ensures
        ends_well(ts, start, if_else(ts, start, q, c, t)),
    decreases rem(ts, q), 0nat,
{
    reveal_with_fuel(crate::grammar::if_else, 1);
    reveal_with_fuel(crate::grammar::expr, 1);
    if start < q {
        bound_expect_current(ts, q, TokenKind::Else);
        if let Step::Done(h, Ok(_)) = expect_current_step(ts, q, TokenKind::Else) {
            lemma_advanced(ts, q);
            bound_expr(ts, q + h);
        }
    }
}

#[verifier::spinoff_prover]
#[verifier::rlimit(50)]
proof fn bound_app_args(ts: Seq<SpecToken>, start: int, id: SpecIdentifier, q: int, acc: Seq<SpecExpr>)
    requires
        0 <= start <= q,
    ensures
        ends_well(ts, start, app_args(ts, start, id, q, acc)),
    decreases rem(ts, q), 10nat,
{
    reveal_with_fuel(crate::grammar::app_args, 1);
    reveal_with_fuel(crate::grammar::expr, 1);
    if 0 <= q < ts.len() {
        bound_expr(ts, q);
        if let Step::Done(n, Ok(e)) = expr(ts, q) {
            if n > 0 {
                bound_app_args(ts, start, id, q + n, acc.push(e));
            }
        }
    }
}

#[verifier::spinoff_prover]
#[verifier::rlimit(50)]
proof fn bound_let_binds(ts: Seq<SpecToken>, start: int, q: int, acc: Seq<SpecBind>)
    requires
        0 <= start <= q,
    ensures
        ends_well(ts, start, let_binds(ts, start, q, acc)),
    decreases rem(ts, q), 12nat,
{
    reveal_with_fuel(crate::grammar::let_binds, 1);
    reveal_with_fuel(crate::grammar::expr, 1);
    reveal_with_fuel(crate::grammar::bind, 1);
    if 0 <= q < ts.len() {
        lemma_advanced(ts, q);
        if ts[q].kind is In {
            bound_expr(ts, advanced(ts, q));
        } else {
            bound_bind(ts, q);
            if let Step::Done(n, Ok(b)) = bind(ts, q) {
                bound_expect(ts, q + n, TokenKind::Semicolon);
                if let Step::Done(m, Ok(_)) = expect_step(ts, q + n, TokenKind::Semicolon) {
                    lemma_advanced(ts, q + n);
                    bound_let_binds(ts, start, q + n + m, acc.push(b));
                }
            }
        }
    }
}

#[verifier::spinoff_prover]
#[verifier::rlimit(50)]
proof fn bound_match_arms(
    ts: Seq<SpecToken>,
    start: int,
    scrut: SpecExpr,
    q: int,
    acc: Seq<(SpecPattern, SpecExpr)>,
)
    requires
        0 <= start <= q,
    ensures
        ends_well(ts, start, match_arms(ts, start, scrut, q, acc)),
    decreases rem(ts, q), 0nat,
{
    reveal_with_fuel(crate::grammar::match_arms, 1);
    reveal_with_fuel(crate::grammar::expr, 1);
    reveal_with_fuel(crate::grammar::pattern, 1);
    if 0 <= q < ts.len() && ts[q].kind is Pipe {
        lemma_advanced(ts, q);
        let q1 = advanced(ts, q);
        bound_pattern(ts, q1);
        if let Step::Done(n, Ok(pat)) = pattern(ts, q1) {
            bound_expect(ts, q1 + n, TokenKind::Arrow);
            if let Step::Done(m, Ok(_)) = expect_step(ts, q1 + n, TokenKind::Arrow) {
                let q2 = q1 + n + m;
                bound_expr(ts, q2);
                if let Step::Done(j, Ok(e)) = expr(ts, q2) {
                    bound_match_arms(ts, start, scrut, q2 + j, acc.push((pat, e)));
                }
            }
        }
    }
}

#[verifier::spinoff_prover]
#[verifier::rlimit(50)]
proof fn bound_lambda_pats(ts: Seq<SpecToken>, start: int, q: int, acc: Seq<SpecPattern>)
    requires
        0 <= start <= q,
    ensures
        ends_well(ts, start, lambda_pats(ts, start, q, acc)),
    decreases rem(ts, q), 0nat,
{
    reveal_with_fuel(crate::grammar::lambda_pats, 1);
    reveal_with_fuel(crate::grammar::expr, 1);
    reveal_with_fuel(crate::grammar::pattern, 1);
    if 0 <= q < ts.len() {
        lemma_advanced(ts, q);
        if ts[q].kind is Arrow {
            bound_expr(ts, advanced(ts, q));
        } else {
            bound_pattern(ts, q);
            if let Step::Done(n, Ok(pat)) = pattern(ts, q) {
                if n > 0 {
                    bound_lambda_pats(ts, start, q + n, acc.push(pat));
                }
            }
        }
    }
}

proof fn bound_annotation(ts: Seq<SpecToken>, p: int)
    requires
        0 <= p,
    ensures
        ends_well(ts, p, annotation(ts, p)),
    decreases rem(ts, p), 1nat,
{
    reveal_with_fuel(crate::grammar::annotation, 1);
    reveal_with_fuel(crate::grammar::primary, 1);
    reveal_with_fuel(crate::grammar::type_, 1);
    if p < ts.len() {
        bound_primary(ts, p);
        if let Step::Done(n, Ok(_)) = primary(ts, p) {
            let q = p + n;
            if 0 <= q < ts.len() && ts[q].kind is DoubleCollon {
                lemma_advanced(ts, q);
                bound_type(ts, advanced(ts, q));
            }
        }
    }
}

proof fn bound_exp(ts: Seq<SpecToken>, p: int)
    requires
        0 <= p,
    ensures
        ends_well(ts, p, exp(ts, p)),
    decreases rem(ts, p), 3nat,
{
    reveal_with_fuel(crate::grammar::exp, 1);
    reveal_with_fuel(crate::grammar::annotation, 1);
    reveal_with_fuel(crate::grammar::exp_more, 1);
    if p < ts.len() {
        bound_annotation(ts, p);
        if let Step::Done(n, Ok(lhs)) = annotation(ts, p) {
            bound_exp_more(ts, p, p + n, lhs);
        }
    }
}

proof fn bound_exp_more(ts: Seq<SpecToken>, start: int, q: int, lhs: SpecExpr)
    requires
        0 <= start <= q,
    ensures
        ends_well(ts, start, exp_more(ts, start, q, lhs)),
    decreases rem(ts, q), 2nat,
{
    reveal_with_fuel(crate::grammar::exp_more, 1);
    reveal_with_fuel(crate::grammar::annotation, 1);
    if 0 <= q < ts.len() && ts[q].kind is Exp {
        lemma_advanced(ts, q);
        let q1 = advanced(ts, q);
        bound_annotation(ts, q1);
        if let Step::Done(m, Ok(rhs)) = annotation(ts, q1) {
            if let Some(sp) = recorded(ts, start, q1 + m) {
                bound_exp_more(
                    ts,
                    start,
                    q1 + m,
                    SpecExpr::BinOp(crate::ast::BinOp::Exp, Box::new(lhs), Box::new(rhs), sp),
                );
            }
        }
    }
}

proof fn bound_comparison(ts: Seq<SpecToken>, p: int)
    requires
        0 <= p,
    ensures
        ends_well(ts, p, comparison(ts, p)),
    decreases rem(ts, p), 5nat,
{
    reveal_with_fuel(crate::grammar::comparison, 1);
    reveal_with_fuel(crate::grammar::exp, 1);
    reveal_with_fuel(crate::grammar::comparison_more, 1);
    if p < ts.len() {
        bound_exp(ts, p);
        if let Step::Done(n, Ok(lhs)) = exp(ts, p) {
            bound_comparison_more(ts, p, p + n, lhs);
        }
    }
}

proof fn bound_comparison_more(ts: Seq<SpecToken>, start: int, q: int, lhs: SpecExpr)
    requires
        0 <= start <= q,
    ensures
        ends_well(ts, start, comparison_more(ts, start, q, lhs)),
    decreases rem(ts, q), 4nat,
{
    reveal_with_fuel(crate::grammar::comparison_more, 1);
    reveal_with_fuel(crate::grammar::exp, 1);
    if 0 <= q < ts.len() && (ts[q].kind is Eq || ts[q].kind is Neq) {
        lemma_advanced(ts, q);
        let q1 = advanced(ts, q);
        if let Some(op) = crate::grammar::equality_op(crate::grammar::past_kind(ts, q1)) {
            bound_exp(ts, q1);
            if let Step::Done(m, Ok(rhs)) = exp(ts, q1) {
                if let Some(sp) = recorded(ts, start, q1 + m) {
                    bound_comparison_more(
                        ts,
                        start,
                        q1 + m,
                        SpecExpr::BinOp(op, Box::new(lhs), Box::new(rhs), sp),
                    );
                }
            }
        }
    }
}

proof fn bound_factor(ts: Seq<SpecToken>, p: int)
    requires
        0 <= p,
    ensures
        ends_well(ts, p, factor(ts, p)),
    decreases rem(ts, p), 7nat,
{
    reveal_with_fuel(crate::grammar::factor, 1);
    reveal_with_fuel(crate::grammar::comparison, 1);
    reveal_with_fuel(crate::grammar::factor_more, 1);
    if p < ts.len() {
        bound_comparison(ts, p);
        if let Step::Done(n, Ok(lhs)) = comparison(ts, p) {
            bound_factor_more(ts, p, p + n, lhs);
        }
    }
}

proof fn bound_factor_more(ts: Seq<SpecToken>, start: int, q: int, lhs: SpecExpr)
    requires
        0 <= start <= q,
    ensures
        ends_well(ts, start, factor_more(ts, start, q, lhs)),
    decreases rem(ts, q), 6nat,
{
    reveal_with_fuel(crate::grammar::factor_more, 1);
    reveal_with_fuel(crate::grammar::comparison, 1);
    if 0 <= q < ts.len() && (ts[q].kind is Mul || ts[q].kind is Div || ts[q].kind is Mod) {
        lemma_advanced(ts, q);
        let q1 = advanced(ts, q);
        if let Some(op) = crate::grammar::multiplicative_op(crate::grammar::past_kind(ts, q1)) {
            bound_comparison(ts, q1);
            if let Step::Done(m, Ok(rhs)) = comparison(ts, q1) {
                if let Some(sp) = recorded(ts, start, q1 + m) {
                    bound_factor_more(
                        ts,
                        start,
                        q1 + m,
                        SpecExpr::BinOp(op, Box::new(lhs), Box::new(rhs), sp),
                    );
                }
            }
        }
    }
}

proof fn bound_expr(ts: Seq<SpecToken>, p: int)
    requires
        0 <= p,
    ensures
        ends_well(ts, p, expr(ts, p)),
    decreases rem(ts, p), 9nat,
{
    reveal_with_fuel(crate::grammar::expr, 1);
    reveal_with_fuel(crate::grammar::factor, 1);
    reveal_with_fuel(crate::grammar::expr_more, 1);
    if p < ts.len() {
        bound_factor(ts, p);
        if let Step::Done(n, Ok(lhs)) = factor(ts, p) {
            bound_expr_more(ts, p, p + n, lhs);
        }
    }
}

proof fn bound_expr_more(ts: Seq<SpecToken>, start: int, q: int, lhs: SpecExpr)
    requires
        0 <= start <= q,
    ensures
        ends_well(ts, start, expr_more(ts, start, q, lhs)),
    decreases rem(ts, q), 8nat,
{
    reveal_with_fuel(crate::grammar::expr_more, 1);
    reveal_with_fuel(crate::grammar::factor, 1);
    if 0 <= q < ts.len() && (ts[q].kind is Add || ts[q].kind is Sub) {
        lemma_advanced(ts, q);
        let q1 = advanced(ts, q);
        if let Some(op) = crate::grammar::additive_op(crate::grammar::past_kind(ts, q1)) {
            bound_factor(ts, q1);
            if let Step::Done(m, Ok(rhs)) = factor(ts, q1) {
                if let Some(sp) = recorded(ts, start, q1 + m) {
                    bound_expr_more(
                        ts,
                        start,
                        q1 + m,
                        SpecExpr::BinOp(op, Box::new(lhs), Box::new(rhs), sp),
                    );
                }
            }
        }
    }
}

proof fn bound_bind(ts: Seq<SpecToken>, p: int)
    requires
        0 <= p,
    ensures
        ends_well(ts, p, bind(ts, p)),
    decreases rem(ts, p), 11nat,
{
    reveal_with_fuel(crate::grammar::bind, 1);
    reveal_with_fuel(crate::grammar::bind_pats, 1);
    if p < ts.len() {
        lemma_advanced(ts, p);
        bound_expect_ident(ts, p, true, false, "identifier"@);
        if let Step::Done(n, Ok(id)) = crate::grammar::expect_identifier_step(ts, p) {
            bound_bind_pats(ts, p, id, p + n, seq![]);
        }
    }
}

#[verifier::spinoff_prover]
#[verifier::rlimit(50)]
proof fn bound_bind_pats(ts: Seq<SpecToken>, start: int, id: SpecIdentifier, q: int, acc: Seq<SpecPattern>)
    requires
        0 <= start <= q,
    ensures
        ends_well(ts, start, bind_pats(ts, start, id, q, acc)),
    decreases rem(ts, q), 0nat,
{
    reveal_with_fuel(crate::grammar::bind_pats, 1);
    reveal_with_fuel(crate::grammar::expr, 1);
    reveal_with_fuel(crate::grammar::pattern, 1);
    if 0 <= q < ts.len() {
        lemma_advanced(ts, q);
        if ts[q].kind is Assign {
            bound_expr(ts, advanced(ts, q));
        } else {
            bound_pattern(ts, q);
            if let Step::Done(n, Ok(pat)) = pattern(ts, q) {
                if n > 0 {
                    bound_bind_pats(ts, start, id, q + n, acc.push(pat));
                }
            }
        }
    }
}

// ----- statements -----

proof fn bound_variant_types(
    ts: Seq<SpecToken>,
    start: int,
    id: SpecIdentifier,
    q: int,
    acc: Seq<SpecType>,
)
    requires
        0 <= start <= q,
    ensures
        ends_well(ts, start, variant_types(ts, start, id, q, acc)),
    decreases rem(ts, q),
{
    reveal_with_fuel(crate::grammar::variant_types, 1);
    reveal_with_fuel(crate::grammar::type_, 1);
    if 0 <= q < ts.len() {
        bound_type(ts, q);
        if let Step::Done(n, Ok(t)) = type_(ts, q) {
            if n > 0 {
                bound_variant_types(ts, start, id, q + n, acc.push(t));
            }
        }
    }
}

proof fn bound_variant(ts: Seq<SpecToken>, p: int)
    requires
        0 <= p,
    ensures
        ends_well(ts, p, variant(ts, p)),
{
    bound_expect_ident(ts, p, false, true, "pascal case identifier"@);
    if let Step::Done(n, Ok(id)) = crate::grammar::expect_pc_identifier_step(ts, p) {
        bound_variant_types(ts, p, id, p + n, seq![]);
    }
}

proof fn bound_decl_variants(
    ts: Seq<SpecToken>,
    start: int,
    id: SpecIdentifier,
    params: Seq<SpecIdentifier>,
    q: int,
    vs: Seq<SpecVariant>,
)
    requires
        0 <= start <= q,
    ensures
        ends_well(ts, start, decl_variants(ts, start, id, params, q, vs)),
    decreases rem(ts, q),
{
    reveal_with_fuel(crate::grammar::decl_variants, 1);
    if 0 <= q < ts.len() && ts[q].kind is Pipe {
        lemma_advanced(ts, q);
        let q1 = advanced(ts, q);
        bound_variant(ts, q1);
        if let Step::Done(n, Ok(v)) = variant(ts, q1) {
            bound_decl_variants(ts, start, id, params, q1 + n, vs.push(v));
        }
    }
}

proof fn bound_decl_params(
    ts: Seq<SpecToken>,
    start: int,
    id: SpecIdentifier,
    q: int,
    params: Seq<SpecIdentifier>,
)
    requires
        0 <= start <= q,
    ensures
        ends_well(ts, start, decl_params(ts, start, id, q, params)),
    decreases rem(ts, q),
{
    reveal_with_fuel(crate::grammar::decl_params, 1);
    reveal_with_fuel(crate::grammar::decl_variants, 1);
    if 0 <= q < ts.len() {
        lemma_advanced(ts, q);
        let q1 = advanced(ts, q);
        if ts[q].kind is Assign {
            bound_variant(ts, q1);
            if let Step::Done(n, Ok(v)) = variant(ts, q1) {
                bound_decl_variants(ts, start, id, params, q1 + n, seq![v]);
            }
        } else {
            bound_expect_ident(ts, q, true, false, "identifier"@);
            if let Step::Done(n, Ok(x)) = crate::grammar::expect_identifier_step(ts, q) {
                bound_decl_params(ts, start, id, q + n, params.push(x));
            }
        }
    }
}

proof fn bound_type_decl(ts: Seq<SpecToken>, p: int)
    requires
        0 <= p,
    ensures
        ends_well(ts, p, type_decl(ts, p)),
{
    if p < ts.len() {
        lemma_advanced(ts, p);
    }
    let q1 = advanced(ts, p);
    bound_expect_ident(ts, q1, false, true, "pascal case identifier"@);
    if let Step::Done(n, Ok(id)) = crate::grammar::expect_pc_identifier_step(ts, q1) {
        bound_decl_params(ts, p, id, q1 + n, seq![]);
    }
}

proof fn bound_stmt_identifier(ts: Seq<SpecToken>, p: int)
    requires
        0 <= p,
    ensures
        ends_well(ts, p, stmt_identifier(ts, p)),
{
    bound_expect_ident(ts, p, true, false, "identifier"@);
    if p < ts.len() && ts[p].kind is Identifier {
        lemma_advanced(ts, p);
        let p1 = advanced(ts, p);
        if p1 < ts.len() {
            lemma_advanced(ts, p1);
            bound_type(ts, advanced(ts, p1));
            crate::grammar::lemma_back_up_pos(ts, p, p1);
            bound_bind(ts, p);
        }
    }
}

proof fn bound_statement(ts: Seq<SpecToken>, p: int)
    requires
        0 <= p,
    ensures
        ends_well(ts, p, statement(ts, p)),
{
    bound_stmt_identifier(ts, p);
    bound_type_decl(ts, p);
}

proof fn bound_program_from(ts: Seq<SpecToken>, start: int, p: int, acc: Seq<SpecStatment>)
    requires
        0 <= start <= p <= ts.len(),
        closed(ts) ==> p < ts.len(),
    ensures
        ends_well(ts, start, program_from(ts, start, p, acc)),
    decreases rem(ts, p),
{
    reveal_with_fuel(crate::grammar::program_from, 1);
    if p < ts.len() && !(ts[p].kind is Eof) {
        bound_statement(ts, p);
        if let Step::Done(n, Ok(st)) = statement(ts, p) {
            if n > 0 {
                bound_program_from(ts, start, p + n, acc.push(st));
            }
        }
    }
}

/// No rule moves past the last token, nor onto the end of tokens that close
/// with `Eof`; and a rule that fails stops on the very token that its error
/// names, both as the token found and as the error's span.
pub proof fn lemma_rules_stop_within_tokens(ts: Seq<SpecToken>, p: int)
    requires
        0 <= p,
    ensures
        ends_well(ts, p, type_(ts, p)),
        ends_well(ts, p, pattern(ts, p)),
        ends_well(ts, p, expr(ts, p)),
        ends_well(ts, p, bind(ts, p)),
        ends_well(ts, p, statement(ts, p)),
        p <= ts.len() && (closed(ts) ==> p < ts.len()) ==> ends_well(
            ts,
            p,
            crate::grammar::program(ts, p),
        ),
{
    bound_type(ts, p);
    bound_pattern(ts, p);
    bound_expr(ts, p);
    bound_bind(ts, p);
    bound_statement(ts, p);
    if p <= ts.len() && (closed(ts) ==> p < ts.len()) {
        bound_program_from(ts, p, p, seq![]);
    }
}

} // verus!
