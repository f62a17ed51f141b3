//! What the nodes that the parser builds are made of: literal values taken
//! from their tokens, applications, conditionals and type declarations
//! described by the pieces of input they consist of.
use vstd::prelude::*;
use crate::ast::{
    Bool, SpecExpr, SpecIdentifier, SpecLiteralKind, SpecPattern, SpecStatment, SpecVariant,
};
use crate::grammar::{
    Step, advanced, app_args, decl_params, decl_variants, expect_identifier_step,
    expect_pc_identifier_step, expr, statement, variant, ident_at, lemma_advanced, literal, name_expr, pattern_primary,
    primary, recorded, rem,
};
use crate::token::{SpecToken, TokenKind};

verus! {

/// The sequence `s` is what `rule` reads one after another from `q`, each
/// item moving forward, the last one ending at `end`.
pub open spec fn consecutive<T>(rule: spec_fn(int) -> Step<T>, q: int, end: int, s: Seq<T>) -> bool
    decreases s.len(),
{
    if s.len() == 0 {
        q == end
    } else {
        match rule(q) {
            Step::Done(m, Ok(x)) => m > 0 && x == s[0] && consecutive(rule, q + m, end, s.drop_first()),
            _ => false,
        }
    }
}

/// The expression rule as a function of the position.
pub open spec fn expr_at(ts: Seq<SpecToken>) -> spec_fn(int) -> Step<SpecExpr> {
    |x: int| expr(ts, x)
}

/// At `q` no expression parses: the attempt fails after moving to `end`.
pub open spec fn expr_fails_to(ts: Seq<SpecToken>, q: int, end: int) -> bool {
    match expr(ts, q) {
        Step::Done(j, Err(_)) => q + j == end,
        _ => false,
    }
}

// ----- literals -----

/// The value of a literal node is the one its token spells: `true` and
/// `false` give those truth values, an integer token its number, a float
/// token its text, a string token its text without the quotes.
pub open spec fn value_of_token(t: SpecToken, v: SpecLiteralKind) -> bool {
    &&& t.kind == TokenKind::True ==> v == SpecLiteralKind::Bool(Bool::True)
    &&& t.kind == TokenKind::False ==> v == SpecLiteralKind::Bool(Bool::False)
    &&& t.kind matches TokenKind::Integer(i) ==> v == SpecLiteralKind::Integer(i)
    &&& t.kind == TokenKind::Float ==> v == SpecLiteralKind::Float(t.span.input)
    &&& t.kind == TokenKind::String && t.span.input.len() >= 2 ==> v == SpecLiteralKind::String(
        t.span.input.subrange(1, t.span.input.len() - 1),
    )
}

/// A literal token read as a pattern, or a number or string token read as
/// an expression, gives a literal with the value the token spells, covering
/// that one token.
pub proof fn lemma_literal_values(ts: Seq<SpecToken>, p: int)
    requires
        0 <= p < ts.len(),
    ensures
        literal(ts, p) matches Step::Done(n, Ok(l)) ==> value_of_token(ts[p], l.kind) && p + n
            == advanced(ts, p) && recorded(ts, p, p + n) == Some(l.span),
        ts[p].kind is Integer || ts[p].kind is Float || ts[p].kind is String || ts[p].kind is True
            || ts[p].kind is False ==> (pattern_primary(ts, p) matches Step::Done(n, Ok(pat))
            ==> pat matches SpecPattern::Literal(l) && value_of_token(ts[p], l.kind) && p + n
            == advanced(ts, p)),
        ts[p].kind is Integer || ts[p].kind is Float || ts[p].kind is String ==> (primary(
            ts,
            p,
        ) matches Step::Done(n, Ok(e)) ==> e matches SpecExpr::Literal(l) && value_of_token(
            ts[p],
            l.kind,
        ) && p + n == advanced(ts, p) && recorded(ts, p, p + n) == Some(l.span)),
{
    reveal_with_fuel(crate::grammar::primary, 1);
    reveal_with_fuel(crate::grammar::name_expr, 1);
    reveal_with_fuel(crate::grammar::if_expr, 1);
    lemma_advanced(ts, p);
}

// ----- applications -----

/// What `app_args` gives: the arguments so far followed by the expressions
/// read one after another from `q`, up to the first position where an
/// expression fails; the application ends where that failed attempt ended.
proof fn app_shape(ts: Seq<SpecToken>, start: int, id: SpecIdentifier, q: int, acc: Seq<SpecExpr>) -> (r: (Seq<SpecExpr>, int))
    requires
        start <= q,
    ensures
        app_args(ts, start, id, q, acc) matches Step::Done(k, Ok(e)) ==> e matches SpecExpr::App(a)
            && a.id == id && a.args == acc + r.0 && consecutive(expr_at(ts), q, r.1, r.0)
            && expr_fails_to(ts, r.1, start + k) && recorded(ts, start, start + k) == Some(a.span),
    decreases rem(ts, q),
{
    reveal_with_fuel(crate::grammar::app_args, 1);
    if 0 <= q < ts.len() {
        match expr(ts, q) {
            Step::Done(n, Ok(e)) => {
                if n > 0 {
                    let (rest, qe) = app_shape(ts, start, id, q + n, acc.push(e));
                    let r = seq![e] + rest;
                    assert(r.drop_first() =~= rest);
                    assert(acc.push(e) + rest =~= acc + r);
                    assert(expr_at(ts)(q) == expr(ts, q));
                    return (r, qe);
                }
            },
            Step::Done(n, Err(_)) => {
                assert(acc + Seq::<SpecExpr>::empty() =~= acc);
                return (Seq::empty(), q);
            },
            _ => {},
        }
    }
    (Seq::empty(), q)
}

/// A name at `p` followed by an expression is an application of that name:
/// its arguments are the first expression after the name, listed twice,
/// then every further expression read one after another, up to the first
/// position where no expression parses, where the application ends.
/// Without an expression after it, the name stands alone.
pub proof fn lemma_application_shape(ts: Seq<SpecToken>, p: int)
    requires
        0 <= p < ts.len(),
        ts[p].kind is Identifier || ts[p].kind is PCIdentifier,
    ensures
        primary(ts, p) matches Step::Done(n, Ok(e)) ==> ({
            let q = advanced(ts, p);
            match e {
                SpecExpr::App(a) => {
                    &&& a.id.name == ts[p].span.input
                    &&& a.args.len() >= 2
                    &&& a.args[0] == a.args[1]
                    &&& exists|qe: int|
                        #![trigger expr_fails_to(ts, qe, p + n)]
                        consecutive(expr_at(ts), q, qe, a.args.drop_first()) && expr_fails_to(
                            ts,
                            qe,
                            p + n,
                        )
                    &&& recorded(ts, p, p + n) == Some(a.span)
                },
                SpecExpr::Identifier(id) => ts[p].kind is Identifier && id.name == ts[p].span.input
                    && expr(ts, q) is Done && expr(ts, q)->Done_1 is Err && p + n == q,
                SpecExpr::Id(id) => ts[p].kind is PCIdentifier && id.name == ts[p].span.input
                    && expr(ts, q) is Done && expr(ts, q)->Done_1 is Err && p + n == q,
                _ => false,
            }
        }),
{
    reveal_with_fuel(crate::grammar::primary, 1);
    reveal_with_fuel(crate::grammar::name_expr, 1);
    reveal_with_fuel(crate::grammar::if_expr, 1);
    reveal_with_fuel(crate::grammar::app_args, 1);
    lemma_advanced(ts, p);
    let q = advanced(ts, p);
    if let Some(id) = ident_at(ts, p, q) {
        if let Step::Done(m, Ok(e0)) = expr(ts, q) {
            let (rest, qe) = app_shape(ts, p, id, q + m, seq![e0, e0]);
            if let Step::Done(n, Ok(SpecExpr::App(a))) = primary(ts, p) {
                assert(name_expr(ts, p, q) == app_args(ts, p, id, q + m, seq![e0, e0]));
                crate::properties::lemma_success_moves_forward(ts, q);
                assert(a.args.drop_first() =~= seq![e0] + rest);
                assert((seq![e0] + rest).drop_first() =~= rest);
                assert(expr_at(ts)(q) == expr(ts, q));
                assert(consecutive(expr_at(ts), q, qe, a.args.drop_first()));
                assert(expr_fails_to(ts, qe, p + n));
            }
        }
    }
}

// ----- conditionals -----

/// The pieces of `if c then t else f` read from the `if` at `p` to `end`:
/// the condition is the expression right after `if`, ending at the `then`
/// at `qt`; the first branch is the expression right after `then`, ending
/// at the `else` at `qe`; the second branch is the expression right after
/// `else`, ending at `end`.
pub open spec fn if_parts(
    ts: Seq<SpecToken>,
    p: int,
    qt: int,
    qe: int,
    end: int,
    c: SpecExpr,
    t: SpecExpr,
    f: SpecExpr,
) -> bool {
    let q = advanced(ts, p);
    let qt1 = advanced(ts, qt);
    let qe1 = advanced(ts, qe);
    &&& q <= qt < ts.len()
    &&& ts[qt].kind == TokenKind::Then
    &&& expr(ts, q) == Step::Done((qt - q) as nat, Ok::<SpecExpr, crate::error::SpecError>(c))
    &&& qt1 <= qe < ts.len()
    &&& ts[qe].kind == TokenKind::Else
    &&& expr(ts, qt1) == Step::Done((qe - qt1) as nat, Ok::<SpecExpr, crate::error::SpecError>(t))
    &&& qe1 <= end
    &&& expr(ts, qe1) == Step::Done((end - qe1) as nat, Ok::<SpecExpr, crate::error::SpecError>(f))
}

/// An `if` read as an expression is a conditional whose condition and
/// branches are the three whole expressions after `if`, `then` and `else`;
/// it ends where the expression after `else` ends.
pub proof fn lemma_conditional_shape(ts: Seq<SpecToken>, p: int)
    requires
        0 <= p < ts.len(),
        ts[p].kind is If,
    ensures
        primary(ts, p) matches Step::Done(n, Ok(e)) ==> e matches SpecExpr::Condition(c, t, f, sp)
            && recorded(ts, p, p + n) == Some(sp) && exists|qt: int, qe: int|
            #![trigger if_parts(ts, p, qt, qe, p + n, *c, *t, *f)]
            if_parts(ts, p, qt, qe, p + n, *c, *t, *f),
{
    reveal_with_fuel(crate::grammar::primary, 1);
    reveal_with_fuel(crate::grammar::name_expr, 1);
    reveal_with_fuel(crate::grammar::if_expr, 1);
    reveal_with_fuel(crate::grammar::if_then, 1);
    reveal_with_fuel(crate::grammar::if_else, 1);
    lemma_advanced(ts, p);
    let q = advanced(ts, p);
    if let Step::Done(n1, Ok(c)) = expr(ts, q) {
        let qt = q + n1;
        if let Step::Done(m, Ok(_)) = crate::grammar::expect_current_step(ts, qt, TokenKind::Then) {
            lemma_advanced(ts, qt);
            if let Step::Done(j, Ok(t)) = expr(ts, qt + m) {
                let qe = qt + m + j;
                if let Step::Done(h, Ok(_)) = crate::grammar::expect_current_step(
                    ts,
                    qe,
                    TokenKind::Else,
                ) {
                    lemma_advanced(ts, qe);
                    if let Step::Done(g, Ok(f)) = expr(ts, qe + h) {
                        if let Step::Done(n, Ok(SpecExpr::Condition(c2, t2, f2, sp))) = primary(ts, p) {
                            assert(if_parts(ts, p, qt, qe, p + n, *c2, *t2, *f2));
                        }
                    }
                }
            }
        }
    }
}

// ----- type declarations -----

/// The lower-case identifier rule as a function of the position.
pub open spec fn identifier_at(ts: Seq<SpecToken>) -> spec_fn(int) -> Step<SpecIdentifier> {
    |x: int| expect_identifier_step(ts, x)
}

/// The variants `vs`, each read right after a `|`, one after another from
/// `q`, the last one ending at `end`.
pub open spec fn piped_variants(ts: Seq<SpecToken>, q: int, end: int, vs: Seq<SpecVariant>) -> bool
    decreases vs.len(),
{
    if vs.len() == 0 {
        q == end
    } else {
        &&& 0 <= q < ts.len()
        &&& ts[q].kind == TokenKind::Pipe
        &&& match variant(ts, advanced(ts, q)) {
            Step::Done(m, Ok(v)) => v == vs[0] && piped_variants(
                ts,
                advanced(ts, q) + m,
                end,
                vs.drop_first(),
            ),
            _ => false,
        }
    }
}

/// The pieces of `type Name params = V1 | V2 ...` read from the `type` at
/// `p` to `end`: the name right after `type`; then the lower-case
/// identifiers read one after another up to the `=` at `qa`; then the first
/// variant right after `=`, and the others each after a `|`, up to `end`,
/// where no `|` follows.
pub open spec fn declaration_parts(
    ts: Seq<SpecToken>,
    p: int,
    qa: int,
    end: int,
    id: SpecIdentifier,
    params: Seq<SpecIdentifier>,
    variants: Seq<SpecVariant>,
) -> bool {
    let q1 = advanced(ts, p);
    let qa1 = advanced(ts, qa);
    &&& match expect_pc_identifier_step(ts, q1) {
        Step::Done(m, Ok(name)) => name == id && consecutive(identifier_at(ts), q1 + m, qa, params),
        _ => false,
    }
    &&& 0 <= qa < ts.len()
    &&& ts[qa].kind == TokenKind::Assign
    &&& variants.len() >= 1
    &&& match variant(ts, qa1) {
        Step::Done(m, Ok(v)) => v == variants[0] && piped_variants(
            ts,
            qa1 + m,
            end,
            variants.drop_first(),
        ),
        _ => false,
    }
    &&& 0 <= end < ts.len()
    &&& ts[end].kind != TokenKind::Pipe
}

proof fn variants_shape(
    ts: Seq<SpecToken>,
    start: int,
    id: SpecIdentifier,
    params: Seq<SpecIdentifier>,
    q: int,
    vs: Seq<SpecVariant>,
) -> (rest: Seq<SpecVariant>)
    requires
        start <= q,
    ensures
        decl_variants(ts, start, id, params, q, vs) matches Step::Done(k, Ok(st)) ==> st matches SpecStatment::TypeDecl(
            d,
        ) && d.id == id && d.params == params && d.variants == vs + rest && piped_variants(
            ts,
            q,
            start + k,
            rest,
        ) && 0 <= start + k < ts.len() && ts[start + k].kind != TokenKind::Pipe && recorded(
            ts,
            start,
            start + k,
        ) == Some(d.span),
    decreases rem(ts, q),
{
    reveal_with_fuel(crate::grammar::decl_variants, 1);
    if 0 <= q < ts.len() {
        if ts[q].kind is Pipe {
            lemma_advanced(ts, q);
            let q1 = advanced(ts, q);
            if let Step::Done(n, Ok(v)) = variant(ts, q1) {
                let rest = variants_shape(ts, start, id, params, q1 + n, vs.push(v));
                let r = seq![v] + rest;
                assert(r.drop_first() =~= rest);
                assert(vs.push(v) + rest =~= vs + r);
                return r;
            }
        } else {
            assert(vs + Seq::<SpecVariant>::empty() =~= vs);
        }
    }
    Seq::empty()
}

proof fn params_shape(
    ts: Seq<SpecToken>,
    start: int,
    id: SpecIdentifier,
    q: int,
    params: Seq<SpecIdentifier>,
) -> (r: (Seq<SpecIdentifier>, int))
    requires
        start <= q,
    ensures
        decl_params(ts, start, id, q, params) matches Step::Done(k, Ok(st)) ==> st matches SpecStatment::TypeDecl(
            d,
        ) && d.id == id && d.params == params + r.0 && consecutive(identifier_at(ts), q, r.1, r.0)
            && 0 <= r.1 < ts.len() && ts[r.1].kind == TokenKind::Assign && d.variants.len() >= 1
            && (variant(ts, advanced(ts, r.1)) matches Step::Done(m, Ok(v)) && v == d.variants[0]
            && piped_variants(ts, advanced(ts, r.1) + m, start + k, d.variants.drop_first())) && 0
            <= start + k < ts.len() && ts[start + k].kind != TokenKind::Pipe && recorded(
            ts,
            start,
            start + k,
        ) == Some(d.span),
    decreases rem(ts, q),
{
    reveal_with_fuel(crate::grammar::decl_params, 1);
    reveal_with_fuel(crate::grammar::decl_variants, 1);
    if 0 <= q < ts.len() {
        lemma_advanced(ts, q);
        let q1 = advanced(ts, q);
        if ts[q].kind is Assign {
            if let Step::Done(n, Ok(v)) = variant(ts, q1) {
                let rest = variants_shape(ts, start, id, params, q1 + n, seq![v]);
                assert((seq![v] + rest).drop_first() =~= rest);
                assert(params + Seq::<SpecIdentifier>::empty() =~= params);
                return (Seq::empty(), q);
            }
        } else if let Step::Done(n, Ok(x)) = expect_identifier_step(ts, q) {
            let (ps, qa) = params_shape(ts, start, id, q + n, params.push(x));
            let r = seq![x] + ps;
            assert(r.drop_first() =~= ps);
            assert(params.push(x) + ps =~= params + r);
            assert(identifier_at(ts)(q) == expect_identifier_step(ts, q));
            return (r, qa);
        }
    }
    (Seq::empty(), q)
}

/// A statement that starts with `type` is a type declaration made of: the
/// name after `type`, the identifiers read one after another up to `=` as
/// its parameters, in order, and the variants after `=` and after each `|`;
/// it ends where no further `|` follows.
pub proof fn lemma_type_declaration_shape(ts: Seq<SpecToken>, p: int)
    requires
        0 <= p < ts.len(),
        ts[p].kind is Type,
    ensures
        statement(ts, p) matches Step::Done(n, Ok(st)) ==> st matches SpecStatment::TypeDecl(d)
            && recorded(ts, p, p + n) == Some(d.span) && exists|qa: int|
            #![trigger declaration_parts(ts, p, qa, p + n, d.id, d.params, d.variants)]
            declaration_parts(ts, p, qa, p + n, d.id, d.params, d.variants),
{
    lemma_advanced(ts, p);
    let q1 = advanced(ts, p);
    if let Step::Done(m, Ok(id)) = expect_pc_identifier_step(ts, q1) {
        let (ps, qa) = params_shape(ts, p, id, q1 + m, seq![]);
        assert(Seq::<SpecIdentifier>::empty() + ps =~= ps);
        if let Step::Done(n, Ok(SpecStatment::TypeDecl(d))) = statement(ts, p) {
            assert(declaration_parts(ts, p, qa, p + n, d.id, d.params, d.variants));
        }
    }
}

} // verus!
