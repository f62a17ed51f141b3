//! The lists inside the nodes: a program's statements, a binding's
//! patterns, a type application's arguments, a constructor pattern's and a
//! variant's types, and a lambda's parameters, each described by the pieces
//! of input they are read from.
use vstd::prelude::*;
use crate::ast::{SpecExpr, SpecIdentifier, SpecPattern, SpecStatment, SpecType};
use crate::grammar::{
    Step, advanced, bind, bind_pats, expect_identifier_step, expect_pc_identifier_step, expr,
    ident_at, lambda_pats, lemma_advanced, pattern, pattern_primary, pattern_types, primary,
    program, program_from, recorded, rem, statement, type_, type_args, type_primary, variant,
    variant_types,
};
use crate::shapes::consecutive;
use crate::token::{SpecToken, TokenKind};

verus! {

/// The statement rule as a function of the position.
pub open spec fn statement_at(ts: Seq<SpecToken>) -> spec_fn(int) -> Step<SpecStatment> {
    |x: int| statement(ts, x)
}

/// The pattern rule as a function of the position.
pub open spec fn pattern_at(ts: Seq<SpecToken>) -> spec_fn(int) -> Step<SpecPattern> {
    |x: int| pattern(ts, x)
}

/// The type rule as a function of the position.
pub open spec fn type_at(ts: Seq<SpecToken>) -> spec_fn(int) -> Step<SpecType> {
    |x: int| type_(ts, x)
}

/// At `q`, `rule` fails after moving to `end`.
pub open spec fn fails_to<T>(rule: spec_fn(int) -> Step<T>, q: int, end: int) -> bool {
    match rule(q) {
        Step::Done(j, Err(_)) => q + j == end,
        _ => false,
    }
}

/// The expression right after the token at `q` is `e`, ending at `end`.
pub open spec fn expr_after(ts: Seq<SpecToken>, q: int, end: int, e: SpecExpr) -> bool {
    &&& advanced(ts, q) <= end
    &&& expr(ts, advanced(ts, q)) == Step::Done(
        (end - advanced(ts, q)) as nat,
        Ok::<SpecExpr, crate::error::SpecError>(e),
    )
}

// ----- programs -----

proof fn program_shape(ts: Seq<SpecToken>, start: int, p: int, acc: Seq<SpecStatment>) -> (r: Seq<SpecStatment>)
    requires
        start <= p,
    ensures
        program_from(ts, start, p, acc) matches Step::Done(k, Ok(prog)) ==> prog.statements == acc
            + r && consecutive(statement_at(ts), p, start + k, r),
    decreases rem(ts, p),
{
    reveal_with_fuel(crate::grammar::program_from, 1);
    if 0 <= p < ts.len() && !(ts[p].kind is Eof) {
        if let Step::Done(n, Ok(st)) = statement(ts, p) {
            if n > 0 {
                let rest = program_shape(ts, start, p + n, acc.push(st));
                let r = seq![st] + rest;
                assert(r.drop_first() =~= rest);
                assert(acc.push(st) + rest =~= acc + r);
                assert(statement_at(ts)(p) == statement(ts, p));
                return r;
            }
        }
    }
    assert(acc + Seq::<SpecStatment>::empty() =~= acc);
    Seq::empty()
}

/// A program that parses is every statement read one after another from
/// where the parse began to where it ended, in order.
pub proof fn lemma_program_is_its_statements(ts: Seq<SpecToken>, p: int)
    requires
        0 <= p,
    ensures
        program(ts, p) matches Step::Done(n, Ok(prog)) ==> consecutive(
            statement_at(ts),
            p,
            p + n,
            prog.statements,
        ),
{
    let r = program_shape(ts, p, p, seq![]);
    assert(Seq::<SpecStatment>::empty() + r =~= r);
}

// ----- bindings -----

/// The pieces of `name patterns = expr` read from `p` to `end`: the name,
/// then the patterns read one after another up to the `=` at `qa`, then
/// the expression right after `=`.
pub open spec fn binding_parts(
    ts: Seq<SpecToken>,
    p: int,
    qa: int,
    end: int,
    id: SpecIdentifier,
    args: Seq<SpecPattern>,
    e: SpecExpr,
) -> bool {
    &&& match expect_identifier_step(ts, p) {
        Step::Done(m, Ok(x)) => x == id && consecutive(pattern_at(ts), p + m, qa, args),
        _ => false,
    }
    &&& 0 <= qa < ts.len()
    &&& ts[qa].kind == TokenKind::Assign
    &&& expr_after(ts, qa, end, e)
}

proof fn bind_pats_shape(ts: Seq<SpecToken>, start: int, id: SpecIdentifier, q: int, acc: Seq<SpecPattern>) -> (r: (Seq<SpecPattern>, int))
    requires
        start <= q,
    ensures
        bind_pats(ts, start, id, q, acc) matches Step::Done(k, Ok(b)) ==> b.id == id && b.args == acc
            + r.0 && consecutive(pattern_at(ts), q, r.1, r.0) && 0 <= r.1 < ts.len()
            && ts[r.1].kind == TokenKind::Assign && expr_after(ts, r.1, start + k, *b.expr)
            && recorded(ts, start, start + k) == Some(b.span),
    decreases rem(ts, q),
{
    reveal_with_fuel(crate::grammar::bind_pats, 1);
    if 0 <= q < ts.len() {
        lemma_advanced(ts, q);
        if ts[q].kind is Assign {
            assert(acc + Seq::<SpecPattern>::empty() =~= acc);
            return (Seq::empty(), q);
        } else if let Step::Done(n, Ok(pat)) = pattern(ts, q) {
            if n > 0 {
                let (rest, qa) = bind_pats_shape(ts, start, id, q + n, acc.push(pat));
                let r = seq![pat] + rest;
                assert(r.drop_first() =~= rest);
                assert(acc.push(pat) + rest =~= acc + r);
                assert(pattern_at(ts)(q) == pattern(ts, q));
                return (r, qa);
            }
        }
    }
    (Seq::empty(), q)
}

/// A binding is its name, the patterns read one after another up to `=`
/// as its parameters, in order, and the whole expression after `=`.
pub proof fn lemma_binding_shape(ts: Seq<SpecToken>, p: int)
    requires
        0 <= p,
    ensures
        bind(ts, p) matches Step::Done(n, Ok(b)) ==> recorded(ts, p, p + n) == Some(b.span) && exists|
            qa: int,
        |
            #![trigger binding_parts(ts, p, qa, p + n, b.id, b.args, *b.expr)]
            binding_parts(ts, p, qa, p + n, b.id, b.args, *b.expr),
{
    reveal_with_fuel(crate::grammar::bind, 1);
    reveal_with_fuel(crate::grammar::bind_pats, 1);
    if p < ts.len() {
        lemma_advanced(ts, p);
        if let Step::Done(m, Ok(id)) = expect_identifier_step(ts, p) {
            let (ps, qa) = bind_pats_shape(ts, p, id, p + m, seq![]);
            assert(Seq::<SpecPattern>::empty() + ps =~= ps);
            if let Step::Done(n, Ok(b)) = bind(ts, p) {
                assert(binding_parts(ts, p, qa, p + n, b.id, b.args, *b.expr));
            }
        }
    }
}

/// A statement that starts with a lower-case name is either `name :: type`,
/// whose type is the whole type after `::`, or else a binding read again
/// from the name.
pub proof fn lemma_name_statement_shape(ts: Seq<SpecToken>, p: int)
    requires
        0 <= p < ts.len(),
        ts[p].kind is Identifier,
    ensures
        statement(ts, p) matches Step::Done(n, Ok(st)) ==> match st {
            SpecStatment::TypeAssign(ta) => {
                let p1 = advanced(ts, p);
                let q = advanced(ts, p1);
                &&& expect_identifier_step(ts, p) == Step::Done(
                    (p1 - p) as nat,
                    Ok::<SpecIdentifier, crate::error::SpecError>(ta.id),
                )
                &&& p1 < ts.len()
                &&& ts[p1].kind == TokenKind::DoubleCollon
                &&& q <= p + n
                &&& type_(ts, q) == Step::Done(
                    (p + n - q) as nat,
                    Ok::<SpecType, crate::error::SpecError>(ta.ty),
                )
                &&& recorded(ts, p, p + n) == Some(ta.span)
            },
            SpecStatment::Bind(b) => bind(ts, p) == Step::Done(
                n,
                Ok::<crate::ast::SpecBind, crate::error::SpecError>(b),
            ),
            SpecStatment::TypeDecl(_) => false,
        },
{
    lemma_advanced(ts, p);
    let p1 = advanced(ts, p);
    if p1 < ts.len() {
        lemma_advanced(ts, p1);
        crate::grammar::lemma_back_up_pos(ts, p, p1);
    }
}

// ----- type applications, constructor patterns, variants -----

proof fn type_args_shape(ts: Seq<SpecToken>, start: int, id: SpecIdentifier, q: int, acc: Seq<SpecType>) -> (r: (Seq<SpecType>, int))
    requires
        start <= q,
    ensures
        type_args(ts, start, id, q, acc) matches Step::Done(k, Ok(t)) ==> t matches SpecType::App(
            i,
            args,
            sp,
        ) && i == id && args == acc + r.0 && consecutive(type_at(ts), q, r.1, r.0) && fails_to(
            type_at(ts),
            r.1,
            start + k,
        ) && recorded(ts, start, start + k) == Some(sp),
    decreases rem(ts, q),
{
    reveal_with_fuel(crate::grammar::type_args, 1);
    if 0 <= q < ts.len() {
        assert(type_at(ts)(q) == type_(ts, q));
        match type_(ts, q) {
            Step::Done(n, Ok(t)) => {
                if n > 0 {
                    let (rest, qe) = type_args_shape(ts, start, id, q + n, acc.push(t));
                    let r = seq![t] + rest;
                    assert(r.drop_first() =~= rest);
                    assert(acc.push(t) + rest =~= acc + r);
                    return (r, qe);
                }
            },
            Step::Done(n, Err(_)) => {
                assert(acc + Seq::<SpecType>::empty() =~= acc);
                return (Seq::empty(), q);
            },
            _ => {},
        }
    }
    (Seq::empty(), q)
}

/// A type that starts with a name applied to argument types is that name
/// with every type read one after another after it, in order, up to the
/// first position where no type parses, where it ends; with no type after
/// it, the name stands alone.
pub proof fn lemma_type_application_shape(ts: Seq<SpecToken>, p: int)
    requires
        0 <= p < ts.len(),
        ts[p].kind is Identifier || ts[p].kind is PCIdentifier,
    ensures
        type_primary(ts, p) matches Step::Done(n, Ok(t)) ==> ({
            let q = advanced(ts, p);
            match t {
                SpecType::App(id, args, sp) => {
                    &&& id.name == ts[p].span.input
                    &&& args.len() >= 1
                    &&& exists|qe: int|
                        #![trigger fails_to(type_at(ts), qe, p + n)]
                        consecutive(type_at(ts), q, qe, args) && fails_to(type_at(ts), qe, p + n)
                    &&& recorded(ts, p, p + n) == Some(sp)
                },
                SpecType::Generic(id) => ts[p].kind is Identifier && id.name == ts[p].span.input
                    && type_(ts, q) is Done && type_(ts, q)->Done_1 is Err && p + n == q,
                SpecType::Id(id) => ts[p].kind is PCIdentifier && id.name == ts[p].span.input
                    && type_(ts, q) is Done && type_(ts, q)->Done_1 is Err && p + n == q,
                _ => false,
            }
        }),
{
    reveal_with_fuel(crate::grammar::type_primary, 1);
    reveal_with_fuel(crate::grammar::type_args, 1);
    lemma_advanced(ts, p);
    let q = advanced(ts, p);
    assert(type_at(ts)(q) == type_(ts, q));
    if let Some(id) = ident_at(ts, p, q) {
        match type_(ts, q) {
            Step::Done(m, Ok(t0)) => {
                let (rest, qe) = type_args_shape(ts, p, id, q + m, seq![t0]);
                crate::properties::lemma_success_moves_forward(ts, q);
                if let Step::Done(n, Ok(SpecType::App(i, args, sp))) = type_primary(ts, p) {
                    assert(args =~= seq![t0] + rest);
                    assert((seq![t0] + rest).drop_first() =~= rest);
                    assert(consecutive(type_at(ts), q, qe, args));
                    assert(fails_to(type_at(ts), qe, p + n));
                }
            },
            Step::Done(m, Err(_)) => {},
            _ => {},
        }
    }
}

proof fn pattern_types_shape(ts: Seq<SpecToken>, start: int, id: SpecIdentifier, q: int, acc: Seq<SpecType>) -> (r: (Seq<SpecType>, int))
    requires
        start <= q,
    ensures
        pattern_types(ts, start, id, q, acc) matches Step::Done(k, Ok(pat)) ==> pat matches SpecPattern::App(
            i,
            types,
            sp,
        ) && i == id && types == acc + r.0 && consecutive(type_at(ts), q, r.1, r.0) && fails_to(
            type_at(ts),
            r.1,
            start + k,
        ) && recorded(ts, start, start + k) == Some(sp),
    decreases rem(ts, q),
{
    reveal_with_fuel(crate::grammar::pattern_types, 1);
    if 0 <= q < ts.len() {
        assert(type_at(ts)(q) == type_(ts, q));
        match type_(ts, q) {
            Step::Done(n, Ok(t)) => {
                if n > 0 {
                    let (rest, qe) = pattern_types_shape(ts, start, id, q + n, acc.push(t));
                    let r = seq![t] + rest;
                    assert(r.drop_first() =~= rest);
                    assert(acc.push(t) + rest =~= acc + r);
                    return (r, qe);
                }
            },
            Step::Done(n, Err(_)) => {
                assert(acc + Seq::<SpecType>::empty() =~= acc);
                return (Seq::empty(), q);
            },
            _ => {},
        }
    }
    (Seq::empty(), q)
}

/// A pattern that starts with a name followed by a type is a constructor
/// pattern: its types are the first type after the name, listed twice, then
/// every further type read one after another, up to the first position
/// where no type parses, where it ends. With no type after it, the name is
/// a variable (lower-case) or a bare constructor (capitalised).
pub proof fn lemma_constructor_pattern_shape(ts: Seq<SpecToken>, p: int)
    requires
        0 <= p < ts.len(),
        ts[p].kind is Identifier || ts[p].kind is PCIdentifier,
    ensures
        pattern_primary(ts, p) matches Step::Done(n, Ok(pat)) ==> ({
            let q = advanced(ts, p);
            match pat {
                SpecPattern::App(id, types, sp) => {
                    &&& id.name == ts[p].span.input
                    &&& types.len() >= 2
                    &&& types[0] == types[1]
                    &&& exists|qe: int|
                        #![trigger fails_to(type_at(ts), qe, p + n)]
                        consecutive(type_at(ts), q, qe, types.drop_first()) && fails_to(
                            type_at(ts),
                            qe,
                            p + n,
                        )
                    &&& recorded(ts, p, p + n) == Some(sp)
                },
                SpecPattern::Variable(id) => ts[p].kind is Identifier && id.name == ts[p].span.input
                    && type_(ts, q) is Done && type_(ts, q)->Done_1 is Err && p + n == q,
                SpecPattern::Id(id) => ts[p].kind is PCIdentifier && id.name == ts[p].span.input
                    && type_(ts, q) is Done && type_(ts, q)->Done_1 is Err && p + n == q,
                _ => false,
            }
        }),
{
    reveal_with_fuel(crate::grammar::pattern_types, 1);
    lemma_advanced(ts, p);
    let q = advanced(ts, p);
    assert(type_at(ts)(q) == type_(ts, q));
    if let Some(id) = ident_at(ts, p, q) {
        match type_(ts, q) {
            Step::Done(m, Ok(t0)) => {
                let (rest, qe) = pattern_types_shape(ts, p, id, q + m, seq![t0, t0]);
                crate::properties::lemma_success_moves_forward(ts, q);
                if let Step::Done(n, Ok(SpecPattern::App(i, types, sp))) = pattern_primary(ts, p) {
                    assert(types.drop_first() =~= seq![t0] + rest);
                    assert((seq![t0] + rest).drop_first() =~= rest);
                    assert(consecutive(type_at(ts), q, qe, types.drop_first()));
                    assert(fails_to(type_at(ts), qe, p + n));
                }
            },
            Step::Done(m, Err(_)) => {},
            _ => {},
        }
    }
}

proof fn variant_types_shape(ts: Seq<SpecToken>, start: int, id: SpecIdentifier, q: int, acc: Seq<SpecType>) -> (r: (Seq<SpecType>, int))
    requires
        start <= q,
    ensures
        variant_types(ts, start, id, q, acc) matches Step::Done(k, Ok(v)) ==> v.id == id && v.types
            == acc + r.0 && consecutive(type_at(ts), q, r.1, r.0) && fails_to(
            type_at(ts),
            r.1,
            start + k,
        ) && recorded(ts, start, start + k) == Some(v.span),
    decreases rem(ts, q),
{
    reveal_with_fuel(crate::grammar::variant_types, 1);
    if 0 <= q < ts.len() {
        assert(type_at(ts)(q) == type_(ts, q));
        match type_(ts, q) {
            Step::Done(n, Ok(t)) => {
                if n > 0 {
                    let (rest, qe) = variant_types_shape(ts, start, id, q + n, acc.push(t));
                    let r = seq![t] + rest;
                    assert(r.drop_first() =~= rest);
                    assert(acc.push(t) + rest =~= acc + r);
                    return (r, qe);
                }
            },
            Step::Done(n, Err(_)) => {
                assert(acc + Seq::<SpecType>::empty() =~= acc);
                return (Seq::empty(), q);
            },
            _ => {},
        }
    }
    (Seq::empty(), q)
}

/// The pieces of a variant read from `p` to `end`: its capitalised name,
/// then the types read one after another up to `qe`, where no type parses.
pub open spec fn variant_parts(
    ts: Seq<SpecToken>,
    p: int,
    qe: int,
    end: int,
    id: SpecIdentifier,
    types: Seq<SpecType>,
) -> bool {
    &&& match expect_pc_identifier_step(ts, p) {
        Step::Done(m, Ok(x)) => x == id && consecutive(type_at(ts), p + m, qe, types),
        _ => false,
    }
    &&& fails_to(type_at(ts), qe, end)
}

/// A variant is its capitalised name and every type read one after another
/// after it, in order, up to the first position where no type parses.
pub proof fn lemma_variant_shape(ts: Seq<SpecToken>, p: int)
    requires
        0 <= p,
    ensures
        variant(ts, p) matches Step::Done(n, Ok(v)) ==> recorded(ts, p, p + n) == Some(v.span)
            && exists|qe: int|
            #![trigger variant_parts(ts, p, qe, p + n, v.id, v.types)]
            variant_parts(ts, p, qe, p + n, v.id, v.types),
{
    if p < ts.len() {
        lemma_advanced(ts, p);
        if let Step::Done(m, Ok(id)) = expect_pc_identifier_step(ts, p) {
            let (ts2, qe) = variant_types_shape(ts, p, id, p + m, seq![]);
            assert(Seq::<SpecType>::empty() + ts2 =~= ts2);
            if let Step::Done(n, Ok(v)) = variant(ts, p) {
                assert(variant_parts(ts, p, qe, p + n, v.id, v.types));
            }
        }
    }
}

// ----- lambdas -----

proof fn lambda_shape(ts: Seq<SpecToken>, start: int, q: int, acc: Seq<SpecPattern>) -> (r: (Seq<SpecPattern>, int))
    requires
        start <= q,
    ensures
        lambda_pats(ts, start, q, acc) matches Step::Done(k, Ok(e)) ==> e matches SpecExpr::Lambda(
            pats,
            body,
            sp,
        ) && pats == acc + r.0 && consecutive(pattern_at(ts), q, r.1, r.0) && 0 <= r.1 < ts.len()
            && ts[r.1].kind == TokenKind::Arrow && expr_after(ts, r.1, start + k, *body) && recorded(
            ts,
            start,
            start + k,
        ) == Some(sp),
    decreases rem(ts, q),
{
    reveal_with_fuel(crate::grammar::lambda_pats, 1);
    if 0 <= q < ts.len() {
        lemma_advanced(ts, q);
        if ts[q].kind is Arrow {
            assert(acc + Seq::<SpecPattern>::empty() =~= acc);
            return (Seq::empty(), q);
        } else if let Step::Done(n, Ok(pat)) = pattern(ts, q) {
            if n > 0 {
                let (rest, qa) = lambda_shape(ts, start, q + n, acc.push(pat));
                let r = seq![pat] + rest;
                assert(r.drop_first() =~= rest);
                assert(acc.push(pat) + rest =~= acc + r);
                assert(pattern_at(ts)(q) == pattern(ts, q));
                return (r, qa);
            }
        }
    }
    (Seq::empty(), q)
}

/// A lambda `\ patterns -> expr` has as parameters the patterns read one
/// after another after the backslash up to `->`, in order, and as body the
/// whole expression after `->`.
pub proof fn lemma_lambda_shape(ts: Seq<SpecToken>, p: int)
    requires
        0 <= p < ts.len(),
        ts[p].kind is DoubleSlash,
    ensures
        primary(ts, p) matches Step::Done(n, Ok(e)) ==> e matches SpecExpr::Lambda(pats, body, sp)
            && recorded(ts, p, p + n) == Some(sp) && exists|qa: int|
            #![trigger expr_after(ts, qa, p + n, *body)]
            consecutive(pattern_at(ts), advanced(ts, p), qa, pats) && 0 <= qa < ts.len()
                && ts[qa].kind == TokenKind::Arrow && expr_after(ts, qa, p + n, *body),
{
    reveal_with_fuel(crate::grammar::primary, 1);
    reveal_with_fuel(crate::grammar::lambda_pats, 1);
    lemma_advanced(ts, p);
    let q = advanced(ts, p);
    let (ps, qa) = lambda_shape(ts, p, q, seq![]);
    assert(Seq::<SpecPattern>::empty() + ps =~= ps);
}

} // verus!
