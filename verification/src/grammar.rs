//! What the parser computes, stated over the tokens' views.
//!
//! The parser reads a token sequence `ts` from a position `p`. Each parsing
//! rule below gives the outcome of running that rule at `p`: how many tokens
//! it moved past (also when it fails: failed attempts are not always rolled
//! back) and the node or the error, or `Crash` where the parser would stop
//! the program (reading past the last token, an unexpected statement start).
//! Positions never move before the rule's starting point, so the distance
//! moved is a `nat`.
use vstd::prelude::*;
use crate::ast::{
    Bool, BinOp, SpecApp, SpecBind, SpecExpr, SpecIdentifier, SpecLiteral, SpecLiteralKind,
    SpecPattern, SpecProgram, SpecSpan, SpecStatment, SpecType, SpecTypeAssign, SpecTypeDecl,
    SpecVariant,
};
use crate::error::{SpecError, unexpected};
use crate::token::{SpecToken, TokenKind, kind_name};

verus! {

pub enum Step<T> {
    Done(nat, Result<T, SpecError>),
    Crash,
}

impl<T> Step<T> {
    pub open spec fn used(self) -> nat {
        match self {
            Step::Done(n, _) => n,
            Step::Crash => 0,
        }
    }

    pub open spec fn is_crash(self) -> bool {
        self is Crash
    }
}

/// The outcome that ends at absolute position `end` for a rule started at `start`.
pub open spec fn done_at<T>(start: int, end: int, r: Result<T, SpecError>) -> Step<T> {
    Step::Done((end - start) as nat, r)
}

/// How many tokens are left from `p`; the measure that parsing decreases.
pub open spec fn rem(ts: Seq<SpecToken>, p: int) -> nat {
    if 0 <= p < ts.len() {
        (ts.len() - p) as nat
    } else {
        0
    }
}

pub open spec fn is_ws(ts: Seq<SpecToken>, i: int) -> bool {
    ts[i].kind == TokenKind::Whitespace
}

/// The first position at or after `i` that is not whitespace (or the end).
pub open spec fn skip_ws(ts: Seq<SpecToken>, i: int) -> int
    decreases ts.len() - i,
{
    if 0 <= i < ts.len() && is_ws(ts, i) {
        skip_ws(ts, i + 1)
    } else {
        i
    }
}

/// The position after moving past the token at `p` and any whitespace after it.
pub open spec fn advanced(ts: Seq<SpecToken>, p: int) -> int {
    if p >= ts.len() {
        p
    } else {
        skip_ws(ts, p + 1)
    }
}

/// The end of a recorded region that stops at `e`: trailing whitespace is
/// left out; `None` where that walk would leave the token sequence.
pub open spec fn trim_end(ts: Seq<SpecToken>, e: int) -> Option<int>
    decreases e,
{
    if e <= 0 || e > ts.len() {
        None
    } else if is_ws(ts, e - 1) {
        trim_end(ts, e - 1)
    } else {
        Some(e)
    }
}

/// The source text of the tokens in `[a, b)`, concatenated.
pub open spec fn texts(ts: Seq<SpecToken>, a: int, b: int) -> Seq<char>
    decreases b - a,
{
    if a >= b {
        Seq::empty()
    } else {
        texts(ts, a, b - 1) + ts[b - 1].span.input
    }
}

/// The span of the region from `start` to position `p`, trailing whitespace left out.
pub open spec fn recorded(ts: Seq<SpecToken>, start: int, p: int) -> Option<SpecSpan> {
    match trim_end(ts, p) {
        None => None,
        Some(e) => if start > e || start < 0 {
            None
        } else {
            Some(SpecSpan { start: start as usize, end: e as usize, input: texts(ts, start, e) })
        },
    }
}

/// The last token before `q + 1` that is not whitespace, walking down from `q`.
pub open spec fn back_ws(ts: Seq<SpecToken>, q: int) -> Option<int>
    decreases q + 1,
{
    if q < 0 || q >= ts.len() {
        None
    } else if is_ws(ts, q) {
        back_ws(ts, q - 1)
    } else {
        Some(q)
    }
}

/// Where stepping back from `p` over whitespace lands; `None` where it would
/// step before the first token.
pub open spec fn back_up_pos(ts: Seq<SpecToken>, p: int) -> Option<int>
    decreases p,
{
    if p <= 0 {
        None
    } else if p - 1 >= ts.len() {
        Some(p - 1)
    } else if is_ws(ts, p - 1) {
        back_up_pos(ts, p - 1)
    } else {
        Some(p - 1)
    }
}

/// `expect(k)`: move past the current token, then require the new one to be `k`.
pub open spec fn expect_step(ts: Seq<SpecToken>, q: int, k: TokenKind) -> Step<()> {
    let q1 = advanced(ts, q);
    if !(0 <= q1 < ts.len()) {
        Step::Crash
    } else if ts[q1].kind == k {
        done_at(q, q1, Ok(()))
    } else {
        done_at(q, q1, Err(unexpected(kind_name(k), ts[q1].span)))
    }
}

/// `expect_current(k)`: require the current token to be `k`, then move past it.
pub open spec fn expect_current_step(ts: Seq<SpecToken>, q: int, k: TokenKind) -> Step<()> {
    if !(0 <= q < ts.len()) {
        Step::Crash
    } else if ts[q].kind == k {
        done_at(q, advanced(ts, q), Ok(()))
    } else {
        Step::Done(0, Err(unexpected(kind_name(k), ts[q].span)))
    }
}

/// The identifier made of the token at `p`, whose region ends at `p1`.
pub open spec fn ident_at(ts: Seq<SpecToken>, p: int, p1: int) -> Option<SpecIdentifier> {
    match recorded(ts, p, p1) {
        None => None,
        Some(sp) => Some(SpecIdentifier { name: ts[p].span.input, span: sp }),
    }
}

/// Reading one identifier token: a lower-case one if `lower`, a capitalised one
/// if `upper`; `what` names what was expected in the error.
pub open spec fn expect_ident_step(
    ts: Seq<SpecToken>,
    p: int,
    lower: bool,
    upper: bool,
    what: Seq<char>,
) -> Step<SpecIdentifier> {
    if !(0 <= p < ts.len()) {
        Step::Crash
    } else if (lower && ts[p].kind is Identifier) || (upper && ts[p].kind is PCIdentifier) {
        let p1 = advanced(ts, p);
        match ident_at(ts, p, p1) {
            None => Step::Crash,
            Some(id) => done_at(p, p1, Ok(id)),
        }
    } else {
        Step::Done(0, Err(unexpected(what, ts[p].span)))
    }
}

pub open spec fn expect_identifier_step(ts: Seq<SpecToken>, p: int) -> Step<SpecIdentifier> {
    expect_ident_step(ts, p, true, false, "identifier"@)
}

pub open spec fn expect_pc_identifier_step(ts: Seq<SpecToken>, p: int) -> Step<SpecIdentifier> {
    expect_ident_step(ts, p, false, true, "pascal case identifier"@)
}

pub open spec fn expect_any_identifier_step(ts: Seq<SpecToken>, p: int) -> Step<SpecIdentifier> {
    expect_ident_step(ts, p, true, true, "identifier"@)
}

/// A string literal's contents: its text without the first and last character.
pub open spec fn string_body(text: Seq<char>) -> Seq<char> {
    if text.len() >= 2 {
        text.subrange(1, text.len() - 1)
    } else {
        Seq::empty()
    }
}

/// The literal value that a literal token stands for.
pub open spec fn literal_kind_of(t: SpecToken) -> Option<SpecLiteralKind> {
    match t.kind {
        TokenKind::Integer(i) => Some(SpecLiteralKind::Integer(i)),
        TokenKind::Float => Some(SpecLiteralKind::Float(t.span.input)),
        TokenKind::String => Some(SpecLiteralKind::String(string_body(t.span.input))),
        TokenKind::True => Some(SpecLiteralKind::Bool(Bool::True)),
        TokenKind::False => Some(SpecLiteralKind::Bool(Bool::False)),
        _ => None,
    }
}

/// A literal: one literal token.
pub open spec fn literal(ts: Seq<SpecToken>, p: int) -> Step<SpecLiteral> {
    if !(0 <= p < ts.len()) {
        Step::Crash
    } else {
        match literal_kind_of(ts[p]) {
            None => Step::Done(0, Err(unexpected("literal"@, ts[p].span))),
            Some(kind) => {
                let p1 = advanced(ts, p);
                match recorded(ts, p, p1) {
                    None => Step::Crash,
                    Some(sp) => done_at(p, p1, Ok(SpecLiteral { kind, span: sp })),
                }
            },
        }
    }
}


pub proof fn lemma_skip_ws(ts: Seq<SpecToken>, i: int)
    requires
        0 <= i,
    ensures
        i <= skip_ws(ts, i),
        i <= ts.len() ==> skip_ws(ts, i) <= ts.len(),
        skip_ws(ts, i) < ts.len() ==> !is_ws(ts, skip_ws(ts, i)),
        forall|j: int| i <= j < skip_ws(ts, i) ==> is_ws(ts, j),
    decreases ts.len() - i,
{
    if 0 <= i < ts.len() && is_ws(ts, i) {
        lemma_skip_ws(ts, i + 1);
    }
}

/// Moving past a token always makes progress and stays within the sequence.
pub proof fn lemma_advanced(ts: Seq<SpecToken>, p: int)
    requires
        0 <= p < ts.len(),
    ensures
        p < advanced(ts, p) <= ts.len(),
        advanced(ts, p) < ts.len() ==> !is_ws(ts, advanced(ts, p)),
        forall|j: int| p < j < advanced(ts, p) ==> is_ws(ts, j),
        ts.last().kind == TokenKind::Eof && ts[p].kind != TokenKind::Eof ==> advanced(ts, p)
            < ts.len(),
{
    lemma_skip_ws(ts, p + 1);
    if ts.last().kind == TokenKind::Eof && ts[p].kind != TokenKind::Eof && advanced(ts, p)
        == ts.len() {
        assert(is_ws(ts, ts.len() - 1));
    }
}

// ----- types -----

/// `type_primary`: a name (possibly applied to argument types), `[type]`, or a tuple.
#[verifier::opaque]
pub open spec fn type_primary(ts: Seq<SpecToken>, p: int) -> Step<SpecType>
    decreases rem(ts, p), 0nat,
{
    if !(0 <= p < ts.len()) {
        Step::Crash
    } else {
        let k = ts[p].kind;
        let p1 = advanced(ts, p);
        proof {
            lemma_advanced(ts, p);
        }
        if k is Identifier || k is PCIdentifier {
            match ident_at(ts, p, p1) {
                None => Step::Crash,
                Some(id) => match type_(ts, p1) {
                    Step::Crash => Step::Crash,
                    Step::Done(_, Err(_)) => done_at(
                        p,
                        p1,
                        Ok(
                            if k is Identifier {
                                SpecType::Generic(id)
                            } else {
                                SpecType::Id(id)
                            },
                        ),
                    ),
                    Step::Done(n, Ok(t)) => type_args(ts, p, id, p1 + n, seq![t]),
                },
            }
        } else if k is LBracket {
            match type_(ts, p1) {
                Step::Crash => Step::Crash,
                Step::Done(n, Err(e)) => done_at(p, p1 + n, Err(e)),
                Step::Done(n, Ok(t)) => match expect_step(ts, p1 + n, TokenKind::RBracket) {
                    Step::Crash => Step::Crash,
                    Step::Done(m, Err(e)) => done_at(p, p1 + n + m, Err(e)),
                    Step::Done(m, Ok(_)) => done_at(p, p1 + n + m, Ok(t)),
                },
            }
        } else if k is LParen {
            tuple_items(ts, p, p1, seq![])
        } else {
            Step::Done(0, Err(unexpected("type"@, ts[p].span)))
        }
    }
}

/// After a type name at `start` and its first argument type: further
/// argument types up to the first position where none parses.
#[verifier::opaque]
pub open spec fn type_args(
    ts: Seq<SpecToken>,
    start: int,
    id: SpecIdentifier,
    q: int,
    acc: Seq<SpecType>,
) -> Step<SpecType>
    decreases rem(ts, q), 3nat,
{
    if !(0 <= q < ts.len()) {
        Step::Crash
    } else {
        match type_(ts, q) {
            Step::Crash => Step::Crash,
            Step::Done(n, Err(_)) => match recorded(ts, start, q + n) {
                None => Step::Crash,
                Some(sp) => done_at(start, q + n, Ok(SpecType::App(id, acc, sp))),
            },
            Step::Done(n, Ok(t)) => if n == 0 {
                Step::Crash
            } else {
                type_args(ts, start, id, q + n, acc.push(t))
            },
        }
    }
}

/// The inside of a tuple type from `q`, up to and past `)`: `type ,` repeated.
#[verifier::opaque]
pub open spec fn tuple_items(ts: Seq<SpecToken>, start: int, q: int, acc: Seq<SpecType>) -> Step<
    SpecType,
>
    decreases rem(ts, q), 3nat,
{
    if !(0 <= q < ts.len()) {
        Step::Crash
    } else if ts[q].kind is RParen {
        let q1 = advanced(ts, q);
        match recorded(ts, start, q1) {
            None => Step::Crash,
            Some(sp) => done_at(start, q1, Ok(SpecType::Tuple(acc, sp))),
        }
    } else {
        match type_(ts, q) {
            Step::Crash => Step::Crash,
            Step::Done(n, Err(e)) => done_at(start, q + n, Err(e)),
            Step::Done(n, Ok(t)) => match expect_step(ts, q + n, TokenKind::Comma) {
                Step::Crash => Step::Crash,
                Step::Done(m, Err(e)) => done_at(start, q + n + m, Err(e)),
                Step::Done(m, Ok(_)) => {
                    proof {
                        lemma_advanced(ts, q + n);
                    }
                    tuple_items(ts, start, q + n + m, acc.push(t))
                },
            },
        }
    }
}

/// `type`: a primary type followed by `-> primary` any number of times.
#[verifier::opaque]
pub open spec fn type_(ts: Seq<SpecToken>, p: int) -> Step<SpecType>
    decreases rem(ts, p), 2nat,
{
    if !(0 <= p < ts.len()) {
        Step::Crash
    } else {
        match type_primary(ts, p) {
            Step::Crash => Step::Crash,
            Step::Done(n, Err(e)) => Step::Done(n, Err(e)),
            Step::Done(n, Ok(lhs)) => type_arrows(ts, p, p + n, lhs, seq![]),
        }
    }
}

/// The arrows after the first primary type of a `type` started at `start`:
/// each one adds a primary type to the list `rhs`, and the result so far
/// becomes `Func(result, rhs)`.
#[verifier::opaque]
pub open spec fn type_arrows(
    ts: Seq<SpecToken>,
    start: int,
    q: int,
    lhs: SpecType,
    rhs: Seq<SpecType>,
) -> Step<SpecType>
    decreases rem(ts, q), 1nat,
{
    if !(0 <= q < ts.len()) {
        Step::Crash
    } else if !(ts[q].kind is Arrow) {
        done_at(start, q, Ok(lhs))
    } else {
        let q1 = advanced(ts, q);
        proof {
            lemma_advanced(ts, q);
        }
        match type_primary(ts, q1) {
            Step::Crash => Step::Crash,
            Step::Done(n, Err(e)) => done_at(start, q1 + n, Err(e)),
            Step::Done(n, Ok(t)) => {
                let rhs2 = rhs.push(t);
                match recorded(ts, start, q1 + n) {
                    None => Step::Crash,
                    Some(sp) => type_arrows(
                        ts,
                        start,
                        q1 + n,
                        SpecType::Func(Box::new(lhs), rhs2, sp),
                        rhs2,
                    ),
                }
            },
        }
    }
}


// ----- patterns -----

/// After a constructor name at `start` in a pattern: argument types up to
/// the first position where none parses.
#[verifier::opaque]
pub open spec fn pattern_types(
    ts: Seq<SpecToken>,
    start: int,
    id: SpecIdentifier,
    q: int,
    acc: Seq<SpecType>,
) -> Step<SpecPattern>
    decreases rem(ts, q),
{
    if !(0 <= q < ts.len()) {
        Step::Crash
    } else {
        match type_(ts, q) {
            Step::Crash => Step::Crash,
            Step::Done(n, Err(_)) => match recorded(ts, start, q + n) {
                None => Step::Crash,
                Some(sp) => done_at(start, q + n, Ok(SpecPattern::App(id, acc, sp))),
            },
            Step::Done(n, Ok(t)) => if n == 0 {
                Step::Crash
            } else {
                pattern_types(ts, start, id, q + n, acc.push(t))
            },
        }
    }
}

/// `pattern_primary`: a literal, a name (a constructor with argument types
/// lists its first argument twice), or `_`.
pub open spec fn pattern_primary(ts: Seq<SpecToken>, p: int) -> Step<SpecPattern> {
    if !(0 <= p < ts.len()) {
        Step::Crash
    } else {
        let k = ts[p].kind;
        let p1 = advanced(ts, p);
        if literal_kind_of(ts[p]) is Some {
            match literal(ts, p) {
                Step::Crash => Step::Crash,
                Step::Done(n, Err(e)) => Step::Done(n, Err(e)),
                Step::Done(n, Ok(l)) => Step::Done(n, Ok(SpecPattern::Literal(l))),
            }
        } else if k is Identifier || k is PCIdentifier {
            match ident_at(ts, p, p1) {
                None => Step::Crash,
                Some(id) => match type_(ts, p1) {
                    Step::Crash => Step::Crash,
                    Step::Done(_, Err(_)) => done_at(
                        p,
                        p1,
                        Ok(
                            if k is Identifier {
                                SpecPattern::Variable(id)
                            } else {
                                SpecPattern::Id(id)
                            },
                        ),
                    ),
                    Step::Done(n, Ok(t)) => pattern_types(ts, p, id, p1 + n, seq![t, t]),
                },
            }
        } else if k is Underscore {
            match recorded(ts, p, p1) {
                None => Step::Crash,
                Some(sp) => done_at(p, p1, Ok(SpecPattern::Wildcard(sp))),
            }
        } else {
            Step::Done(0, Err(unexpected("pattern"@, ts[p].span)))
        }
    }
}

/// `pattern`: a primary pattern, optionally followed by `: pattern`.
#[verifier::opaque]
pub open spec fn pattern(ts: Seq<SpecToken>, p: int) -> Step<SpecPattern>
    decreases rem(ts, p),
{
    if !(0 <= p < ts.len()) {
        Step::Crash
    } else {
        match pattern_primary(ts, p) {
            Step::Crash => Step::Crash,
            Step::Done(n, Err(e)) => Step::Done(n, Err(e)),
            Step::Done(n, Ok(pat)) => {
                let q = p + n;
                if !(0 <= q < ts.len()) {
                    Step::Crash
                } else if ts[q].kind is Colon {
                    let q1 = advanced(ts, q);
                    proof {
                        lemma_advanced(ts, q);
                    }
                    match pattern(ts, q1) {
                        Step::Crash => Step::Crash,
                        Step::Done(m, Err(e)) => done_at(p, q1 + m, Err(e)),
                        Step::Done(m, Ok(pat2)) => match recorded(ts, p, q1 + m) {
                            None => Step::Crash,
                            Some(sp) => done_at(
                                p,
                                q1 + m,
                                Ok(SpecPattern::ListCons(Box::new(pat), Box::new(pat2), sp)),
                            ),
                        },
                    }
                } else {
                    done_at(p, q, Ok(pat))
                }
            },
        }
    }
}

// ----- expressions -----

/// The kind of the nearest token before `q` that is not whitespace.
pub open spec fn past_kind(ts: Seq<SpecToken>, q: int) -> Option<TokenKind> {
    match back_ws(ts, q - 1) {
        None => None,
        Some(r) => Some(ts[r].kind),
    }
}

/// The operator that a just-read `+` or `-` stands for.
pub open spec fn additive_op(k: Option<TokenKind>) -> Option<BinOp> {
    match k {
        Some(TokenKind::Add) => Some(BinOp::Add),
        Some(TokenKind::Sub) => Some(BinOp::Sub),
        _ => None,
    }
}

/// The operator that a just-read `*`, `/` or `%` stands for.
pub open spec fn multiplicative_op(k: Option<TokenKind>) -> Option<BinOp> {
    match k {
        Some(TokenKind::Mul) => Some(BinOp::Mul),
        Some(TokenKind::Div) => Some(BinOp::Div),
        Some(TokenKind::Mod) => Some(BinOp::Mod),
        _ => None,
    }
}

/// The operator that a just-read `==` or `!=` stands for.
pub open spec fn equality_op(k: Option<TokenKind>) -> Option<BinOp> {
    match k {
        Some(TokenKind::Eq) => Some(BinOp::Eq),
        Some(TokenKind::Neq) => Some(BinOp::Ineq),
        _ => None,
    }
}


/// The literal node for the token at `p`, whose region ends at `p1`.
pub open spec fn literal_expr(ts: Seq<SpecToken>, p: int, p1: int, kind: SpecLiteralKind) -> Step<
    SpecExpr,
> {
    match recorded(ts, p, p1) {
        None => Step::Crash,
        Some(sp) => done_at(p, p1, Ok(SpecExpr::Literal(SpecLiteral { kind, span: sp }))),
    }
}

/// `primary`: a number or string literal, a name possibly applied to
/// arguments, `( expr )`, `let`, `if`, `match`, or a lambda.
#[verifier::opaque]
pub open spec fn primary(ts: Seq<SpecToken>, p: int) -> Step<SpecExpr>
    decreases rem(ts, p), 0nat,
{
    if !(0 <= p < ts.len()) {
        Step::Crash
    } else {
        let k = ts[p].kind;
        let text = ts[p].span.input;
        let p1 = advanced(ts, p);
        proof {
            lemma_advanced(ts, p);
        }
        match k {
            TokenKind::Integer(i) => literal_expr(ts, p, p1, SpecLiteralKind::Integer(i)),
            TokenKind::Float => literal_expr(ts, p, p1, SpecLiteralKind::Float(text)),
            TokenKind::String => literal_expr(ts, p, p1, SpecLiteralKind::String(string_body(text))),
            TokenKind::Identifier | TokenKind::PCIdentifier => name_expr(ts, p, p1),
            TokenKind::LParen => paren_expr(ts, p, p1),
            TokenKind::Let => let_binds(ts, p, p1, seq![]),
            TokenKind::If => if !(p1 < ts.len()) {
                Step::Crash
            } else {
                if_expr(ts, p, p1)
            },
            TokenKind::Match => match_expr(ts, p, p1),
            TokenKind::DoubleSlash => lambda_pats(ts, p, p1, seq![]),
            _ => Step::Done(0, Err(unexpected("primary expression"@, ts[p].span))),
        }
    }
}

/// A name at `start` whose region ends at `q`: applied to the expressions
/// that follow it if one parses at `q` (the first of them is listed twice),
/// the bare name otherwise.
#[verifier::opaque]
pub open spec fn name_expr(ts: Seq<SpecToken>, start: int, q: int) -> Step<SpecExpr>
    decreases rem(ts, q), 14nat,
{
    if !(0 <= start < q) || !(0 <= q < ts.len()) {
        Step::Crash
    } else {
        match ident_at(ts, start, q) {
            None => Step::Crash,
            Some(id) => match expr(ts, q) {
                Step::Crash => Step::Crash,
                Step::Done(_, Err(_)) => done_at(
                    start,
                    q,
                    Ok(
                        if ts[start].kind is Identifier {
                            SpecExpr::Identifier(id)
                        } else {
                            SpecExpr::Id(id)
                        },
                    ),
                ),
                Step::Done(n, Ok(e)) => app_args(ts, start, id, q + n, seq![e, e]),
            },
        }
    }
}

/// `( expr )`, from just after `(` at `q`.
#[verifier::opaque]
pub open spec fn paren_expr(ts: Seq<SpecToken>, start: int, q: int) -> Step<SpecExpr>
    decreases rem(ts, q), 14nat,
{
    if !(0 <= start < q) {
        Step::Crash
    } else {
        match expr(ts, q) {
            Step::Crash => Step::Crash,
            Step::Done(n, Err(e)) => done_at(start, q + n, Err(e)),
            Step::Done(n, Ok(e)) => match expect_current_step(ts, q + n, TokenKind::RParen) {
                Step::Crash => Step::Crash,
                Step::Done(m, Err(err)) => done_at(start, q + n + m, Err(err)),
                Step::Done(m, Ok(_)) => done_at(start, q + n + m, Ok(e)),
            },
        }
    }
}

/// `match expr in arms`, from just after `match` at `q`. The check for `in`
/// moves past the token after the scrutinee first.
#[verifier::opaque]
pub open spec fn match_expr(ts: Seq<SpecToken>, start: int, q: int) -> Step<SpecExpr>
    decreases rem(ts, q), 14nat,
{
    if !(0 <= start < q) {
        Step::Crash
    } else {
        match expr(ts, q) {
            Step::Crash => Step::Crash,
            Step::Done(n, Err(e)) => done_at(start, q + n, Err(e)),
            Step::Done(n, Ok(scrut)) => match expect_step(ts, q + n, TokenKind::In) {
                Step::Crash => Step::Crash,
                Step::Done(m, Err(e)) => done_at(start, q + n + m, Err(e)),
                Step::Done(m, Ok(_)) => {
                    proof {
                        lemma_advanced(ts, q + n);
                    }
                    match_arms(ts, start, scrut, q + n + m, seq![])
                },
            },
        }
    }
}

/// `cond then e1 else e2`, from just after `if` at `q`.
#[verifier::opaque]
pub open spec fn if_expr(ts: Seq<SpecToken>, start: int, q: int) -> Step<SpecExpr>
    decreases rem(ts, q), 14nat,
{
    if !(0 <= start < q) {
        Step::Crash
    } else {
        match expr(ts, q) {
            Step::Crash => Step::Crash,
            Step::Done(n, Err(e)) => done_at(start, q + n, Err(e)),
            Step::Done(n, Ok(c)) => if_then(ts, start, q + n, c),
        }
    }
}

/// `then e1 else e2` of an `if` with condition `c`, from `q`.
#[verifier::opaque]
pub open spec fn if_then(ts: Seq<SpecToken>, start: int, q: int, c: SpecExpr) -> Step<SpecExpr>
    decreases rem(ts, q), 0nat,
{
    if !(0 <= start < q) {
        Step::Crash
    } else {
        match expect_current_step(ts, q, TokenKind::Then) {
            Step::Crash => Step::Crash,
            Step::Done(m, Err(e)) => done_at(start, q + m, Err(e)),
            Step::Done(m, Ok(_)) => {
                proof {
                    lemma_advanced(ts, q);
                }
                match expr(ts, q + m) {
                    Step::Crash => Step::Crash,
                    Step::Done(j, Err(e)) => done_at(start, q + m + j, Err(e)),
                    Step::Done(j, Ok(t)) => if_else(ts, start, q + m + j, c, t),
                }
            },
        }
    }
}

/// `else e2` of an `if` with condition `c` and branch `t`, from `q`.
#[verifier::opaque]
pub open spec fn if_else(ts: Seq<SpecToken>, start: int, q: int, c: SpecExpr, t: SpecExpr) -> Step<
    SpecExpr,
>
    decreases rem(ts, q), 0nat,
{
    if !(0 <= start < q) {
        Step::Crash
    } else {
        match expect_current_step(ts, q, TokenKind::Else) {
            Step::Crash => Step::Crash,
            Step::Done(h, Err(e)) => done_at(start, q + h, Err(e)),
            Step::Done(h, Ok(_)) => {
                proof {
                    lemma_advanced(ts, q);
                }
                match expr(ts, q + h) {
                    Step::Crash => Step::Crash,
                    Step::Done(g, Err(e)) => done_at(start, q + h + g, Err(e)),
                    Step::Done(g, Ok(f)) => match recorded(ts, start, q + h + g) {
                        None => Step::Crash,
                        Some(sp) => done_at(
                            start,
                            q + h + g,
                            Ok(SpecExpr::Condition(Box::new(c), Box::new(t), Box::new(f), sp)),
                        ),
                    },
                }
            },
        }
    }
}

/// After a name at `start` and its first argument: further arguments up to
/// the first position where no expression parses.
#[verifier::opaque]
pub open spec fn app_args(
    ts: Seq<SpecToken>,
    start: int,
    id: SpecIdentifier,
    q: int,
    acc: Seq<SpecExpr>,
) -> Step<SpecExpr>
    decreases rem(ts, q), 10nat,
{
    if !(0 <= q < ts.len()) {
        Step::Crash
    } else {
        match expr(ts, q) {
            Step::Crash => Step::Crash,
            Step::Done(n, Err(_)) => match recorded(ts, start, q + n) {
                None => Step::Crash,
                Some(sp) => done_at(
                    start,
                    q + n,
                    Ok(SpecExpr::App(SpecApp { id, args: acc, span: sp })),
                ),
            },
            Step::Done(n, Ok(e)) => if n == 0 {
                Step::Crash
            } else {
                app_args(ts, start, id, q + n, acc.push(e))
            },
        }
    }
}

/// The bindings of a `let` from `q`, each followed by `;`, up to `in expr`.
#[verifier::opaque]
pub open spec fn let_binds(ts: Seq<SpecToken>, start: int, q: int, acc: Seq<SpecBind>) -> Step<
    SpecExpr,
>
    decreases rem(ts, q), 12nat,
{
    if !(0 <= q < ts.len()) {
        Step::Crash
    } else if ts[q].kind is In {
        let q1 = advanced(ts, q);
        proof {
            lemma_advanced(ts, q);
        }
        match expr(ts, q1) {
            Step::Crash => Step::Crash,
            Step::Done(m, Err(e)) => done_at(start, q1 + m, Err(e)),
            Step::Done(m, Ok(e)) => match recorded(ts, start, q1 + m) {
                None => Step::Crash,
                Some(sp) => done_at(start, q1 + m, Ok(SpecExpr::Let(acc, Box::new(e), sp))),
            },
        }
    } else {
        match bind(ts, q) {
            Step::Crash => Step::Crash,
            Step::Done(n, Err(e)) => done_at(start, q + n, Err(e)),
            Step::Done(n, Ok(b)) => match expect_step(ts, q + n, TokenKind::Semicolon) {
                Step::Crash => Step::Crash,
                Step::Done(m, Err(e)) => done_at(start, q + n + m, Err(e)),
                Step::Done(m, Ok(_)) => {
                    proof {
                        lemma_advanced(ts, q + n);
                    }
                    let_binds(ts, start, q + n + m, acc.push(b))
                },
            },
        }
    }
}

/// The arms of a `match` from `q`: `| pattern -> expr` repeated.
#[verifier::opaque]
pub open spec fn match_arms(
    ts: Seq<SpecToken>,
    start: int,
    scrut: SpecExpr,
    q: int,
    acc: Seq<(SpecPattern, SpecExpr)>,
) -> Step<SpecExpr>
    decreases rem(ts, q), 0nat,
{
    if !(0 <= q < ts.len()) {
        Step::Crash
    } else if ts[q].kind is Pipe {
        let q1 = advanced(ts, q);
        proof {
            lemma_advanced(ts, q);
        }
        match pattern(ts, q1) {
            Step::Crash => Step::Crash,
            Step::Done(n, Err(e)) => done_at(start, q1 + n, Err(e)),
            Step::Done(n, Ok(pat)) => match expect_step(ts, q1 + n, TokenKind::Arrow) {
                Step::Crash => Step::Crash,
                Step::Done(m, Err(e)) => done_at(start, q1 + n + m, Err(e)),
                Step::Done(m, Ok(_)) => {
                    let q2 = q1 + n + m;
                    match expr(ts, q2) {
                        Step::Crash => Step::Crash,
                        Step::Done(j, Err(e)) => done_at(start, q2 + j, Err(e)),
                        Step::Done(j, Ok(e)) => match_arms(
                            ts,
                            start,
                            scrut,
                            q2 + j,
                            acc.push((pat, e)),
                        ),
                    }
                },
            },
        }
    } else {
        match recorded(ts, start, q) {
            None => Step::Crash,
            Some(sp) => done_at(start, q, Ok(SpecExpr::Match(Box::new(scrut), acc, sp))),
        }
    }
}

/// The parameters of a lambda from `q`, up to `-> expr`.
#[verifier::opaque]
pub open spec fn lambda_pats(ts: Seq<SpecToken>, start: int, q: int, acc: Seq<SpecPattern>) -> Step<
    SpecExpr,
>
    decreases rem(ts, q), 0nat,
{
    if !(0 <= q < ts.len()) {
        Step::Crash
    } else if ts[q].kind is Arrow {
        let q1 = advanced(ts, q);
        proof {
            lemma_advanced(ts, q);
        }
        match expr(ts, q1) {
            Step::Crash => Step::Crash,
            Step::Done(m, Err(e)) => done_at(start, q1 + m, Err(e)),
            Step::Done(m, Ok(e)) => match recorded(ts, start, q1 + m) {
                None => Step::Crash,
                Some(sp) => done_at(start, q1 + m, Ok(SpecExpr::Lambda(acc, Box::new(e), sp))),
            },
        }
    } else {
        match pattern(ts, q) {
            Step::Crash => Step::Crash,
            Step::Done(n, Err(e)) => done_at(start, q + n, Err(e)),
            Step::Done(n, Ok(pat)) => if n == 0 {
                Step::Crash
            } else {
                lambda_pats(ts, start, q + n, acc.push(pat))
            },
        }
    }
}

/// `annotation`: a primary expression, optionally followed by `:: type`.
#[verifier::opaque]
pub open spec fn annotation(ts: Seq<SpecToken>, p: int) -> Step<SpecExpr>
    decreases rem(ts, p), 1nat,
{
    if !(0 <= p < ts.len()) {
        Step::Crash
    } else {
        match primary(ts, p) {
            Step::Crash => Step::Crash,
            Step::Done(n, Err(e)) => Step::Done(n, Err(e)),
            Step::Done(n, Ok(lhs)) => {
                let q = p + n;
                if !(0 <= q < ts.len()) {
                    Step::Crash
                } else if ts[q].kind is DoubleCollon {
                    let q1 = advanced(ts, q);
                    match type_(ts, q1) {
                        Step::Crash => Step::Crash,
                        Step::Done(m, Err(e)) => done_at(p, q1 + m, Err(e)),
                        Step::Done(m, Ok(ty)) => match recorded(ts, p, q1 + m) {
                            None => Step::Crash,
                            Some(sp) => done_at(p, q1 + m, Ok(SpecExpr::Ann(Box::new(lhs), ty, sp))),
                        },
                    }
                } else {
                    done_at(p, q, Ok(lhs))
                }
            },
        }
    }
}

/// `exp`: annotations joined by `^`, grouped to the left.
#[verifier::opaque]
pub open spec fn exp(ts: Seq<SpecToken>, p: int) -> Step<SpecExpr>
    decreases rem(ts, p), 3nat,
{
    if !(0 <= p < ts.len()) {
        Step::Crash
    } else {
        match annotation(ts, p) {
            Step::Crash => Step::Crash,
            Step::Done(n, Err(e)) => Step::Done(n, Err(e)),
            Step::Done(n, Ok(lhs)) => exp_more(ts, p, p + n, lhs),
        }
    }
}

#[verifier::opaque]
pub open spec fn exp_more(ts: Seq<SpecToken>, start: int, q: int, lhs: SpecExpr) -> Step<SpecExpr>
    decreases rem(ts, q), 2nat,
{
    if !(0 <= q < ts.len()) {
        Step::Crash
    } else if ts[q].kind is Exp {
        let q1 = advanced(ts, q);
        proof {
            lemma_advanced(ts, q);
        }
        match annotation(ts, q1) {
            Step::Crash => Step::Crash,
            Step::Done(m, Err(e)) => done_at(start, q1 + m, Err(e)),
            Step::Done(m, Ok(rhs)) => match recorded(ts, start, q1 + m) {
                None => Step::Crash,
                Some(sp) => exp_more(
                    ts,
                    start,
                    q1 + m,
                    SpecExpr::BinOp(BinOp::Exp, Box::new(lhs), Box::new(rhs), sp),
                ),
            },
        }
    } else {
        done_at(start, q, Ok(lhs))
    }
}

/// `cmp`: `exp`s joined by `==` and `!=`, grouped to the left.
#[verifier::opaque]
pub open spec fn comparison(ts: Seq<SpecToken>, p: int) -> Step<SpecExpr>
    decreases rem(ts, p), 5nat,
{
    if !(0 <= p < ts.len()) {
        Step::Crash
    } else {
        match exp(ts, p) {
            Step::Crash => Step::Crash,
            Step::Done(n, Err(e)) => Step::Done(n, Err(e)),
            Step::Done(n, Ok(lhs)) => comparison_more(ts, p, p + n, lhs),
        }
    }
}

#[verifier::opaque]
pub open spec fn comparison_more(ts: Seq<SpecToken>, start: int, q: int, lhs: SpecExpr) -> Step<SpecExpr>
    decreases rem(ts, q), 4nat,
{
    if !(0 <= q < ts.len()) {
        Step::Crash
    } else if (ts[q].kind is Eq || ts[q].kind is Neq) {
        let q1 = advanced(ts, q);
        proof {
            lemma_advanced(ts, q);
        }
        match equality_op(past_kind(ts, q1)) {
            None => Step::Crash,
            Some(op) => match exp(ts, q1) {
                Step::Crash => Step::Crash,
                Step::Done(m, Err(e)) => done_at(start, q1 + m, Err(e)),
                Step::Done(m, Ok(rhs)) => match recorded(ts, start, q1 + m) {
                    None => Step::Crash,
                    Some(sp) => comparison_more(
                        ts,
                        start,
                        q1 + m,
                        SpecExpr::BinOp(op, Box::new(lhs), Box::new(rhs), sp),
                    ),
                },
            },
        }
    } else {
        done_at(start, q, Ok(lhs))
    }
}

/// `factor`: `cmp`s joined by `*`, `/` and `%`, grouped to the left.
#[verifier::opaque]
pub open spec fn factor(ts: Seq<SpecToken>, p: int) -> Step<SpecExpr>
    decreases rem(ts, p), 7nat,
{
    if !(0 <= p < ts.len()) {
        Step::Crash
    } else {
        match comparison(ts, p) {
            Step::Crash => Step::Crash,
            Step::Done(n, Err(e)) => Step::Done(n, Err(e)),
            Step::Done(n, Ok(lhs)) => factor_more(ts, p, p + n, lhs),
        }
    }
}

#[verifier::opaque]
pub open spec fn factor_more(ts: Seq<SpecToken>, start: int, q: int, lhs: SpecExpr) -> Step<
    SpecExpr,
>
    decreases rem(ts, q), 6nat,
{
    if !(0 <= q < ts.len()) {
        Step::Crash
    } else if (ts[q].kind is Mul || ts[q].kind is Div || ts[q].kind is Mod) {
        let q1 = advanced(ts, q);
        proof {
            lemma_advanced(ts, q);
        }
        match multiplicative_op(past_kind(ts, q1)) {
            None => Step::Crash,
            Some(op) => match comparison(ts, q1) {
                Step::Crash => Step::Crash,
                Step::Done(m, Err(e)) => done_at(start, q1 + m, Err(e)),
                Step::Done(m, Ok(rhs)) => match recorded(ts, start, q1 + m) {
                    None => Step::Crash,
                    Some(sp) => factor_more(
                        ts,
                        start,
                        q1 + m,
                        SpecExpr::BinOp(op, Box::new(lhs), Box::new(rhs), sp),
                    ),
                },
            },
        }
    } else {
        done_at(start, q, Ok(lhs))
    }
}

/// `expr`: `factor`s joined by `+` and `-`, grouped to the left.
#[verifier::opaque]
pub open spec fn expr(ts: Seq<SpecToken>, p: int) -> Step<SpecExpr>
    decreases rem(ts, p), 9nat,
{
    if !(0 <= p < ts.len()) {
        Step::Crash
    } else {
        match factor(ts, p) {
            Step::Crash => Step::Crash,
            Step::Done(n, Err(e)) => Step::Done(n, Err(e)),
            Step::Done(n, Ok(lhs)) => expr_more(ts, p, p + n, lhs),
        }
    }
}

#[verifier::opaque]
pub open spec fn expr_more(ts: Seq<SpecToken>, start: int, q: int, lhs: SpecExpr) -> Step<SpecExpr>
    decreases rem(ts, q), 8nat,
{
    if !(0 <= q < ts.len()) {
        Step::Crash
    } else if (ts[q].kind is Add || ts[q].kind is Sub) {
        let q1 = advanced(ts, q);
        proof {
            lemma_advanced(ts, q);
        }
        match additive_op(past_kind(ts, q1)) {
            None => Step::Crash,
            Some(op) => match factor(ts, q1) {
                Step::Crash => Step::Crash,
                Step::Done(m, Err(e)) => done_at(start, q1 + m, Err(e)),
                Step::Done(m, Ok(rhs)) => match recorded(ts, start, q1 + m) {
                    None => Step::Crash,
                    Some(sp) => expr_more(
                        ts,
                        start,
                        q1 + m,
                        SpecExpr::BinOp(op, Box::new(lhs), Box::new(rhs), sp),
                    ),
                },
            },
        }
    } else {
        done_at(start, q, Ok(lhs))
    }
}

/// `bind`: `name pattern* = expr`.
#[verifier::opaque]
pub open spec fn bind(ts: Seq<SpecToken>, p: int) -> Step<SpecBind>
    decreases rem(ts, p), 11nat,
{
    if !(0 <= p < ts.len()) {
        Step::Crash
    } else {
        match expect_identifier_step(ts, p) {
            Step::Crash => Step::Crash,
            Step::Done(n, Err(e)) => Step::Done(n, Err(e)),
            Step::Done(n, Ok(id)) => {
                proof {
                    lemma_advanced(ts, p);
                }
                bind_pats(ts, p, id, p + n, seq![])
            },
        }
    }
}

/// The patterns of a binding from `q`, up to `= expr`.
#[verifier::opaque]
pub open spec fn bind_pats(
    ts: Seq<SpecToken>,
    start: int,
    id: SpecIdentifier,
    q: int,
    acc: Seq<SpecPattern>,
) -> Step<SpecBind>
    decreases rem(ts, q), 0nat,
{
    if !(0 <= q < ts.len()) {
        Step::Crash
    } else if ts[q].kind is Assign {
        let q1 = advanced(ts, q);
        proof {
            lemma_advanced(ts, q);
        }
        match expr(ts, q1) {
            Step::Crash => Step::Crash,
            Step::Done(m, Err(e)) => done_at(start, q1 + m, Err(e)),
            Step::Done(m, Ok(e)) => match recorded(ts, start, q1 + m) {
                None => Step::Crash,
                Some(sp) => done_at(
                    start,
                    q1 + m,
                    Ok(SpecBind { id, args: acc, expr: Box::new(e), span: sp }),
                ),
            },
        }
    } else {
        match pattern(ts, q) {
            Step::Crash => Step::Crash,
            Step::Done(n, Err(e)) => done_at(start, q + n, Err(e)),
            Step::Done(n, Ok(pat)) => if n == 0 {
                Step::Crash
            } else {
                bind_pats(ts, start, id, q + n, acc.push(pat))
            },
        }
    }
}


pub proof fn lemma_back_ws(ts: Seq<SpecToken>, q: int)
    ensures
        back_ws(ts, q) matches Some(r) ==> 0 <= r <= q < ts.len() && !is_ws(ts, r),
    decreases q + 1,
{
    if 0 <= q < ts.len() && is_ws(ts, q) {
        lemma_back_ws(ts, q - 1);
    }
}



// ----- statements -----

/// The argument types of a constructor named `id` at `start`, from `q`, up
/// to the first position where none parses.
#[verifier::opaque]
pub open spec fn variant_types(
    ts: Seq<SpecToken>,
    start: int,
    id: SpecIdentifier,
    q: int,
    acc: Seq<SpecType>,
) -> Step<SpecVariant>
    decreases rem(ts, q),
{
    if !(0 <= q < ts.len()) {
        Step::Crash
    } else {
        match type_(ts, q) {
            Step::Crash => Step::Crash,
            Step::Done(n, Err(_)) => match recorded(ts, start, q + n) {
                None => Step::Crash,
                Some(sp) => done_at(start, q + n, Ok(SpecVariant { id, types: acc, span: sp })),
            },
            Step::Done(n, Ok(t)) => if n == 0 {
                Step::Crash
            } else {
                variant_types(ts, start, id, q + n, acc.push(t))
            },
        }
    }
}

/// `variant`: a capitalised name followed by its argument types.
pub open spec fn variant(ts: Seq<SpecToken>, p: int) -> Step<SpecVariant> {
    match expect_pc_identifier_step(ts, p) {
        Step::Crash => Step::Crash,
        Step::Done(n, Err(e)) => Step::Done(n, Err(e)),
        Step::Done(n, Ok(id)) => variant_types(ts, p, id, p + n, seq![]),
    }
}

/// The variants of a declaration after the first, each after `|`.
#[verifier::opaque]
pub open spec fn decl_variants(
    ts: Seq<SpecToken>,
    start: int,
    id: SpecIdentifier,
    params: Seq<SpecIdentifier>,
    q: int,
    vs: Seq<SpecVariant>,
) -> Step<SpecStatment>
    decreases rem(ts, q),
{
    if !(0 <= q < ts.len()) {
        Step::Crash
    } else if ts[q].kind is Pipe {
        let q1 = advanced(ts, q);
        proof {
            lemma_advanced(ts, q);
        }
        match variant(ts, q1) {
            Step::Crash => Step::Crash,
            Step::Done(n, Err(e)) => done_at(start, q1 + n, Err(e)),
            Step::Done(n, Ok(v)) => decl_variants(ts, start, id, params, q1 + n, vs.push(v)),
        }
    } else {
        match recorded(ts, start, q) {
            None => Step::Crash,
            Some(sp) => done_at(
                start,
                q,
                Ok(SpecStatment::TypeDecl(SpecTypeDecl { id, params, variants: vs, span: sp })),
            ),
        }
    }
}

/// The parameters of a declaration from `q`, up to `=`, then its variants.
#[verifier::opaque]
pub open spec fn decl_params(
    ts: Seq<SpecToken>,
    start: int,
    id: SpecIdentifier,
    q: int,
    params: Seq<SpecIdentifier>,
) -> Step<SpecStatment>
    decreases rem(ts, q),
{
    if !(0 <= q < ts.len()) {
        Step::Crash
    } else if ts[q].kind is Assign {
        let q1 = advanced(ts, q);
        match variant(ts, q1) {
            Step::Crash => Step::Crash,
            Step::Done(n, Err(e)) => done_at(start, q1 + n, Err(e)),
            Step::Done(n, Ok(v)) => decl_variants(ts, start, id, params, q1 + n, seq![v]),
        }
    } else {
        match expect_identifier_step(ts, q) {
            Step::Crash => Step::Crash,
            Step::Done(n, Err(e)) => done_at(start, q + n, Err(e)),
            Step::Done(n, Ok(x)) => {
                proof {
                    lemma_advanced(ts, q);
                }
                decl_params(ts, start, id, q + n, params.push(x))
            },
        }
    }
}

/// `type Name params = Variant | Variant ...`, from the `type` token at `p`.
pub open spec fn type_decl(ts: Seq<SpecToken>, p: int) -> Step<SpecStatment> {
    let q1 = advanced(ts, p);
    match expect_pc_identifier_step(ts, q1) {
        Step::Crash => Step::Crash,
        Step::Done(n, Err(e)) => done_at(p, q1 + n, Err(e)),
        Step::Done(n, Ok(id)) => decl_params(ts, p, id, q1 + n, seq![]),
    }
}

/// A statement starting with a name: `name :: type`, or else a binding read
/// again from the name.
pub open spec fn stmt_identifier(ts: Seq<SpecToken>, p: int) -> Step<SpecStatment> {
    match expect_identifier_step(ts, p) {
        Step::Crash => Step::Crash,
        Step::Done(n, Err(e)) => Step::Done(n, Err(e)),
        Step::Done(n, Ok(id)) => {
            let p1 = p + n;
            if !(0 <= p1 < ts.len()) {
                Step::Crash
            } else if ts[p1].kind is DoubleCollon {
                let q = advanced(ts, p1);
                match type_(ts, q) {
                    Step::Crash => Step::Crash,
                    Step::Done(m, Err(e)) => done_at(p, q + m, Err(e)),
                    Step::Done(m, Ok(ty)) => match recorded(ts, p, q + m) {
                        None => Step::Crash,
                        Some(sp) => done_at(
                            p,
                            q + m,
                            Ok(SpecStatment::TypeAssign(SpecTypeAssign { id, ty, span: sp })),
                        ),
                    },
                }
            } else {
                match back_up_pos(ts, p1) {
                    None => Step::Crash,
                    Some(b) => match bind(ts, b) {
                        Step::Crash => Step::Crash,
                        Step::Done(m, Err(e)) => done_at(p, b + m, Err(e)),
                        Step::Done(m, Ok(bd)) => done_at(p, b + m, Ok(SpecStatment::Bind(bd))),
                    },
                }
            }
        },
    }
}

/// A statement: one starting with a name, or a type declaration. Any other
/// first token stops the program.
pub open spec fn statement(ts: Seq<SpecToken>, p: int) -> Step<SpecStatment> {
    if !(0 <= p < ts.len()) {
        Step::Crash
    } else if ts[p].kind is Identifier {
        stmt_identifier(ts, p)
    } else if ts[p].kind is Type {
        type_decl(ts, p)
    } else {
        Step::Crash
    }
}

/// Statements from `p` up to the end of the tokens or an `Eof` token.
#[verifier::opaque]
pub open spec fn program_from(
    ts: Seq<SpecToken>,
    start: int,
    p: int,
    acc: Seq<SpecStatment>,
) -> Step<SpecProgram>
    decreases rem(ts, p),
{
    if p < 0 {
        Step::Crash
    } else if p >= ts.len() || ts[p].kind is Eof {
        done_at(start, p, Ok(SpecProgram { statements: acc }))
    } else {
        match statement(ts, p) {
            Step::Crash => Step::Crash,
            Step::Done(n, Err(e)) => done_at(start, p + n, Err(e)),
            Step::Done(n, Ok(s)) => if n == 0 {
                Step::Crash
            } else {
                program_from(ts, start, p + n, acc.push(s))
            },
        }
    }
}

/// A whole program read from position `p`.
pub open spec fn program(ts: Seq<SpecToken>, p: int) -> Step<SpecProgram> {
    program_from(ts, p, p, seq![])
}


/// Stepping back from a position reached by moving past the token at `p`
/// lands on `p` again.
pub proof fn lemma_back_up_pos(ts: Seq<SpecToken>, p: int, q: int)
    requires
        0 <= p < q <= ts.len(),
        !is_ws(ts, p),
        forall|j: int| p < j < q ==> is_ws(ts, j),
    ensures
        back_up_pos(ts, q) == Some(p),
    decreases q - p,
{
    if q - 1 > p {
        lemma_back_up_pos(ts, p, q - 1);
    }
}

} // verus!
