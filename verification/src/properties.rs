//! Properties of the lexer and the parser that hold for every input.
use vstd::prelude::*;
use vstd::string::*;
use crate::ast::{SpecSpan, SpecStatment};
use crate::grammar::{
    Step, advanced, annotation, bind, comparison, exp, expr, factor, lemma_advanced, pattern,
    pattern_primary, primary, program, program_from, rem, statement, texts, type_, type_primary,
    variant, recorded, trim_end,
};
use crate::bounds::lemma_rules_stop_within_tokens;
use crate::reach::{
    reach_bind_pats, reach_comparison_more, reach_decl_params, reach_exp_more, reach_expr_more,
    reach_factor_more, reach_if_expr, reach_lambda_pats, reach_let_binds, reach_match_expr,
    reach_name_expr, reach_paren_expr, reach_pattern_types, reach_tuple_items, reach_type_args,
    reach_type_arrows, reach_variant_types, span_bind_pats, span_decl_params,
};
use crate::lexer::{kind_of_text, lemma_token_end, lex, lex_from, token_end_at};
use crate::token::{SpecToken, TokenKind};

verus! {

/// Where the token at index `k` of the tokens of `c` begins in `c`; past the
/// last token, the end of `c`.
pub open spec fn char_pos(c: Seq<char>, k: int) -> int {
    if 0 <= k < lex(c).len() {
        lex(c)[k].span.start as int
    } else {
        c.len() as int
    }
}

/// Token `k` of `s` is not `Eof`, has the kind its text reads as, is a
/// non-empty slice of `c`, and ends where token `k + 1` begins.
pub open spec fn token_fits(c: Seq<char>, s: Seq<SpecToken>, k: int) -> bool {
    &&& s[k].kind != TokenKind::Eof
    &&& s[k].kind == kind_of_text(s[k].span.input)
    &&& s[k].span.start < s[k].span.end
    &&& s[k].span.input == c.subrange(s[k].span.start as int, s[k].span.end as int)
    &&& s[k].span.end == s[k + 1].span.start
}

/// The shape of a token list read from `i`: it starts at `i`, each token
/// but the last fits `c` as above, and the last one is an empty `Eof` at the
/// end of `c`.
pub open spec fn well_laid(c: Seq<char>, i: int, s: Seq<SpecToken>) -> bool {
    &&& s.len() >= 1
    &&& s[0].span.start == i
    &&& s.last().kind == TokenKind::Eof
    &&& s.last().span.start == c.len()
    &&& s.last().span.end == c.len()
    &&& s.last().span.input == Seq::<char>::empty()
    &&& forall|k: int| 0 <= k < s.len() - 1 ==> #[trigger] token_fits(c, s, k)
}

proof fn lemma_kind_of_text_not_eof(w: Seq<char>)
    requires
        w.len() >= 1,
    ensures
        kind_of_text(w) != TokenKind::Eof,
{
}

proof fn lemma_lex_from_laid(c: Seq<char>, i: int)
    requires
        0 <= i <= c.len(),
        c.len() <= usize::MAX,
    ensures
        well_laid(c, i, lex_from(c, i)),
    decreases c.len() - i,
{
    let s = lex_from(c, i);
    if i < c.len() {
        let e = token_end_at(c, i);
        lemma_token_end(c, i);
        lemma_lex_from_laid(c, e);
        let rest = lex_from(c, e);
        lemma_kind_of_text_not_eof(c.subrange(i, e));
        assert(s == seq![s[0]] + rest);
        assert forall|k: int| 0 <= k < s.len() - 1 implies #[trigger] token_fits(c, s, k) by {
            if k > 0 {
                assert(token_fits(c, rest, k - 1));
                assert(s[k] == rest[k - 1]);
                assert(s[k + 1] == rest[k]);
            }
        }
    }
}

proof fn lemma_laid_start_in_source(c: Seq<char>, s: Seq<SpecToken>, k: int)
    requires
        well_laid(c, 0, s),
        0 <= k < s.len(),
    ensures
        s[k].span.start <= c.len(),
    decreases s.len() - k,
{
    if k < s.len() - 1 {
        assert(token_fits(c, s, k));
        lemma_laid_start_in_source(c, s, k + 1);
    }
}

proof fn lemma_lex_len(c: Seq<char>, i: int)
    requires
        0 <= i <= c.len(),
    ensures
        lex_from(c, i).len() <= c.len() - i + 1,
    decreases c.len() - i,
{
    if i < c.len() {
        lemma_token_end(c, i);
        lemma_lex_len(c, token_end_at(c, i));
    }
}

/// The texts of tokens `a..b` of a well-laid list are the slice of `c` from
/// where token `a` begins to where token `b` begins.
proof fn lemma_texts_laid(c: Seq<char>, s: Seq<SpecToken>, a: int, b: int)
    requires
        well_laid(c, 0, s),
        0 <= a <= b < s.len(),
    ensures
        s[a].span.start <= s[b].span.start,
        texts(s, a, b) == c.subrange(s[a].span.start as int, s[b].span.start as int),
    decreases b - a,
{
    lemma_laid_start_in_source(c, s, b);
    if a < b {
        lemma_texts_laid(c, s, a, b - 1);
        let k = b - 1;
        assert(token_fits(c, s, k));
        assert(c.subrange(s[a].span.start as int, s[k].span.start as int) + c.subrange(
            s[k].span.start as int,
            s[k].span.end as int,
        ) =~= c.subrange(s[a].span.start as int, s[b].span.start as int));
    } else {
        assert(c.subrange(s[a].span.start as int, s[b].span.start as int) =~= Seq::<char>::empty());
    }
}

/// The tokens of a text cover it: the token list ends with one `Eof` token,
/// empty and at the end of the text; every token before it is a non-empty
/// slice of the text that begins where the one before it ended, the first
/// one at the start.
pub proof fn lemma_lex_tokens_tile_source(c: Seq<char>)
    requires
        c.len() <= usize::MAX,
    ensures
        well_laid(c, 0, lex(c)),
{
    lemma_lex_from_laid(c, 0);
}

/// The texts of the tokens from index `a` up to index `b` put together are
/// the slice of the source between where those two tokens begin; over all
/// the tokens, they give the source back.
pub proof fn lemma_lex_texts_are_slices(c: Seq<char>, a: int, b: int)
    requires
        c.len() <= usize::MAX,
        0 <= a <= b <= lex(c).len(),
    ensures
        texts(lex(c), a, b) == c.subrange(char_pos(c, a), char_pos(c, b)),
        texts(lex(c), 0, lex(c).len() as int) == c,
{
    let s = lex(c);
    lemma_lex_from_laid(c, 0);
    let n = s.len() - 1;
    lemma_texts_laid(c, s, 0, n);
    assert(texts(s, 0, s.len() as int) == texts(s, 0, n) + s[n].span.input);
    assert(texts(s, 0, s.len() as int) =~= c);
    if b < s.len() {
        lemma_texts_laid(c, s, a, b);
    } else if a < s.len() {
        lemma_texts_laid(c, s, a, n);
        assert(texts(s, a, b) == texts(s, a, n) + s[n].span.input);
    } else {
        assert(c.subrange(c.len() as int, c.len() as int) =~= Seq::<char>::empty());
    }
}

// ----- every rule that succeeds moves forward -----

proof fn moves_type_primary(ts: Seq<SpecToken>, p: int)
    requires
        0 <= p,
    ensures
        type_primary(ts, p) matches Step::Done(n, Ok(_)) ==> n >= 1,
{
    reveal_with_fuel(crate::grammar::type_primary, 1);
    reveal_with_fuel(crate::grammar::type_, 1);
    if p < ts.len() {
        lemma_advanced(ts, p);
        let p1 = advanced(ts, p);
        if let Some(id) = crate::grammar::ident_at(ts, p, p1) {
            if let Step::Done(n, Ok(t)) = type_(ts, p1) {
                reach_type_args(ts, p, id, p1 + n, seq![t]);
            }
        }
        reach_tuple_items(ts, p, p1, seq![]);
    }
}

proof fn moves_type(ts: Seq<SpecToken>, p: int)
    requires
        0 <= p,
    ensures
        type_(ts, p) matches Step::Done(n, Ok(_)) ==> n >= 1,
{
    reveal_with_fuel(crate::grammar::type_, 1);
    reveal_with_fuel(crate::grammar::type_primary, 1);
    moves_type_primary(ts, p);
    if let Step::Done(n, Ok(lhs)) = type_primary(ts, p) {
        reach_type_arrows(ts, p, p + n, lhs, seq![]);
    }
}

proof fn moves_pattern_primary(ts: Seq<SpecToken>, p: int)
    requires
        0 <= p,
    ensures
        pattern_primary(ts, p) matches Step::Done(n, Ok(_)) ==> n >= 1,
{
    if p < ts.len() {
        lemma_advanced(ts, p);
        let p1 = advanced(ts, p);
        if let Some(id) = crate::grammar::ident_at(ts, p, p1) {
            if let Step::Done(n, Ok(t)) = type_(ts, p1) {
                reach_pattern_types(ts, p, id, p1 + n, seq![t, t]);
            }
        }
    }
}

proof fn moves_pattern(ts: Seq<SpecToken>, p: int)
    requires
        0 <= p,
    ensures
        pattern(ts, p) matches Step::Done(n, Ok(_)) ==> n >= 1,
{
    reveal_with_fuel(crate::grammar::pattern, 1);
    moves_pattern_primary(ts, p);
    if let Step::Done(n, Ok(_)) = pattern_primary(ts, p) {
        if p + n < ts.len() {
            lemma_advanced(ts, p + n);
        }
    }
}

proof fn moves_primary(ts: Seq<SpecToken>, p: int)
    requires
        0 <= p,
    ensures
        primary(ts, p) matches Step::Done(n, Ok(_)) ==> n >= 1,
{
    reveal_with_fuel(crate::grammar::primary, 1);
    if p < ts.len() {
        lemma_advanced(ts, p);
        let p1 = advanced(ts, p);
        reach_name_expr(ts, p, p1);
        reach_paren_expr(ts, p, p1);
        reach_let_binds(ts, p, p1, seq![]);
        reach_if_expr(ts, p, p1);
        reach_match_expr(ts, p, p1);
        reach_lambda_pats(ts, p, p1, seq![]);
    }
}

proof fn moves_annotation(ts: Seq<SpecToken>, p: int)
    requires
        0 <= p,
    ensures
        annotation(ts, p) matches Step::Done(n, Ok(_)) ==> n >= 1,
{
    reveal_with_fuel(crate::grammar::annotation, 1);
    reveal_with_fuel(crate::grammar::primary, 1);
    reveal_with_fuel(crate::grammar::type_, 1);
    moves_primary(ts, p);
    if let Step::Done(n, Ok(_)) = primary(ts, p) {
        if p + n < ts.len() {
            lemma_advanced(ts, p + n);
        }
    }
}

proof fn moves_exp(ts: Seq<SpecToken>, p: int)
    requires
        0 <= p,
    ensures
        exp(ts, p) matches Step::Done(n, Ok(_)) ==> n >= 1,
{
    reveal_with_fuel(crate::grammar::exp, 1);
    reveal_with_fuel(crate::grammar::annotation, 1);
    moves_annotation(ts, p);
    if let Step::Done(n, Ok(lhs)) = annotation(ts, p) {
        reach_exp_more(ts, p, p + n, lhs);
    }
}

proof fn moves_comparison(ts: Seq<SpecToken>, p: int)
    requires
        0 <= p,
    ensures
        comparison(ts, p) matches Step::Done(n, Ok(_)) ==> n >= 1,
{
    reveal_with_fuel(crate::grammar::comparison, 1);
    reveal_with_fuel(crate::grammar::exp, 1);
    moves_exp(ts, p);
    if let Step::Done(n, Ok(lhs)) = exp(ts, p) {
        reach_comparison_more(ts, p, p + n, lhs);
    }
}

proof fn moves_factor(ts: Seq<SpecToken>, p: int)
    requires
        0 <= p,
    ensures
        factor(ts, p) matches Step::Done(n, Ok(_)) ==> n >= 1,
{
    reveal_with_fuel(crate::grammar::factor, 1);
    reveal_with_fuel(crate::grammar::comparison, 1);
    moves_comparison(ts, p);
    if let Step::Done(n, Ok(lhs)) = comparison(ts, p) {
        reach_factor_more(ts, p, p + n, lhs);
    }
}

proof fn moves_expr(ts: Seq<SpecToken>, p: int)
    requires
        0 <= p,
    ensures
        expr(ts, p) matches Step::Done(n, Ok(_)) ==> n >= 1,
{
    reveal_with_fuel(crate::grammar::expr, 1);
    reveal_with_fuel(crate::grammar::factor, 1);
    moves_factor(ts, p);
    if let Step::Done(n, Ok(lhs)) = factor(ts, p) {
        reach_expr_more(ts, p, p + n, lhs);
    }
}

proof fn moves_bind(ts: Seq<SpecToken>, p: int)
    requires
        0 <= p,
    ensures
        bind(ts, p) matches Step::Done(n, Ok(_)) ==> n >= 1,
{
    reveal_with_fuel(crate::grammar::bind, 1);
    if p < ts.len() {
        lemma_advanced(ts, p);
        if let Step::Done(n, Ok(id)) = crate::grammar::expect_identifier_step(ts, p) {
            reach_bind_pats(ts, p, id, p + n, seq![]);
        }
    }
}

proof fn moves_variant(ts: Seq<SpecToken>, p: int)
    requires
        0 <= p,
    ensures
        variant(ts, p) matches Step::Done(n, Ok(_)) ==> n >= 1,
{
    if p < ts.len() {
        lemma_advanced(ts, p);
        if let Step::Done(n, Ok(id)) = crate::grammar::expect_pc_identifier_step(ts, p) {
            reach_variant_types(ts, p, id, p + n, seq![]);
        }
    }
}

proof fn moves_statement(ts: Seq<SpecToken>, p: int)
    requires
        0 <= p,
    ensures
        statement(ts, p) matches Step::Done(n, Ok(_)) ==> n >= 1,
{
    if p < ts.len() {
        lemma_advanced(ts, p);
        let p1 = advanced(ts, p);
        if ts[p].kind is Type {
            if p1 < ts.len() {
                lemma_advanced(ts, p1);
                if let Step::Done(n, Ok(id)) = crate::grammar::expect_pc_identifier_step(ts, p1) {
                    reach_decl_params(ts, p, id, p1 + n, seq![]);
                }
            }
        } else if ts[p].kind is Identifier {
            if p1 < ts.len() {
                lemma_advanced(ts, p1);
                crate::grammar::lemma_back_up_pos(ts, p, p1);
            }
            moves_bind(ts, p);
        }
    }
}

/// Every rule that succeeds moves past at least one token, so the parser's
/// loops that repeat a rule until it fails always make progress.
pub proof fn lemma_success_moves_forward(ts: Seq<SpecToken>, p: int)
    requires
        0 <= p,
    ensures
        type_(ts, p) matches Step::Done(n, Ok(_)) ==> n >= 1,
        pattern(ts, p) matches Step::Done(n, Ok(_)) ==> n >= 1,
        expr(ts, p) matches Step::Done(n, Ok(_)) ==> n >= 1,
        bind(ts, p) matches Step::Done(n, Ok(_)) ==> n >= 1,
        variant(ts, p) matches Step::Done(n, Ok(_)) ==> n >= 1,
        statement(ts, p) matches Step::Done(n, Ok(_)) ==> n >= 1,
{
    moves_type(ts, p);
    moves_pattern(ts, p);
    moves_expr(ts, p);
    moves_bind(ts, p);
    moves_variant(ts, p);
    moves_statement(ts, p);
}

proof fn program_from_end(ts: Seq<SpecToken>, start: int, p: int, acc: Seq<SpecStatment>)
    requires
        0 <= start <= p,
    ensures
        program_from(ts, start, p, acc) matches Step::Done(k, Ok(_)) ==> start + k >= p && (start
            + k >= ts.len() || ts[start + k].kind is Eof),
    decreases rem(ts, p),
{
    reveal_with_fuel(crate::grammar::program_from, 1);
    if p < ts.len() && !(ts[p].kind is Eof) {
        if let Step::Done(n, Ok(st)) = statement(ts, p) {
            if n > 0 {
                program_from_end(ts, start, p + n, acc.push(st));
            }
        }
    }
}

/// A program that parses ends where the tokens end or at an `Eof` token:
/// the parser never stops early with success.
pub proof fn lemma_program_stops_at_end(ts: Seq<SpecToken>, p: int)
    requires
        0 <= p,
    ensures
        program(ts, p) matches Step::Done(n, Ok(_)) ==> p + n >= ts.len() || ts[p + n].kind is Eof,
{
    program_from_end(ts, p, p, seq![]);
}

/// Parsing the tokens of a source text from the first token: a parse that
/// succeeds stops exactly at the closing `Eof` token, having read all of the
/// text; one that fails stops on the token that its error names.
pub proof fn lemma_parse_of_source(c: Seq<char>)
    requires
        c.len() <= usize::MAX,
    ensures
        program(lex(c), 0) matches Step::Done(n, Ok(_)) ==> n == lex(c).len() - 1,
        program(lex(c), 0) matches Step::Done(n, Err(e)) ==> n < lex(c).len() && e.span == lex(
            c,
        )[n as int].span && e.kind->found == e.span,
{
    let s = lex(c);
    lemma_lex_from_laid(c, 0);
    program_from_end(s, 0, 0, seq![]);
    lemma_rules_stop_within_tokens(s, 0);
    if let Step::Done(n, Ok(_)) = program(s, 0) {
        if n < s.len() - 1 {
            assert(token_fits(c, s, n as int));
        }
    }
}

/// After a successful parse, parsing again from where it stopped reads
/// nothing and gives an empty program.
pub proof fn lemma_parse_again_is_empty(ts: Seq<SpecToken>, p: int)
    requires
        0 <= p,
    ensures
        program(ts, p) matches Step::Done(n, Ok(_)) ==> program(ts, p + n) == Step::Done(
            0,
            Ok::<crate::ast::SpecProgram, crate::error::SpecError>(
                crate::ast::SpecProgram { statements: Seq::empty() },
            ),
        ),
{
    reveal_with_fuel(crate::grammar::program_from, 1);
    program_from_end(ts, p, p, seq![]);
}

/// What each keyword, `_`, and a run of blanks reads as.
proof fn lemma_keyword_kinds(w: Seq<char>)
    requires
        w.len() >= 1,
    ensures
        w == "type"@ ==> kind_of_text(w) == TokenKind::Type,
        w == "let"@ ==> kind_of_text(w) == TokenKind::Let,
        w == "in"@ ==> kind_of_text(w) == TokenKind::In,
        w == "if"@ ==> kind_of_text(w) == TokenKind::If,
        w == "then"@ ==> kind_of_text(w) == TokenKind::Then,
        w == "else"@ ==> kind_of_text(w) == TokenKind::Else,
        w == "match"@ ==> kind_of_text(w) == TokenKind::Match,
        w == "true"@ ==> kind_of_text(w) == TokenKind::True,
        w == "false"@ ==> kind_of_text(w) == TokenKind::False,
        w == "_"@ ==> kind_of_text(w) == TokenKind::Underscore,
        crate::lexer::is_blank(w[0]) ==> kind_of_text(w) == TokenKind::Whitespace,
{
    reveal_strlit("type");
    reveal_strlit("let");
    reveal_strlit("in");
    reveal_strlit("if");
    reveal_strlit("then");
    reveal_strlit("else");
    reveal_strlit("match");
    reveal_strlit("true");
    reveal_strlit("false");
    reveal_strlit("_");
    if w == "type"@ {
        assert(w.len() == 4);
        assert(w[0] == 't');
        assert(w[1] == 'y');
        assert(w[2] == 'p');
        assert(w[3] == 'e');
        assert(w[1] != "then"@[1]);
        assert(w[0] != "else"@[0]);
        assert(w[1] != "true"@[1]);
    }
    if w == "let"@ {
        assert(w.len() == 3);
        assert(w[0] == 'l');
        assert(w[1] == 'e');
        assert(w[2] == 't');
    }
    if w == "in"@ {
        assert(w.len() == 2);
        assert(w[0] == 'i');
        assert(w[1] == 'n');
        assert(w[1] != "if"@[1]);
    }
    if w == "if"@ {
        assert(w.len() == 2);
        assert(w[0] == 'i');
        assert(w[1] == 'f');
        assert(w[1] != "in"@[1]);
    }
    if w == "then"@ {
        assert(w.len() == 4);
        assert(w[0] == 't');
        assert(w[1] == 'h');
        assert(w[2] == 'e');
        assert(w[3] == 'n');
        assert(w[1] != "type"@[1]);
        assert(w[0] != "else"@[0]);
        assert(w[1] != "true"@[1]);
    }
    if w == "else"@ {
        assert(w.len() == 4);
        assert(w[0] == 'e');
        assert(w[1] == 'l');
        assert(w[2] == 's');
        assert(w[3] == 'e');
        assert(w[0] != "type"@[0]);
        assert(w[0] != "then"@[0]);
        assert(w[0] != "true"@[0]);
    }
    if w == "match"@ {
        assert(w.len() == 5);
        assert(w[0] == 'm');
        assert(w[1] == 'a');
        assert(w[2] == 't');
        assert(w[3] == 'c');
        assert(w[4] == 'h');
        assert(w[0] != "false"@[0]);
    }
    if w == "true"@ {
        assert(w.len() == 4);
        assert(w[0] == 't');
        assert(w[1] == 'r');
        assert(w[2] == 'u');
        assert(w[3] == 'e');
        assert(w[1] != "type"@[1]);
        assert(w[1] != "then"@[1]);
        assert(w[0] != "else"@[0]);
    }
    if w == "false"@ {
        assert(w.len() == 5);
        assert(w[0] == 'f');
        assert(w[1] == 'a');
        assert(w[2] == 'l');
        assert(w[3] == 's');
        assert(w[4] == 'e');
        assert(w[0] != "match"@[0]);
    }
    if w == "_"@ {
        assert(w.len() == 1);
        assert(w[0] == '_');
    }
}

/// Every token before the closing `Eof` has the kind its text spells: the
/// keywords `type`, `let`, `in`, `if`, `then`, `else`, `match`, `true`,
/// `false` and `_` are those keywords, and a token of blanks is whitespace.
pub proof fn lemma_lex_keywords(c: Seq<char>, k: int)
    requires
        c.len() <= usize::MAX,
        0 <= k < lex(c).len() - 1,
    ensures
        ({
            let w = lex(c)[k].span.input;
            let kind = lex(c)[k].kind;
            &&& w == "type"@ ==> kind == TokenKind::Type
            &&& w == "let"@ ==> kind == TokenKind::Let
            &&& w == "in"@ ==> kind == TokenKind::In
            &&& w == "if"@ ==> kind == TokenKind::If
            &&& w == "then"@ ==> kind == TokenKind::Then
            &&& w == "else"@ ==> kind == TokenKind::Else
            &&& w == "match"@ ==> kind == TokenKind::Match
            &&& w == "true"@ ==> kind == TokenKind::True
            &&& w == "false"@ ==> kind == TokenKind::False
            &&& w == "_"@ ==> kind == TokenKind::Underscore
            &&& w.len() >= 1
            &&& crate::lexer::is_blank(w[0]) ==> kind == TokenKind::Whitespace
        }),
{
    lemma_lex_from_laid(c, 0);
    let s = lex(c);
    assert(token_fits(c, s, k));
    lemma_laid_start_in_source(c, s, k + 1);
    lemma_keyword_kinds(s[k].span.input);
}

/// The span recorded for a region from token `a` up to position `x` starts
/// at `a`, holds the texts of its tokens, and ends after the last token
/// before `x` that is not whitespace: everything between its end and `x` is
/// whitespace.
pub proof fn lemma_recorded_span(ts: Seq<SpecToken>, a: int, x: int)
    requires
        ts.len() <= usize::MAX,
    ensures
        recorded(ts, a, x) matches Some(sp) ==> {
            &&& sp.start == a
            &&& a <= sp.end <= x <= ts.len()
            &&& sp.input == texts(ts, a, sp.end as int)
            &&& 0 < sp.end
            &&& !crate::grammar::is_ws(ts, sp.end - 1)
            &&& forall|j: int| sp.end <= j < x ==> crate::grammar::is_ws(ts, j)
        },
    decreases x,
{
    recorded_facts(ts, a, x);
    trim_end_walk(ts, x);
}

proof fn trim_end_walk(ts: Seq<SpecToken>, x: int)
    ensures
        trim_end(ts, x) matches Some(e) ==> 0 < e <= x <= ts.len() && !crate::grammar::is_ws(
            ts,
            e - 1,
        ) && forall|j: int| e <= j < x ==> crate::grammar::is_ws(ts, j),
    decreases x,
{
    if 0 < x <= ts.len() && crate::grammar::is_ws(ts, x - 1) {
        trim_end_walk(ts, x - 1);
    }
}

// ----- the spans of statements -----

/// The span that a statement records.
pub open spec fn statement_span(s: SpecStatment) -> SpecSpan {
    match s {
        SpecStatment::TypeAssign(t) => t.span,
        SpecStatment::TypeDecl(d) => d.span,
        SpecStatment::Bind(b) => b.span,
    }
}

/// The statements `stmts` lie in order within tokens `lo..hi`, without
/// overlapping, and each one's span holds the texts of the tokens it covers.
pub open spec fn spans_in(ts: Seq<SpecToken>, lo: int, hi: int, stmts: Seq<SpecStatment>) -> bool {
    &&& forall|i: int|
        0 <= i < stmts.len() ==> {
            let sp = statement_span(#[trigger] stmts[i]);
            &&& lo <= sp.start <= sp.end <= hi
            &&& sp.end <= ts.len()
            &&& sp.input == texts(ts, sp.start as int, sp.end as int)
        }
    &&& forall|i: int, j: int|
        0 <= i < j < stmts.len() ==> statement_span(#[trigger] stmts[i]).end <= statement_span(
            #[trigger] stmts[j],
        ).start
}

proof fn trim_end_bounds(ts: Seq<SpecToken>, x: int)
    ensures
        trim_end(ts, x) matches Some(e) ==> 0 < e <= x && e <= ts.len(),
    decreases x,
{
    if 0 < x <= ts.len() && crate::grammar::is_ws(ts, x - 1) {
        trim_end_bounds(ts, x - 1);
    }
}

proof fn recorded_facts(ts: Seq<SpecToken>, a: int, x: int)
    requires
        ts.len() <= usize::MAX,
    ensures
        recorded(ts, a, x) matches Some(sp) ==> {
            &&& sp.start == a
            &&& a <= sp.end <= x
            &&& sp.end <= ts.len()
            &&& sp.input == texts(ts, a, sp.end as int)
        },
{
    trim_end_bounds(ts, x);
}

proof fn span_bind(ts: Seq<SpecToken>, p: int)
    requires
        0 <= p,
    ensures
        bind(ts, p) matches Step::Done(k, Ok(b)) ==> recorded(ts, p, p + k) == Some(b.span),
{
    reveal_with_fuel(crate::grammar::bind, 1);
    if p < ts.len() {
        lemma_advanced(ts, p);
        if let Step::Done(n, Ok(id)) = crate::grammar::expect_identifier_step(ts, p) {
            span_bind_pats(ts, p, id, p + n, seq![]);
        }
    }
}

proof fn span_statement(ts: Seq<SpecToken>, p: int)
    requires
        0 <= p,
    ensures
        statement(ts, p) matches Step::Done(k, Ok(s)) ==> recorded(ts, p, p + k) == Some(
            statement_span(s),
        ),
{
    if p < ts.len() {
        lemma_advanced(ts, p);
        let p1 = advanced(ts, p);
        if ts[p].kind is Type {
            if p1 < ts.len() {
                lemma_advanced(ts, p1);
                if let Step::Done(n, Ok(id)) = crate::grammar::expect_pc_identifier_step(ts, p1) {
                    span_decl_params(ts, p, id, p1 + n, seq![]);
                }
            }
        } else if ts[p].kind is Identifier {
            if p1 < ts.len() {
                lemma_advanced(ts, p1);
                crate::grammar::lemma_back_up_pos(ts, p, p1);
            }
            span_bind(ts, p);
        }
    }
}

proof fn program_from_spans(ts: Seq<SpecToken>, start: int, p: int, acc: Seq<SpecStatment>)
    requires
        0 <= start <= p,
        ts.len() <= usize::MAX,
        spans_in(ts, start, p, acc),
    ensures
        program_from(ts, start, p, acc) matches Step::Done(k, Ok(prog)) ==> spans_in(
            ts,
            start,
            start + k,
            prog.statements,
        ),
    decreases rem(ts, p),
{
    reveal_with_fuel(crate::grammar::program_from, 1);
    if p < ts.len() && !(ts[p].kind is Eof) {
        if let Step::Done(n, Ok(st)) = statement(ts, p) {
            if n > 0 {
                span_statement(ts, p);
                recorded_facts(ts, p, p + n);
                let acc2 = acc.push(st);
                assert(acc2[acc2.len() - 1] == st);
                assert forall|i: int| 0 <= i < acc.len() implies #[trigger] acc2[i] == acc[i] by {}
                assert(spans_in(ts, start, p + n, acc2));
                program_from_spans(ts, start, p + n, acc2);
            }
        }
    }
}

/// The statements of a program that parses come in the order of the text,
/// do not overlap, lie within the tokens that were read, and each one's
/// span holds the texts of exactly the tokens it covers.
pub proof fn lemma_statement_spans(ts: Seq<SpecToken>, p: int)
    requires
        0 <= p,
        ts.len() <= usize::MAX,
    ensures
        program(ts, p) matches Step::Done(n, Ok(prog)) ==> spans_in(ts, p, p + n, prog.statements),
{
    program_from_spans(ts, p, p, seq![]);
}

/// In a program read from a source text, each statement's span holds the
/// slice of the source from the statement's first token to the end of its
/// last one.
pub proof fn lemma_statement_text_is_source(c: Seq<char>)
    requires
        c.len() < usize::MAX,
    ensures
        program(lex(c), 0) matches Step::Done(_, Ok(prog)) ==> forall|i: int|
            0 <= i < prog.statements.len() ==> {
                let sp = statement_span(#[trigger] prog.statements[i]);
                sp.input == c.subrange(char_pos(c, sp.start as int), char_pos(c, sp.end as int))
            },
{
    let s = lex(c);
    lemma_lex_from_laid(c, 0);
    assert(s.len() <= usize::MAX) by {
        lemma_lex_len(c, 0);
    }
    program_from_spans(s, 0, 0, seq![]);
    if let Step::Done(n, Ok(prog)) = program(s, 0) {
        assert forall|i: int| 0 <= i < prog.statements.len() implies {
            let sp = statement_span(#[trigger] prog.statements[i]);
            sp.input == c.subrange(char_pos(c, sp.start as int), char_pos(c, sp.end as int))
        } by {
            let sp = statement_span(prog.statements[i]);
            lemma_lex_texts_are_slices(c, sp.start as int, sp.end as int);
        }
    }
}

} // verus!
