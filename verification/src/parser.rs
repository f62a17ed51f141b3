//! The recursive-descent parser.
use vstd::prelude::*;
use vstd::string::*;
use crate::ast::{
    App, BinOp, Bind, Bool, Expr, Identifier, Literal, LiteralKind, Pattern, Program, Span,
    SpecSpan, Statment, Type, TypeAssign, TypeDecl, Variant, arms_view, binds_view,
    duplicate_types, exprs_view, lemma_arms_view_push, lemma_binds_view_push,
    lemma_exprs_view_push, lemma_patterns_view_push, lemma_types_view_push, patterns_view,
    types_view,
};
use crate::error::{Error, ErrorKind};
use crate::grammar::{
    Step, advanced, annotation, app_args, back_up_pos, back_ws, bind, bind_pats, comparison,
    comparison_more, decl_params, decl_variants, exp, exp_more, expect_any_identifier_step,
    expect_current_step, expect_identifier_step, expect_pc_identifier_step, expect_step, expr,
    expr_more, factor, factor_more, ident_at, if_else, if_expr, if_then, lambda_pats,
    lemma_advanced, lemma_back_up_pos, lemma_back_ws, let_binds, literal, literal_kind_of,
    match_arms, match_expr, name_expr, paren_expr, past_kind, pattern, pattern_primary,
    pattern_types, primary, program, program_from, recorded, rem, statement, stmt_identifier,
    string_body, texts, trim_end, tuple_items, type_, type_args, type_arrows, type_decl,
    type_primary, variant, variant_types,
};
use crate::lexer::{lex, lexer};
use crate::token::{SpecToken, Token, TokenKind, tokens_view};

verus! {

/// A string literal's contents: its text without the surrounding quotes.
fn string_contents(text: &String) -> (r: String)
    ensures
        r@ == string_body(text@),
{
    let s = text.as_str();
    let n = s.unicode_len();
    if n >= 2 {
        String::from_str(s.substring_char(1, n - 1))
    } else {
        String::new()
    }
}

/// A parser over the tokens of one source text.
#[derive(Debug, Clone, PartialEq)]
pub struct Parser<'a> {
    pub content: &'a str,
    pub tokens: Vec<Token>,
    pub current_span: Span,
    pub current: usize,
}

/// An outcome of the model and a result of the parser agree: the parser
/// ended `n` tokens after `start` and returned the same node or error.
pub open spec fn agrees<T: View>(s: Step<T::V>, start: int, end: int, r: Result<T, Error>) -> bool {
    match s {
        Step::Crash => false,
        Step::Done(n, res) => {
            &&& end == start + n
            &&& match (res, r) {
                (Ok(a), Ok(b)) => b@ == a,
                (Err(e1), Err(e2)) => e2@ == e1,
                _ => false,
            }
        },
    }
}

impl<'a> Parser<'a> {
    /// A parser at the start of the tokens of `content`.
    pub fn new(content: &'a str) -> (r: Parser<'a>)
        ensures
            r.content == content,
            r.ts() == lex(content@),
            r.current == 0,
            r.current_span@ == (SpecSpan { start: 0, end: 0, input: Seq::empty() }),
    {
        Parser {
            content,
            tokens: lexer(content),
            current_span: Span::new(0, 0, String::new()),
            current: 0,
        }
    }

    /// The tokens' views.
    pub open spec fn ts(&self) -> Seq<SpecToken> {
        tokens_view(self.tokens@)
    }

    /// Everything but the position is as in `other`.
    pub open spec fn same_input(&self, other: &Self) -> bool {
        &&& self.content == other.content
        &&& self.tokens == other.tokens
        &&& self.current_span == other.current_span
    }

    fn start_recording(&mut self) -> (r: usize)
        ensures
            r == old(self).current,
            *final(self) == *old(self),
    {
        self.current
    }

    /// The span from token `start` up to the current position, without the
    /// whitespace tokens just before the current one.
    fn end_recording(&mut self, start: usize) -> (r: Span)
        requires
            recorded(old(self).ts(), start as int, old(self).current as int) is Some,
        ensures
            *final(self) == *old(self),
            r@ == recorded(old(self).ts(), start as int, old(self).current as int)->Some_0,
    {
        let ghost ts = self.ts();
        let mut end = self.current;
        while self.tokens[end - 1].kind.is_whitespace()
            invariant
                ts == self.ts(),
                0 < end <= self.current <= self.tokens.len(),
                trim_end(ts, end as int) == trim_end(ts, self.current as int),
                trim_end(ts, self.current as int) is Some,
            decreases end,
        {
            end -= 1;
        }
        let ghost e = end as int;
        assert(trim_end(ts, e) == Some(e));
        let mut input = String::new();
        let mut i = start;
        while i < end
            invariant
                ts == self.ts(),
                start <= i <= end <= self.tokens.len(),
                input@ == texts(ts, start as int, i as int),
            decreases end - i,
        {
            input.append(self.tokens[i].span.input.as_str());
            i += 1;
        }
        Span::new(start, end, input)
    }

    fn advance(&mut self) -> (r: Option<Token>)
        ensures
            final(self).same_input(old(self)),
            final(self).current == advanced(old(self).ts(), old(self).current as int),
            final(self).current < final(self).tokens.len() ==> r == Some(
                final(self).tokens@[final(self).current as int],
            ),
            final(self).current >= final(self).tokens.len() ==> r is None,
        decreases old(self).tokens.len() - old(self).current,
    {
        if self.is_eof() {
            return None;
        }
        self.current += 1;
        if self.is_eof() {
            return None;
        }
        let token = self.tokens[self.current].duplicate();
        if token.kind.is_whitespace() {
            let r = self.advance();
            return r;
        }
        Some(token)
    }

    fn expect(&mut self, token: TokenKind) -> (r: Result<Option<Token>, Error>)
        requires
            !expect_step(old(self).ts(), old(self).current as int, token).is_crash(),
        ensures
            final(self).same_input(old(self)),
            agrees::<()>(
                expect_step(old(self).ts(), old(self).current as int, token),
                old(self).current as int,
                final(self).current as int,
                match r { Ok(_) => Ok(()), Err(e) => Err(e) },
            ),
    {
        proof {
            if old(self).current < old(self).tokens.len() {
                lemma_advanced(old(self).ts(), old(self).current as int);
            }
        }
        let tok = self.advance();
        if self.peek().kind == token {
            Ok(tok)
        } else {
            let found = self.peek().span;
            let span = self.peek().span;
            Err(Error::new(ErrorKind::UnexpectedToken { expected: token.name(), found }, span))
        }
    }

    fn expect_current(&mut self, token: TokenKind) -> (r: Result<Option<Token>, Error>)
        requires
            !expect_current_step(old(self).ts(), old(self).current as int, token).is_crash(),
        ensures
            final(self).same_input(old(self)),
            agrees::<()>(
                expect_current_step(old(self).ts(), old(self).current as int, token),
                old(self).current as int,
                final(self).current as int,
                match r { Ok(_) => Ok(()), Err(e) => Err(e) },
            ),
    {
        proof {
            lemma_advanced(old(self).ts(), old(self).current as int);
        }
        if self.peek().kind == token {
            Ok(self.advance())
        } else {
            let found = self.peek().span;
            let span = self.peek().span;
            Err(Error::new(ErrorKind::UnexpectedToken { expected: token.name(), found }, span))
        }
    }

    fn match_token(&mut self, token: TokenKind) -> (r: bool)
        requires
            old(self).current < old(self).tokens.len(),
        ensures
            final(self).same_input(old(self)),
            r == (old(self).tokens@[old(self).current as int].kind == token),
            final(self).current == if r {
                advanced(old(self).ts(), old(self).current as int)
            } else {
                old(self).current as int
            },
    {
        if self.peek().kind == token {
            self.advance();
            true
        } else {
            false
        }
    }

    fn peek(&self) -> (r: Token)
        requires
            self.current < self.tokens.len(),
        ensures
            r == self.tokens@[self.current as int],
    {
        self.tokens[self.current].duplicate()
    }

    /// The token after the current one.
    #[allow(dead_code)]
    fn future(&self) -> (r: Token)
        requires
            self.current + 1 < self.tokens.len(),
        ensures
            r == self.tokens@[self.current + 1],
    {
        self.tokens[self.current + 1].duplicate()
    }

    /// The nearest token before the current one that is not whitespace.
    fn past(&self) -> (r: Token)
        requires
            back_ws(self.ts(), self.current - 1) is Some,
        ensures
            r == self.tokens@[back_ws(self.ts(), self.current - 1)->Some_0],
    {
        let ghost ts = self.ts();
        let mut n: usize = 1;
        while self.tokens[self.current - n].kind.is_whitespace()
            invariant
                ts == self.ts(),
                1 <= n <= self.current,
                back_ws(ts, self.current - n) == back_ws(ts, self.current - 1),
                back_ws(ts, self.current - 1) is Some,
            decreases self.current - n,
        {
            assert(back_ws(ts, self.current - n) == back_ws(ts, self.current - n - 1));
            n += 1;
        }
        self.tokens[self.current - n].duplicate()
    }

    fn expect_identifier(&mut self) -> (r: Result<Identifier, Error>)
        requires
            !expect_identifier_step(old(self).ts(), old(self).current as int).is_crash(),
        ensures
            final(self).same_input(old(self)),
            agrees(
                expect_identifier_step(old(self).ts(), old(self).current as int),
                old(self).current as int,
                final(self).current as int,
                r,
            ),
    {
        proof {
            lemma_advanced(old(self).ts(), old(self).current as int);
        }
        let peek = self.peek();
        match peek.kind {
            TokenKind::Identifier => {
                let index = self.start_recording();
                self.advance();
                let span = self.end_recording(index);
                Ok(Identifier::new(peek.span.input, span))
            },
            _ => {
                let found = peek.span.duplicate();
                Err(
                    Error::new(
                        ErrorKind::UnexpectedToken {
                            expected: String::from_str("identifier"),
                            found,
                        },
                        peek.span,
                    ),
                )
            },
        }
    }

    fn expect_pc_identifier(&mut self) -> (r: Result<Identifier, Error>)
        requires
            !expect_pc_identifier_step(old(self).ts(), old(self).current as int).is_crash(),
        ensures
            final(self).same_input(old(self)),
            agrees(
                expect_pc_identifier_step(old(self).ts(), old(self).current as int),
                old(self).current as int,
                final(self).current as int,
                r,
            ),
    {
        proof {
            lemma_advanced(old(self).ts(), old(self).current as int);
        }
        let peek = self.peek();
        match peek.kind {
            TokenKind::PCIdentifier => {
                let index = self.start_recording();
                self.advance();
                let span = self.end_recording(index);
                Ok(Identifier::new(peek.span.input, span))
            },
            _ => {
                let found = peek.span.duplicate();
                Err(
                    Error::new(
                        ErrorKind::UnexpectedToken {
                            expected: String::from_str("pascal case identifier"),
                            found,
                        },
                        peek.span,
                    ),
                )
            },
        }
    }

    fn expect_any_identifier(&mut self) -> (r: Result<Identifier, Error>)
        requires
            !expect_any_identifier_step(old(self).ts(), old(self).current as int).is_crash(),
        ensures
            final(self).same_input(old(self)),
            agrees(
                expect_any_identifier_step(old(self).ts(), old(self).current as int),
                old(self).current as int,
                final(self).current as int,
                r,
            ),
    {
        proof {
            lemma_advanced(old(self).ts(), old(self).current as int);
        }
        let index = self.start_recording();
        let peek = self.peek();
        match peek.kind {
            TokenKind::Identifier => {
                self.advance();
                let span = self.end_recording(index);
                Ok(Identifier::new(peek.span.input, span))
            },
            TokenKind::PCIdentifier => {
                self.advance();
                let span = self.end_recording(index);
                Ok(Identifier::new(peek.span.input, span))
            },
            _ => {
                let found = peek.span.duplicate();
                Err(
                    Error::new(
                        ErrorKind::UnexpectedToken {
                            expected: String::from_str("identifier"),
                            found,
                        },
                        peek.span,
                    ),
                )
            },
        }
    }

    /// Whether the current token is an arithmetic operator.
    #[allow(dead_code)]
    fn is_operator(&self) -> (r: bool)
        requires
            self.current < self.tokens.len(),
        ensures
            r == (self.tokens@[self.current as int].kind is Add
                || self.tokens@[self.current as int].kind is Sub
                || self.tokens@[self.current as int].kind is Mul
                || self.tokens@[self.current as int].kind is Div
                || self.tokens@[self.current as int].kind is Exp
                || self.tokens@[self.current as int].kind is Mod),
    {
        match self.peek().kind {
            TokenKind::Add | TokenKind::Sub | TokenKind::Mul | TokenKind::Div | TokenKind::Exp
            | TokenKind::Mod => true,
            _ => false,
        }
    }

    /// Steps back to the nearest earlier token that is not whitespace.
    fn back_up(&mut self) -> (r: Option<Token>)
        requires
            back_up_pos(old(self).ts(), old(self).current as int) is Some,
        ensures
            final(self).same_input(old(self)),
            final(self).current == back_up_pos(old(self).ts(), old(self).current as int)->Some_0,
            final(self).current < final(self).tokens.len() ==> r == Some(
                final(self).tokens@[final(self).current as int],
            ),
            final(self).current >= final(self).tokens.len() ==> r is None,
        decreases old(self).current,
    {
        self.current -= 1;
        if self.is_eof() {
            return None;
        }
        let token = self.tokens[self.current].duplicate();
        if token.kind.is_whitespace() {
            let r = self.back_up();
            return r;
        }
        Some(token)
    }

    #[verifier::spinoff_prover]
    #[verifier::rlimit(30)]
    fn parse_type(&mut self) -> (r: Result<Type, Error>)
        requires
            !type_(old(self).ts(), old(self).current as int).is_crash(),
        ensures
            final(self).same_input(old(self)),
            agrees(type_(old(self).ts(), old(self).current as int), old(self).current as int,
                final(self).current as int, r),
        decreases rem(old(self).ts(), old(self).current as int), 2nat,
    {
        proof {
            reveal_with_fuel(crate::grammar::type_, 1);
            reveal_with_fuel(crate::grammar::type_primary, 1);
            reveal_with_fuel(crate::grammar::type_arrows, 1);
        }
        let ghost ts = self.ts();
        let ghost model = type_(ts, self.current as int);
        let index = self.start_recording();
        let mut lhs = self.parse_type_primary()?;
        let mut rhs: Vec<Type> = Vec::new();
        loop
            invariant
                self.same_input(old(self)),
                ts == self.ts(),
                index == old(self).current,
                index < ts.len(),
                index <= self.current,
                model == type_(old(self).ts(), old(self).current as int),
                ts == old(self).ts(),
                model == type_arrows(ts, index as int, self.current as int, lhs@, types_view(rhs@)),
                !model.is_crash(),
            decreases rem(ts, self.current as int),
        {
            proof {
                reveal_with_fuel(crate::grammar::type_, 1);
                reveal_with_fuel(crate::grammar::type_primary, 1);
                reveal_with_fuel(crate::grammar::type_arrows, 1);
            }
            proof {
                lemma_advanced(ts, self.current as int);
            }
            if !self.match_token(TokenKind::Arrow) {
                return Ok(lhs);
            }
            let t = self.parse_type_primary()?;
            let ghost before = rhs@;
            rhs.push(t);
            proof {
                assert(rhs@.drop_last() == before);
            }
            let sp = self.end_recording(index);
            let copied = duplicate_types(&rhs);
            lhs = Type::Func(Box::new(lhs), copied, sp);
        }
    }

    #[verifier::spinoff_prover]
    #[verifier::rlimit(30)]
    fn parse_type_primary(&mut self) -> (r: Result<Type, Error>)
        requires
            !type_primary(old(self).ts(), old(self).current as int).is_crash(),
        ensures
            final(self).same_input(old(self)),
            agrees(type_primary(old(self).ts(), old(self).current as int), old(self).current as int,
                final(self).current as int, r),
        decreases rem(old(self).ts(), old(self).current as int), 0nat,
    {
        proof {
            reveal_with_fuel(crate::grammar::type_primary, 1);
            reveal_with_fuel(crate::grammar::type_, 1);
            reveal_with_fuel(crate::grammar::type_args, 1);
            reveal_with_fuel(crate::grammar::tuple_items, 1);
        }
        let ghost ts = self.ts();
        let ghost model = type_primary(ts, self.current as int);
        proof {
            lemma_advanced(ts, self.current as int);
        }
        let index = self.start_recording();
        let n = self.peek().kind;
        if n.is_identifier() {
            let id = self.expect_any_identifier()?;
            let saved = self.current;
            match self.parse_type() {
                Ok(first) => {
                    let mut types: Vec<Type> = Vec::new();
                    proof {
                        lemma_types_view_push(types@, first);
                    }
                    types.push(first);
                    loop
                        invariant
                            self.same_input(old(self)),
                            ts == self.ts(),
                            ts == old(self).ts(),
                            index == old(self).current,
                            index < self.current,
                            model == type_primary(old(self).ts(), old(self).current as int),
                            model == type_args(ts, index as int, id@, self.current as int,
                                types_view(types@)),
                            !model.is_crash(),
                        decreases rem(ts, self.current as int),
                    {
                        proof {
                            reveal_with_fuel(crate::grammar::type_primary, 1);
                            reveal_with_fuel(crate::grammar::type_, 1);
                            reveal_with_fuel(crate::grammar::type_args, 1);
                            reveal_with_fuel(crate::grammar::tuple_items, 1);
                        }
                        match self.parse_type() {
                            Ok(t) => {
                                proof {
                                    lemma_types_view_push(types@, t);
                                }
                                types.push(t);
                            },
                            Err(_) => {
                                let sp = self.end_recording(index);
                                return Ok(Type::App(id, types, sp));
                            },
                        }
                    }
                },
                Err(_) => {
                    self.current = saved;
                    if n == TokenKind::Identifier {
                        Ok(Type::Generic(id))
                    } else {
                        Ok(Type::Id(id))
                    }
                },
            }
        } else if n == TokenKind::LBracket {
            self.advance();
            let ty = self.parse_type()?;
            self.expect(TokenKind::RBracket)?;
            Ok(ty)
        } else if n == TokenKind::LParen {
            self.advance();
            let mut tys: Vec<Type> = Vec::new();
            loop
                invariant
                    self.same_input(old(self)),
                    ts == self.ts(),
                    index == old(self).current,
                    index < self.current,
                    model == type_primary(old(self).ts(), old(self).current as int),
                    ts == old(self).ts(),
                    model == tuple_items(ts, index as int, self.current as int, types_view(tys@)),
                    !model.is_crash(),
                decreases rem(ts, self.current as int),
            {
                proof {
                    reveal_with_fuel(crate::grammar::type_primary, 1);
                    reveal_with_fuel(crate::grammar::type_, 1);
                    reveal_with_fuel(crate::grammar::type_args, 1);
                    reveal_with_fuel(crate::grammar::tuple_items, 1);
                }
                proof {
                    lemma_advanced(ts, self.current as int);
                }
                if self.match_token(TokenKind::RParen) {
                    let sp = self.end_recording(index);
                    return Ok(Type::Tuple(tys, sp));
                }
                let ty = self.parse_type()?;
                let ghost before = tys@;
                tys.push(ty);
                proof {
                    assert(tys@.drop_last() == before);
                }
                self.expect(TokenKind::Comma)?;
            }
        } else {
            let found = self.peek().span;
            let span = self.peek().span;
            Err(Error::new(ErrorKind::UnexpectedToken { expected: String::from_str("type"), found }, span))
        }
    }

    #[verifier::spinoff_prover]
    #[verifier::rlimit(30)]
    fn parse_literal(&mut self) -> (r: Result<Literal, Error>)
        requires
            !literal(old(self).ts(), old(self).current as int).is_crash(),
        ensures
            final(self).same_input(old(self)),
            agrees(literal(old(self).ts(), old(self).current as int), old(self).current as int,
                final(self).current as int, r),
    {
        proof {
            lemma_advanced(old(self).ts(), old(self).current as int);
        }
        let index = self.start_recording();
        let tok = self.peek();
        match tok.kind {
            TokenKind::Integer(i) => {
                self.advance();
                Ok(Literal::new(LiteralKind::Integer(i), self.end_recording(index)))
            },
            TokenKind::Float => {
                self.advance();
                Ok(Literal::new(LiteralKind::Float(tok.span.input), self.end_recording(index)))
            },
            TokenKind::String => {
                self.advance();
                let body = string_contents(&tok.span.input);
                Ok(Literal::new(LiteralKind::String(body), self.end_recording(index)))
            },
            TokenKind::True => {
                self.advance();
                Ok(Literal::new(LiteralKind::Bool(Bool::True), self.end_recording(index)))
            },
            TokenKind::False => {
                self.advance();
                Ok(Literal::new(LiteralKind::Bool(Bool::False), self.end_recording(index)))
            },
            _ => {
                let found = tok.span.duplicate();
                Err(
                    Error::new(
                        ErrorKind::UnexpectedToken { expected: String::from_str("literal"), found },
                        tok.span,
                    ),
                )
            },
        }
    }

    #[verifier::spinoff_prover]
    #[verifier::rlimit(30)]
    fn parse_pattern(&mut self) -> (r: Result<Pattern, Error>)
        requires
            !pattern(old(self).ts(), old(self).current as int).is_crash(),
        ensures
            final(self).same_input(old(self)),
            agrees(pattern(old(self).ts(), old(self).current as int), old(self).current as int,
                final(self).current as int, r),
        decreases rem(old(self).ts(), old(self).current as int),
    {
        proof {
            reveal_with_fuel(crate::grammar::pattern, 1);
        }
        let ghost ts = self.ts();
        let index = self.start_recording();
        let pat = self.parse_pattern_primary()?;
        let ghost q = self.current as int;
        proof {
            lemma_advanced(ts, q);
        }
        if self.match_token(TokenKind::Colon) {
            let pat2 = self.parse_pattern()?;
            let sp = self.end_recording(index);
            Ok(Pattern::ListCons(Box::new(pat), Box::new(pat2), sp))
        } else {
            Ok(pat)
        }
    }

    #[verifier::spinoff_prover]
    #[verifier::rlimit(30)]
    fn parse_pattern_primary(&mut self) -> (r: Result<Pattern, Error>)
        requires
            !pattern_primary(old(self).ts(), old(self).current as int).is_crash(),
        ensures
            final(self).same_input(old(self)),
            agrees(pattern_primary(old(self).ts(), old(self).current as int), old(self).current as int,
                final(self).current as int, r),
    {
        proof {
            reveal_with_fuel(crate::grammar::type_, 1);
            reveal_with_fuel(crate::grammar::pattern_types, 1);
        }
        let ghost ts = self.ts();
        let ghost model = pattern_primary(ts, self.current as int);
        proof {
            lemma_advanced(ts, self.current as int);
        }
        let index = self.start_recording();
        let n = self.peek().kind;
        if n.is_literal() {
            let lit = self.parse_literal()?;
            Ok(Pattern::Literal(lit))
        } else if n.is_identifier() {
            let id = self.expect_any_identifier()?;
            let saved = self.current;
            match self.parse_type() {
                Ok(first) => {
                    let mut types: Vec<Type> = Vec::new();
                    let copy = first.duplicate();
                    proof {
                        lemma_types_view_push(types@, copy);
                    }
                    types.push(copy);
                    proof {
                        lemma_types_view_push(types@, first);
                    }
                    types.push(first);
                    proof {
                        let p = old(self).current as int;
                        assert(literal_kind_of(ts[p]) is None);
                        assert(ident_at(ts, p, saved as int) == Some(id@));
                        assert(types_view(types@) =~= seq![first@, first@]);
                    }
                    loop
                        invariant
                            self.same_input(old(self)),
                            ts == self.ts(),
                            ts == old(self).ts(),
                            model == pattern_primary(old(self).ts(), old(self).current as int),
                            index == old(self).current,
                            index < self.current,
                            model == pattern_types(ts, index as int, id@, self.current as int,
                                types_view(types@)),
                            !model.is_crash(),
                        decreases rem(ts, self.current as int),
                    {
                        proof {
                            reveal_with_fuel(crate::grammar::type_, 1);
                            reveal_with_fuel(crate::grammar::pattern_types, 1);
                        }
                        match self.parse_type() {
                            Ok(t) => {
                                proof {
                                    lemma_types_view_push(types@, t);
                                }
                                types.push(t);
                            },
                            Err(_) => {
                                let sp = self.end_recording(index);
                                return Ok(Pattern::App(id, types, sp));
                            },
                        }
                    }
                },
                Err(_) => {
                    self.current = saved;
                    if n == TokenKind::Identifier {
                        Ok(Pattern::Variable(id))
                    } else {
                        Ok(Pattern::Id(id))
                    }
                },
            }
        } else if n == TokenKind::Underscore {
            self.advance();
            Ok(Pattern::Wildcard(self.end_recording(index)))
        } else {
            let found = self.peek().span;
            let span = self.peek().span;
            Err(Error::new(ErrorKind::UnexpectedToken { expected: String::from_str("pattern"), found }, span))
        }
    }

    #[verifier::spinoff_prover]
    #[verifier::rlimit(30)]
    fn parse_expr(&mut self) -> (r: Result<Expr, Error>)
        requires
            !expr(old(self).ts(), old(self).current as int).is_crash(),
        ensures
            final(self).same_input(old(self)),
            agrees(expr(old(self).ts(), old(self).current as int), old(self).current as int,
                final(self).current as int, r),
        decreases rem(old(self).ts(), old(self).current as int), 9nat,
    {
        proof {
            reveal_with_fuel(crate::grammar::expr, 1);
            reveal_with_fuel(crate::grammar::factor, 1);
            reveal_with_fuel(crate::grammar::expr_more, 1);
        }
        let index = self.start_recording();
        let lhs = self.parse_factor()?;
        self.parse_expr_more(index, lhs)
    }

    /// The operators after the first operand of a `expr` that started at `index`.
    #[verifier::spinoff_prover]
    #[verifier::rlimit(30)]
    fn parse_expr_more(&mut self, index: usize, lhs: Expr) -> (r: Result<Expr, Error>)
        requires
            index <= old(self).current,
            !expr_more(old(self).ts(), index as int, old(self).current as int, lhs@).is_crash(),
        ensures
            final(self).same_input(old(self)),
            agrees(expr_more(old(self).ts(), index as int, old(self).current as int, lhs@), index as int,
                final(self).current as int, r),
        decreases rem(old(self).ts(), old(self).current as int), 8nat,
    {
        proof {
            reveal_with_fuel(crate::grammar::expr_more, 1);
            reveal_with_fuel(crate::grammar::factor, 1);
            lemma_advanced(old(self).ts(), old(self).current as int);
        }
        if !(self.match_token(TokenKind::Add) || self.match_token(TokenKind::Sub)) {
            return Ok(lhs);
        }
        let ghost q1 = self.current as int;
        proof {
            lemma_back_ws(old(self).ts(), q1 - 1);
        }
        let k = self.past().kind;
        assert(past_kind(old(self).ts(), q1) == Some(k));
        let op = if k == TokenKind::Add {
            BinOp::Add
        } else {
            BinOp::Sub
        };
        let rhs = self.parse_factor()?;
        let sp = self.end_recording(index);
        self.parse_expr_more(index, Expr::BinOp(op, Box::new(lhs), Box::new(rhs), sp))
    }

    #[verifier::spinoff_prover]
    #[verifier::rlimit(30)]
    fn parse_factor(&mut self) -> (r: Result<Expr, Error>)
        requires
            !factor(old(self).ts(), old(self).current as int).is_crash(),
        ensures
            final(self).same_input(old(self)),
            agrees(factor(old(self).ts(), old(self).current as int), old(self).current as int,
                final(self).current as int, r),
        decreases rem(old(self).ts(), old(self).current as int), 7nat,
    {
        proof {
            reveal_with_fuel(crate::grammar::factor, 1);
            reveal_with_fuel(crate::grammar::comparison, 1);
            reveal_with_fuel(crate::grammar::factor_more, 1);
        }
        let index = self.start_recording();
        let lhs = self.parse_comparison()?;
        self.parse_factor_more(index, lhs)
    }

    /// The operators after the first operand of a `factor` that started at `index`.
    #[verifier::spinoff_prover]
    #[verifier::rlimit(30)]
    fn parse_factor_more(&mut self, index: usize, lhs: Expr) -> (r: Result<Expr, Error>)
        requires
            index <= old(self).current,
            !factor_more(old(self).ts(), index as int, old(self).current as int, lhs@).is_crash(),
        ensures
            final(self).same_input(old(self)),
            agrees(factor_more(old(self).ts(), index as int, old(self).current as int, lhs@), index as int,
                final(self).current as int, r),
        decreases rem(old(self).ts(), old(self).current as int), 6nat,
    {
        proof {
            reveal_with_fuel(crate::grammar::factor_more, 1);
            reveal_with_fuel(crate::grammar::comparison, 1);
            lemma_advanced(old(self).ts(), old(self).current as int);
        }
        if !(self.match_token(TokenKind::Mul) || self.match_token(TokenKind::Div) || self.match_token(TokenKind::Mod)) {
            return Ok(lhs);
        }
        let ghost q1 = self.current as int;
        proof {
            lemma_back_ws(old(self).ts(), q1 - 1);
        }
        let k = self.past().kind;
        assert(past_kind(old(self).ts(), q1) == Some(k));
        let op = if k == TokenKind::Mul {
            BinOp::Mul
        } else if k == TokenKind::Div {
            BinOp::Div
        } else {
            BinOp::Mod
        };
        let rhs = self.parse_comparison()?;
        let sp = self.end_recording(index);
        self.parse_factor_more(index, Expr::BinOp(op, Box::new(lhs), Box::new(rhs), sp))
    }

    #[verifier::spinoff_prover]
    #[verifier::rlimit(30)]
    fn parse_comparison(&mut self) -> (r: Result<Expr, Error>)
        requires
            !comparison(old(self).ts(), old(self).current as int).is_crash(),
        ensures
            final(self).same_input(old(self)),
            agrees(comparison(old(self).ts(), old(self).current as int), old(self).current as int,
                final(self).current as int, r),
        decreases rem(old(self).ts(), old(self).current as int), 5nat,
    {
        proof {
            reveal_with_fuel(crate::grammar::comparison, 1);
            reveal_with_fuel(crate::grammar::exp, 1);
            reveal_with_fuel(crate::grammar::comparison_more, 1);
        }
        let index = self.start_recording();
        let lhs = self.parse_exp()?;
        self.parse_comparison_more(index, lhs)
    }

    /// The operators after the first operand of a `comparison` that started at `index`.
    #[verifier::spinoff_prover]
    #[verifier::rlimit(30)]
    fn parse_comparison_more(&mut self, index: usize, lhs: Expr) -> (r: Result<Expr, Error>)
        requires
            index <= old(self).current,
            !comparison_more(old(self).ts(), index as int, old(self).current as int, lhs@).is_crash(),
        ensures
            final(self).same_input(old(self)),
            agrees(comparison_more(old(self).ts(), index as int, old(self).current as int, lhs@), index as int,
                final(self).current as int, r),
        decreases rem(old(self).ts(), old(self).current as int), 4nat,
    {
        proof {
            reveal_with_fuel(crate::grammar::comparison_more, 1);
            reveal_with_fuel(crate::grammar::exp, 1);
            lemma_advanced(old(self).ts(), old(self).current as int);
        }
        if !(self.match_token(TokenKind::Eq) || self.match_token(TokenKind::Neq)) {
            return Ok(lhs);
        }
        let ghost q1 = self.current as int;
        proof {
            lemma_back_ws(old(self).ts(), q1 - 1);
        }
        let k = self.past().kind;
        assert(past_kind(old(self).ts(), q1) == Some(k));
        let op = if k == TokenKind::Eq {
            BinOp::Eq
        } else {
            BinOp::Ineq
        };
        let rhs = self.parse_exp()?;
        let sp = self.end_recording(index);
        self.parse_comparison_more(index, Expr::BinOp(op, Box::new(lhs), Box::new(rhs), sp))
    }

    #[verifier::spinoff_prover]
    #[verifier::rlimit(30)]
    fn parse_exp(&mut self) -> (r: Result<Expr, Error>)
        requires
            !exp(old(self).ts(), old(self).current as int).is_crash(),
        ensures
            final(self).same_input(old(self)),
            agrees(exp(old(self).ts(), old(self).current as int), old(self).current as int,
                final(self).current as int, r),
        decreases rem(old(self).ts(), old(self).current as int), 3nat,
    {
        proof {
            reveal_with_fuel(crate::grammar::exp, 1);
            reveal_with_fuel(crate::grammar::annotation, 1);
            reveal_with_fuel(crate::grammar::exp_more, 1);
        }
        let index = self.start_recording();
        let lhs = self.parse_annotation()?;
        self.parse_exp_more(index, lhs)
    }

    /// The operators after the first operand of a `exp` that started at `index`.
    #[verifier::spinoff_prover]
    #[verifier::rlimit(30)]
    fn parse_exp_more(&mut self, index: usize, lhs: Expr) -> (r: Result<Expr, Error>)
        requires
            index <= old(self).current,
            !exp_more(old(self).ts(), index as int, old(self).current as int, lhs@).is_crash(),
        ensures
            final(self).same_input(old(self)),
            agrees(exp_more(old(self).ts(), index as int, old(self).current as int, lhs@), index as int,
                final(self).current as int, r),
        decreases rem(old(self).ts(), old(self).current as int), 2nat,
    {
        proof {
            reveal_with_fuel(crate::grammar::exp_more, 1);
            reveal_with_fuel(crate::grammar::annotation, 1);
            lemma_advanced(old(self).ts(), old(self).current as int);
        }
        if !(self.match_token(TokenKind::Exp)) {
            return Ok(lhs);
        }
        let op = BinOp::Exp;
        let rhs = self.parse_annotation()?;
        let sp = self.end_recording(index);
        self.parse_exp_more(index, Expr::BinOp(op, Box::new(lhs), Box::new(rhs), sp))
    }

    #[verifier::spinoff_prover]
    #[verifier::rlimit(30)]
    fn parse_annotation(&mut self) -> (r: Result<Expr, Error>)
        requires
            !annotation(old(self).ts(), old(self).current as int).is_crash(),
        ensures
            final(self).same_input(old(self)),
            agrees(annotation(old(self).ts(), old(self).current as int), old(self).current as int,
                final(self).current as int, r),
        decreases rem(old(self).ts(), old(self).current as int), 1nat,
    {
        proof {
            reveal_with_fuel(crate::grammar::type_, 1);
            reveal_with_fuel(crate::grammar::annotation, 1);
            reveal_with_fuel(crate::grammar::primary, 1);
        }
        let ghost ts = self.ts();
        let index = self.start_recording();
        let mut lhs = self.parse_primary()?;
        proof {
            lemma_advanced(ts, self.current as int);
        }
        if self.match_token(TokenKind::DoubleCollon) {
            let ty = self.parse_type()?;
            let sp = self.end_recording(index);
            lhs = Expr::Ann(Box::new(lhs), ty, sp);
        }
        Ok(lhs)
    }

    #[verifier::spinoff_prover]
    #[verifier::rlimit(30)]
    fn parse_primary(&mut self) -> (r: Result<Expr, Error>)
        requires
            !primary(old(self).ts(), old(self).current as int).is_crash(),
        ensures
            final(self).same_input(old(self)),
            agrees(primary(old(self).ts(), old(self).current as int), old(self).current as int,
                final(self).current as int, r),
        decreases rem(old(self).ts(), old(self).current as int), 0nat,
    {
        proof {
            reveal_with_fuel(crate::grammar::primary, 1);
            reveal_with_fuel(crate::grammar::name_expr, 1);
            reveal_with_fuel(crate::grammar::paren_expr, 1);
            reveal_with_fuel(crate::grammar::let_binds, 1);
            reveal_with_fuel(crate::grammar::if_expr, 1);
            reveal_with_fuel(crate::grammar::match_expr, 1);
            reveal_with_fuel(crate::grammar::lambda_pats, 1);
        }
        let ghost ts = self.ts();
        proof {
            lemma_advanced(ts, self.current as int);
        }
        let index = self.start_recording();
        let tok = self.peek();
        match tok.kind {
            TokenKind::Integer(i) => {
                self.advance();
                Ok(Expr::Literal(Literal::new(LiteralKind::Integer(i), self.end_recording(index))))
            },
            TokenKind::Float => {
                self.advance();
                Ok(Expr::Literal(Literal::new(LiteralKind::Float(tok.span.input), self.end_recording(index))))
            },
            TokenKind::String => {
                self.advance();
                let body = string_contents(&tok.span.input);
                Ok(Expr::Literal(Literal::new(LiteralKind::String(body), self.end_recording(index))))
            },
            TokenKind::Identifier | TokenKind::PCIdentifier => {
                self.advance();
                self.parse_name_expr(index)
            },
            TokenKind::LParen => {
                self.advance();
                self.parse_paren(index)
            },
            TokenKind::Let => {
                self.advance();
                let binds: Vec<Bind> = Vec::new();
                proof {
                    assert(binds_view(binds@) =~= Seq::empty()) by {
                        lemma_binds_view_push(binds@, arbitrary());
                    }
                }
                self.parse_let_binds(index, binds)
            },
            TokenKind::If => {
                self.advance().unwrap();
                self.parse_if(index)
            },
            TokenKind::Match => {
                self.advance();
                self.parse_match(index)
            },
            TokenKind::DoubleSlash => {
                self.advance();
                let pats: Vec<Pattern> = Vec::new();
                proof {
                    assert(patterns_view(pats@) =~= Seq::empty()) by {
                        lemma_patterns_view_push(pats@, arbitrary());
                    }
                }
                self.parse_lambda_pats(index, pats)
            },
            _ => {
                let found = tok.span.duplicate();
                Err(
                    Error::new(
                        ErrorKind::UnexpectedToken {
                            expected: String::from_str("primary expression"),
                            found,
                        },
                        tok.span,
                    ),
                )
            },
        }
    }

    /// Further arguments of a name applied at `index`, collected in `exprs`.
    #[verifier::spinoff_prover]
    #[verifier::rlimit(30)]
    fn parse_app_args(&mut self, index: usize, id: Identifier, exprs: Vec<Expr>) -> (r: Result<Expr, Error>)
        requires
            index < old(self).current,
            !app_args(old(self).ts(), index as int, id@, old(self).current as int, exprs_view(exprs@)).is_crash(),
        ensures
            final(self).same_input(old(self)),
            agrees(app_args(old(self).ts(), index as int, id@, old(self).current as int, exprs_view(exprs@)),
                index as int, final(self).current as int, r),
        decreases rem(old(self).ts(), old(self).current as int), 10nat,
    {
        proof {
            reveal_with_fuel(crate::grammar::app_args, 1);
            reveal_with_fuel(crate::grammar::expr, 1);
        }
        let mut exprs = exprs;
        match self.parse_expr() {
            Ok(e) => {
                proof {
                    lemma_exprs_view_push(exprs@, e);
                }
                exprs.push(e);
                self.parse_app_args(index, id, exprs)
            },
            Err(_) => {
                let sp = self.end_recording(index);
                let app = App::new(id, exprs, sp);
                assert(app@ == app.view_rec());
                Ok(Expr::App(app))
            },
        }
    }

    /// The bindings of a `let` that started at `index`, collected in `binds`.
    #[verifier::spinoff_prover]
    #[verifier::rlimit(30)]
    fn parse_let_binds(&mut self, index: usize, binds: Vec<Bind>) -> (r: Result<Expr, Error>)
        requires
            index < old(self).current,
            !let_binds(old(self).ts(), index as int, old(self).current as int, binds_view(binds@)).is_crash(),
        ensures
            final(self).same_input(old(self)),
            agrees(let_binds(old(self).ts(), index as int, old(self).current as int, binds_view(binds@)),
                index as int, final(self).current as int, r),
        decreases rem(old(self).ts(), old(self).current as int), 12nat,
    {
        proof {
            reveal_with_fuel(crate::grammar::let_binds, 1);
            reveal_with_fuel(crate::grammar::expr, 1);
            reveal_with_fuel(crate::grammar::bind, 1);
        }
        let ghost ts = self.ts();
        let mut binds = binds;
        proof {
            lemma_advanced(ts, self.current as int);
        }
        if self.match_token(TokenKind::In) {
            let expr = self.parse_expr()?;
            let sp = self.end_recording(index);
            return Ok(Expr::Let(binds, Box::new(expr), sp));
        }
        let b = self.parse_bind()?;
        proof {
            if self.current < ts.len() {
                lemma_advanced(ts, self.current as int);
            }
        }
        self.expect(TokenKind::Semicolon)?;
        proof {
            lemma_binds_view_push(binds@, b);
        }
        binds.push(b);
        self.parse_let_binds(index, binds)
    }

    /// A name at `index`, just moved past: applied to the expressions that
    /// follow it, or alone where no expression follows.
    #[verifier::spinoff_prover]
    #[verifier::rlimit(30)]
    fn parse_name_expr(&mut self, index: usize) -> (r: Result<Expr, Error>)
        requires
            index < old(self).current,
            !name_expr(old(self).ts(), index as int, old(self).current as int).is_crash(),
        ensures
            final(self).same_input(old(self)),
            agrees(name_expr(old(self).ts(), index as int, old(self).current as int), index as int,
                final(self).current as int, r),
        decreases rem(old(self).ts(), old(self).current as int), 14nat,
    {
        proof {
            reveal_with_fuel(crate::grammar::name_expr, 1);
            reveal_with_fuel(crate::grammar::expr, 1);
            reveal_with_fuel(crate::grammar::app_args, 1);
        }
        let ghost ts = self.ts();
        let ghost q = self.current as int;
        let n = self.tokens[index].kind;
        let sp = self.end_recording(index);
        let id = Identifier::new(self.tokens[index].span.input.clone(), sp);
        assert(ident_at(ts, index as int, q) == Some(id@));
        let saved = self.current;
        let expr = self.parse_expr();
        match expr {
            Ok(e) => {
                assert(name_expr(ts, index as int, q) == app_args(ts, index as int, id@,
                    self.current as int, seq![e@, e@]));
                let mut exprs: Vec<Expr> = Vec::new();
                let d = e.duplicate();
                proof {
                    lemma_exprs_view_push(exprs@, d);
                }
                exprs.push(d);
                proof {
                    lemma_exprs_view_push(exprs@, e);
                }
                exprs.push(e);
                proof {
                    assert(exprs_view(exprs@) =~= seq![e@, e@]);
                }
                self.parse_app_args(index, id, exprs)
            },
            Err(_) => {
                assert(name_expr(ts, index as int, q) == crate::grammar::done_at::<crate::ast::SpecExpr>(
                    index as int, q, Ok(if ts[index as int].kind is Identifier {
                        crate::ast::SpecExpr::Identifier(id@)
                    } else {
                        crate::ast::SpecExpr::Id(id@)
                    })));
                self.current = saved;
                if n == TokenKind::Identifier {
                    Ok(Expr::Identifier(id))
                } else {
                    Ok(Expr::Id(id))
                }
            },
        }
    }

    /// `( expr )` from just after `(` at `index`.
    #[verifier::spinoff_prover]
    #[verifier::rlimit(30)]
    fn parse_paren(&mut self, index: usize) -> (r: Result<Expr, Error>)
        requires
            index < old(self).current,
            !paren_expr(old(self).ts(), index as int, old(self).current as int).is_crash(),
        ensures
            final(self).same_input(old(self)),
            agrees(paren_expr(old(self).ts(), index as int, old(self).current as int), index as int,
                final(self).current as int, r),
        decreases rem(old(self).ts(), old(self).current as int), 14nat,
    {
        proof {
            reveal_with_fuel(crate::grammar::paren_expr, 1);
            reveal_with_fuel(crate::grammar::expr, 1);
        }
        let expr = self.parse_expr()?;
        self.expect_current(TokenKind::RParen)?;
        Ok(expr)
    }

    /// `match expr in arms` from just after `match` at `index`.
    #[verifier::spinoff_prover]
    #[verifier::rlimit(30)]
    fn parse_match(&mut self, index: usize) -> (r: Result<Expr, Error>)
        requires
            index < old(self).current,
            !match_expr(old(self).ts(), index as int, old(self).current as int).is_crash(),
        ensures
            final(self).same_input(old(self)),
            agrees(match_expr(old(self).ts(), index as int, old(self).current as int), index as int,
                final(self).current as int, r),
        decreases rem(old(self).ts(), old(self).current as int), 14nat,
    {
        proof {
            reveal_with_fuel(crate::grammar::match_expr, 1);
            reveal_with_fuel(crate::grammar::expr, 1);
            reveal_with_fuel(crate::grammar::match_arms, 1);
        }
        let ghost ts = self.ts();
        let expr = self.parse_expr()?;
        proof {
            if self.current < ts.len() {
                lemma_advanced(ts, self.current as int);
            }
        }
        self.expect(TokenKind::In)?;
        let arms: Vec<(Box<Pattern>, Box<Expr>)> = Vec::new();
        proof {
            assert(arms_view(arms@) =~= Seq::empty()) by {
                lemma_arms_view_push(arms@, arbitrary());
            }
        }
        self.parse_match_arms(index, expr, arms)
    }

    /// `cond then e1 else e2` of an `if` that started at `index`.
    #[verifier::spinoff_prover]
    #[verifier::rlimit(30)]
    fn parse_if(&mut self, index: usize) -> (r: Result<Expr, Error>)
        requires
            index < old(self).current,
            !if_expr(old(self).ts(), index as int, old(self).current as int).is_crash(),
        ensures
            final(self).same_input(old(self)),
            agrees(if_expr(old(self).ts(), index as int, old(self).current as int), index as int,
                final(self).current as int, r),
        decreases rem(old(self).ts(), old(self).current as int), 14nat,
    {
        proof {
            reveal_with_fuel(crate::grammar::if_expr, 1);
            reveal_with_fuel(crate::grammar::expr, 1);
            reveal_with_fuel(crate::grammar::if_then, 1);
        }
        let cond = self.parse_expr()?;
        self.parse_if_then(index, cond)
    }

    #[verifier::spinoff_prover]
    #[verifier::rlimit(30)]
    fn parse_if_then(&mut self, index: usize, cond: Expr) -> (r: Result<Expr, Error>)
        requires
            index < old(self).current,
            !if_then(old(self).ts(), index as int, old(self).current as int, cond@).is_crash(),
        ensures
            final(self).same_input(old(self)),
            agrees(if_then(old(self).ts(), index as int, old(self).current as int, cond@), index as int,
                final(self).current as int, r),
        decreases rem(old(self).ts(), old(self).current as int), 0nat,
    {
        proof {
            reveal_with_fuel(crate::grammar::if_then, 1);
            reveal_with_fuel(crate::grammar::expr, 1);
            reveal_with_fuel(crate::grammar::if_else, 1);
            lemma_advanced(old(self).ts(), old(self).current as int);
        }
        self.expect_current(TokenKind::Then)?;
        let then = self.parse_expr()?;
        self.parse_if_else(index, cond, then)
    }

    #[verifier::spinoff_prover]
    #[verifier::rlimit(30)]
    fn parse_if_else(&mut self, index: usize, cond: Expr, then: Expr) -> (r: Result<Expr, Error>)
        requires
            index < old(self).current,
            !if_else(old(self).ts(), index as int, old(self).current as int, cond@, then@).is_crash(),
        ensures
            final(self).same_input(old(self)),
            agrees(if_else(old(self).ts(), index as int, old(self).current as int, cond@, then@),
                index as int, final(self).current as int, r),
        decreases rem(old(self).ts(), old(self).current as int), 0nat,
    {
        proof {
            reveal_with_fuel(crate::grammar::if_else, 1);
            reveal_with_fuel(crate::grammar::expr, 1);
            lemma_advanced(old(self).ts(), old(self).current as int);
        }
        self.expect_current(TokenKind::Else)?;
        let else_ = self.parse_expr()?;
        let sp = self.end_recording(index);
        Ok(Expr::Condition(Box::new(cond), Box::new(then), Box::new(else_), sp))
    }

    /// The arms of a `match` on `expr` that started at `index`, collected in `arms`.
    #[verifier::spinoff_prover]
    #[verifier::rlimit(30)]
    fn parse_match_arms(&mut self, index: usize, expr: Expr, arms: Vec<(Box<Pattern>, Box<Expr>)>) -> (r: Result<Expr, Error>)
        requires
            index < old(self).current,
            !match_arms(old(self).ts(), index as int, expr@, old(self).current as int, arms_view(arms@)).is_crash(),
        ensures
            final(self).same_input(old(self)),
            agrees(match_arms(old(self).ts(), index as int, expr@, old(self).current as int, arms_view(arms@)),
                index as int, final(self).current as int, r),
        decreases rem(old(self).ts(), old(self).current as int), 0nat,
    {
        proof {
            reveal_with_fuel(crate::grammar::pattern, 1);
            reveal_with_fuel(crate::grammar::match_arms, 1);
            reveal_with_fuel(crate::grammar::expr, 1);
        }
        let ghost ts = self.ts();
        let mut arms = arms;
        proof {
            lemma_advanced(ts, self.current as int);
        }
        if !self.match_token(TokenKind::Pipe) {
            let sp = self.end_recording(index);
            return Ok(Expr::Match(Box::new(expr), arms, sp));
        }
        let pat = Box::new(self.parse_pattern()?);
        proof {
            if self.current < ts.len() {
                lemma_advanced(ts, self.current as int);
            }
        }
        self.expect(TokenKind::Arrow)?;
        let e = Box::new(self.parse_expr()?);
        proof {
            lemma_arms_view_push(arms@, (pat, e));
        }
        arms.push((pat, e));
        self.parse_match_arms(index, expr, arms)
    }

    /// The parameters of a lambda that started at `index`, collected in `pats`.
    #[verifier::spinoff_prover]
    #[verifier::rlimit(30)]
    fn parse_lambda_pats(&mut self, index: usize, pats: Vec<Pattern>) -> (r: Result<Expr, Error>)
        requires
            index < old(self).current,
            !lambda_pats(old(self).ts(), index as int, old(self).current as int, patterns_view(pats@)).is_crash(),
        ensures
            final(self).same_input(old(self)),
            agrees(lambda_pats(old(self).ts(), index as int, old(self).current as int, patterns_view(pats@)),
                index as int, final(self).current as int, r),
        decreases rem(old(self).ts(), old(self).current as int), 0nat,
    {
        proof {
            reveal_with_fuel(crate::grammar::pattern, 1);
            reveal_with_fuel(crate::grammar::lambda_pats, 1);
            reveal_with_fuel(crate::grammar::expr, 1);
        }
        let ghost ts = self.ts();
        let mut pats = pats;
        proof {
            lemma_advanced(ts, self.current as int);
        }
        if self.match_token(TokenKind::Arrow) {
            let expr = self.parse_expr()?;
            let sp = self.end_recording(index);
            return Ok(Expr::Lambda(pats, Box::new(expr), sp));
        }
        let pat = self.parse_pattern()?;
        proof {
            lemma_patterns_view_push(pats@, pat);
        }
        pats.push(pat);
        self.parse_lambda_pats(index, pats)
    }

    #[verifier::spinoff_prover]
    #[verifier::rlimit(30)]
    fn parse_bind(&mut self) -> (r: Result<Bind, Error>)
        requires
            !bind(old(self).ts(), old(self).current as int).is_crash(),
        ensures
            final(self).same_input(old(self)),
            agrees(bind(old(self).ts(), old(self).current as int), old(self).current as int,
                final(self).current as int, r),
        decreases rem(old(self).ts(), old(self).current as int), 11nat,
    {
        proof {
            reveal_with_fuel(crate::grammar::bind, 1);
            reveal_with_fuel(crate::grammar::bind_pats, 1);
            lemma_advanced(old(self).ts(), old(self).current as int);
        }
        let index = self.start_recording();
        let id = self.expect_identifier()?;
        let args: Vec<Pattern> = Vec::new();
        proof {
            assert(patterns_view(args@) =~= Seq::empty()) by {
                lemma_patterns_view_push(args@, arbitrary());
            }
        }
        self.parse_bind_pats(index, id, args)
    }

    /// The patterns of a binding of `id` that started at `index`, collected in `args`.
    #[verifier::spinoff_prover]
    #[verifier::rlimit(30)]
    fn parse_bind_pats(&mut self, index: usize, id: Identifier, args: Vec<Pattern>) -> (r: Result<Bind, Error>)
        requires
            index < old(self).current,
            !bind_pats(old(self).ts(), index as int, id@, old(self).current as int, patterns_view(args@)).is_crash(),
        ensures
            final(self).same_input(old(self)),
            agrees(bind_pats(old(self).ts(), index as int, id@, old(self).current as int, patterns_view(args@)),
                index as int, final(self).current as int, r),
        decreases rem(old(self).ts(), old(self).current as int), 0nat,
    {
        proof {
            reveal_with_fuel(crate::grammar::pattern, 1);
            reveal_with_fuel(crate::grammar::bind_pats, 1);
            reveal_with_fuel(crate::grammar::expr, 1);
        }
        let ghost ts = self.ts();
        let mut args = args;
        proof {
            lemma_advanced(ts, self.current as int);
        }
        if self.match_token(TokenKind::Assign) {
            let expr = self.parse_expr()?;
            let sp = self.end_recording(index);
            let b = Bind::new(id, args, expr, sp);
            assert(b@ == b.view_rec());
            return Ok(b);
        }
        let arg = self.parse_pattern()?;
        proof {
            lemma_patterns_view_push(args@, arg);
        }
        args.push(arg);
        self.parse_bind_pats(index, id, args)
    }

    /// Parses the whole token sequence from the current position: statements
    /// up to the end of the tokens or an `Eof` token.
    pub fn parse(&mut self) -> (r: Result<Program, Error>)
        requires
            !program(old(self).ts(), old(self).current as int).is_crash(),
        ensures
            final(self).same_input(old(self)),
            agrees(program(old(self).ts(), old(self).current as int), old(self).current as int,
                final(self).current as int, r),
    {
        let ghost ts = self.ts();
        let ghost start = self.current as int;
        let mut statements: Vec<Statment> = Vec::new();
        proof {
            reveal_with_fuel(crate::grammar::program_from, 1);
            assert(statements@.map_values(|s: Statment| s@) =~= Seq::empty());
        }
        while !self.is_eof() && self.peek().kind != TokenKind::Eof
            invariant
                self.same_input(old(self)),
                ts == self.ts(),
                ts == old(self).ts(),
                start == old(self).current,
                start <= self.current,
                program(ts, start) == program_from(ts, start, self.current as int,
                    statements@.map_values(|s: Statment| s@)),
                !program(ts, start).is_crash(),
            decreases rem(ts, self.current as int),
        {
            proof {
                reveal_with_fuel(crate::grammar::program_from, 1);
            }
            let s = self.parse_statement()?;
            let ghost before = statements@;
            statements.push(s);
            proof {
                assert(statements@.map_values(|s: Statment| s@) =~= before.map_values(
                    |s: Statment| s@,
                ).push(s@));
            }
        }
        Ok(Program::new(statements))
    }

    #[verifier::spinoff_prover]
    #[verifier::rlimit(30)]
    fn parse_statement(&mut self) -> (r: Result<Statment, Error>)
        requires
            !statement(old(self).ts(), old(self).current as int).is_crash(),
        ensures
            final(self).same_input(old(self)),
            agrees(statement(old(self).ts(), old(self).current as int), old(self).current as int,
                final(self).current as int, r),
    {
        // Any first token other than these two stops the program, which the
        // precondition rules out.
        if self.peek().kind == TokenKind::Identifier {
            self.parse_stmt_identifier()
        } else {
            self.parse_type_decl()
        }
    }

    #[verifier::spinoff_prover]
    #[verifier::rlimit(30)]
    fn parse_stmt_identifier(&mut self) -> (r: Result<Statment, Error>)
        requires
            !stmt_identifier(old(self).ts(), old(self).current as int).is_crash(),
        ensures
            final(self).same_input(old(self)),
            agrees(stmt_identifier(old(self).ts(), old(self).current as int), old(self).current as int,
                final(self).current as int, r),
    {
        proof {
            reveal_with_fuel(crate::grammar::type_, 1);
            reveal_with_fuel(crate::grammar::bind, 1);
            lemma_advanced(old(self).ts(), old(self).current as int);
        }
        let ghost ts = self.ts();
        let index = self.start_recording();
        let id = self.expect_identifier()?;
        proof {
            let p0 = old(self).current as int;
            lemma_advanced(ts, self.current as int);
            lemma_back_up_pos(ts, p0, self.current as int);
        }
        if self.peek().kind == TokenKind::DoubleCollon {
            self.advance();
            let ty = self.parse_type()?;
            let sp = self.end_recording(index);
            Ok(Statment::TypeAssign(TypeAssign::new(id, ty, sp)))
        } else {
            self.back_up();
            let b = self.parse_bind()?;
            Ok(Statment::Bind(b))
        }
    }

    #[verifier::spinoff_prover]
    #[verifier::rlimit(30)]
    fn parse_type_decl(&mut self) -> (r: Result<Statment, Error>)
        requires
            old(self).current < old(self).tokens.len(),
            !type_decl(old(self).ts(), old(self).current as int).is_crash(),
        ensures
            final(self).same_input(old(self)),
            agrees(type_decl(old(self).ts(), old(self).current as int), old(self).current as int,
                final(self).current as int, r),
    {
        proof {
            reveal_with_fuel(crate::grammar::decl_params, 1);
            lemma_advanced(old(self).ts(), old(self).current as int);
        }
        let index = self.start_recording();
        self.advance();
        let id = self.expect_pc_identifier()?;
        let idents: Vec<Identifier> = Vec::new();
        proof {
            assert(idents@.map_values(|i: Identifier| i@) =~= Seq::empty());
        }
        self.parse_decl_params(index, id, idents)
    }

    /// The parameters of a declaration of `id` that started at `index`, up to
    /// `=`, then its variants.
    #[verifier::spinoff_prover]
    #[verifier::rlimit(30)]
    fn parse_decl_params(&mut self, index: usize, id: Identifier, idents: Vec<Identifier>) -> (r: Result<Statment, Error>)
        requires
            index < old(self).current,
            !decl_params(old(self).ts(), index as int, id@, old(self).current as int,
                idents@.map_values(|i: Identifier| i@)).is_crash(),
        ensures
            final(self).same_input(old(self)),
            agrees(decl_params(old(self).ts(), index as int, id@, old(self).current as int,
                idents@.map_values(|i: Identifier| i@)), index as int, final(self).current as int, r),
        decreases rem(old(self).ts(), old(self).current as int),
    {
        proof {
            reveal_with_fuel(crate::grammar::decl_params, 1);
            reveal_with_fuel(crate::grammar::decl_variants, 1);
            lemma_advanced(old(self).ts(), old(self).current as int);
        }
        let mut idents = idents;
        if self.match_token(TokenKind::Assign) {
            let v = self.parse_variant()?;
            let mut variants: Vec<Variant> = Vec::new();
            variants.push(v);
            proof {
                assert(variants@.map_values(|v: Variant| v@) =~= seq![v@]);
            }
            return self.parse_decl_variants(index, id, idents, variants);
        }
        let x = self.expect_identifier()?;
        let ghost before = idents@;
        idents.push(x);
        proof {
            assert(idents@.map_values(|i: Identifier| i@) =~= before.map_values(|i: Identifier| i@).push(x@));
        }
        self.parse_decl_params(index, id, idents)
    }

    /// The variants after the first of a declaration that started at `index`.
    #[verifier::spinoff_prover]
    #[verifier::rlimit(30)]
    fn parse_decl_variants(
        &mut self,
        index: usize,
        id: Identifier,
        idents: Vec<Identifier>,
        variants: Vec<Variant>,
    ) -> (r: Result<Statment, Error>)
        requires
            index < old(self).current,
            !decl_variants(old(self).ts(), index as int, id@, idents@.map_values(|i: Identifier| i@),
                old(self).current as int, variants@.map_values(|v: Variant| v@)).is_crash(),
        ensures
            final(self).same_input(old(self)),
            agrees(decl_variants(old(self).ts(), index as int, id@, idents@.map_values(|i: Identifier| i@),
                old(self).current as int, variants@.map_values(|v: Variant| v@)), index as int,
                final(self).current as int, r),
        decreases rem(old(self).ts(), old(self).current as int),
    {
        proof {
            reveal_with_fuel(crate::grammar::decl_variants, 1);
            lemma_advanced(old(self).ts(), old(self).current as int);
        }
        let mut variants = variants;
        if !self.match_token(TokenKind::Pipe) {
            let sp = self.end_recording(index);
            return Ok(Statment::TypeDecl(TypeDecl::new(id, idents, variants, sp)));
        }
        let v = self.parse_variant()?;
        let ghost before = variants@;
        variants.push(v);
        proof {
            assert(variants@.map_values(|v: Variant| v@) =~= before.map_values(|v: Variant| v@).push(v@));
        }
        self.parse_decl_variants(index, id, idents, variants)
    }

    #[verifier::spinoff_prover]
    #[verifier::rlimit(30)]
    fn parse_variant(&mut self) -> (r: Result<Variant, Error>)
        requires
            !variant(old(self).ts(), old(self).current as int).is_crash(),
        ensures
            final(self).same_input(old(self)),
            agrees(variant(old(self).ts(), old(self).current as int), old(self).current as int,
                final(self).current as int, r),
    {
        proof {
            reveal_with_fuel(crate::grammar::variant_types, 1);
            reveal_with_fuel(crate::grammar::type_, 1);
        }
        let ghost ts = self.ts();
        let ghost model = variant(ts, self.current as int);
        proof {
            lemma_advanced(ts, self.current as int);
        }
        let index = self.start_recording();
        let id = self.expect_pc_identifier()?;
        let mut ty: Vec<Type> = Vec::new();
        proof {
            lemma_types_view_push(ty@, arbitrary());
        }
        loop
            invariant
                self.same_input(old(self)),
                ts == self.ts(),
                ts == old(self).ts(),
                model == variant(old(self).ts(), old(self).current as int),
                index == old(self).current,
                index < self.current,
                model == variant_types(ts, index as int, id@, self.current as int, types_view(ty@)),
                !model.is_crash(),
            decreases rem(ts, self.current as int),
        {
            proof {
                reveal_with_fuel(crate::grammar::variant_types, 1);
                reveal_with_fuel(crate::grammar::type_, 1);
            }
            let current_ty = self.parse_type();
            match current_ty {
                Ok(t) => {
                    proof {
                        lemma_types_view_push(ty@, t);
                    }
                    ty.push(t);
                },
                Err(_) => {
                    let sp = self.end_recording(index);
                    return Ok(Variant::new(id, ty, sp));
                },
            }
        }
    }

    fn is_eof(&self) -> (r: bool)
        ensures
            r == (self.current >= self.tokens.len()),
    {
        self.current >= self.tokens.len()
    }
}

} // verus!
