//! Syntax tree produced by the parser, and its mathematical counterpart.
//!
//! Every executable node type has a `Spec*` twin built from `Seq` and
//! `Seq<char>` in place of `Vec` and `String`; `@` maps one to the other.
use vstd::prelude::*;

verus! {

/// A region of the token stream, `[start, end)`, with the source text it covers.
#[derive(Debug, Clone, PartialEq, Eq)]
pub struct Span {
    pub start: usize,
    pub end: usize,
    pub input: String,
}

pub struct SpecSpan {
    pub start: usize,
    pub end: usize,
    pub input: Seq<char>,
}

impl View for Span {
    type V = SpecSpan;

    open spec fn view(&self) -> SpecSpan {
        SpecSpan { start: self.start, end: self.end, input: self.input@ }
    }
}

impl Span {
    pub fn new(start: usize, end: usize, input: String) -> (r: Span)
        ensures
            r.start == start,
            r.end == end,
            r.input == input,
    {
        Span { start, end, input }
    }

    /// A field-by-field copy.
    pub fn duplicate(&self) -> (r: Span)
        ensures
            r == *self,
    {
        Span { start: self.start, end: self.end, input: self.input.clone() }
    }
}

/// A name together with where it was written.
#[derive(Debug, Clone, PartialEq, Eq)]
pub struct Identifier {
    pub name: String,
    pub span: Span,
}

pub struct SpecIdentifier {
    pub name: Seq<char>,
    pub span: SpecSpan,
}

impl View for Identifier {
    type V = SpecIdentifier;

    open spec fn view(&self) -> SpecIdentifier {
        SpecIdentifier { name: self.name@, span: self.span@ }
    }
}

impl Identifier {
    pub fn new(name: String, span: Span) -> (r: Identifier)
        ensures
            r.name == name,
            r.span == span,
    {
        Identifier { name, span }
    }

    pub fn duplicate(&self) -> (r: Identifier)
        ensures
            r == *self,
    {
        Identifier { name: self.name.clone(), span: self.span.duplicate() }
    }
}

#[derive(Debug, Clone, Copy, PartialEq, Eq, Structural)]
pub enum Bool {
    True,
    False,
}

#[derive(Debug, Clone, PartialEq, Eq)]
pub enum LiteralKind {
    Integer(i64),
    /// A floating-point literal, kept as the text it was written with.
    Float(String),
    /// A string literal's contents, without the quotes.
    String(String),
    Bool(Bool),
}

pub enum SpecLiteralKind {
    Integer(i64),
    Float(Seq<char>),
    String(Seq<char>),
    Bool(Bool),
}

impl View for LiteralKind {
    type V = SpecLiteralKind;

    open spec fn view(&self) -> SpecLiteralKind {
        match self {
            LiteralKind::Integer(i) => SpecLiteralKind::Integer(*i),
            LiteralKind::Float(s) => SpecLiteralKind::Float(s@),
            LiteralKind::String(s) => SpecLiteralKind::String(s@),
            LiteralKind::Bool(b) => SpecLiteralKind::Bool(*b),
        }
    }
}

impl LiteralKind {
    pub fn duplicate(&self) -> (r: LiteralKind)
        ensures
            r == *self,
    {
        match self {
            LiteralKind::Integer(i) => LiteralKind::Integer(*i),
            LiteralKind::Float(s) => LiteralKind::Float(s.clone()),
            LiteralKind::String(s) => LiteralKind::String(s.clone()),
            LiteralKind::Bool(b) => LiteralKind::Bool(*b),
        }
    }
}

#[derive(Debug, Clone, PartialEq, Eq)]
pub struct Literal {
    pub kind: LiteralKind,
    pub span: Span,
}

pub struct SpecLiteral {
    pub kind: SpecLiteralKind,
    pub span: SpecSpan,
}

impl View for Literal {
    type V = SpecLiteral;

    open spec fn view(&self) -> SpecLiteral {
        SpecLiteral { kind: self.kind@, span: self.span@ }
    }
}

impl Literal {
    pub fn new(kind: LiteralKind, span: Span) -> (r: Literal)
        ensures
            r.kind == kind,
            r.span == span,
    {
        Literal { kind, span }
    }

    pub fn duplicate(&self) -> (r: Literal)
        ensures
            r == *self,
    {
        Literal { kind: self.kind.duplicate(), span: self.span.duplicate() }
    }
}

#[derive(Debug, Clone, Copy, PartialEq, Eq, Structural)]
pub enum BinOp {
    Add,
    Sub,
    Mul,
    Div,
    Mod,
    Exp,
    Eq,
    Ineq,
}


/// A type expression.
#[derive(Debug, PartialEq, Eq)]
pub enum Type {
    /// A lower-case type variable.
    Generic(Identifier),
    /// A named type.
    Id(Identifier),
    /// A type constructor applied to arguments.
    App(Identifier, Vec<Type>, Span),
    /// A function type: the left-hand side and the types after each arrow.
    Func(Box<Type>, Vec<Type>, Span),
    Tuple(Vec<Type>, Span),
}

pub enum SpecType {
    Generic(SpecIdentifier),
    Id(SpecIdentifier),
    App(SpecIdentifier, Seq<SpecType>, SpecSpan),
    Func(Box<SpecType>, Seq<SpecType>, SpecSpan),
    Tuple(Seq<SpecType>, SpecSpan),
}

pub open spec fn types_view(s: Seq<Type>) -> Seq<SpecType>
    decreases s,
{
    if s.len() == 0 {
        Seq::empty()
    } else {
        types_view(s.drop_last()).push(s.last().view_rec())
    }
}

impl Type {
    pub open spec fn view_rec(&self) -> SpecType
        decreases self,
    {
        match self {
            Type::Generic(id) => SpecType::Generic(id@),
            Type::Id(id) => SpecType::Id(id@),
            Type::App(id, tys, sp) => SpecType::App(id@, types_view(tys@), sp@),
            Type::Func(lhs, rhs, sp) => SpecType::Func(Box::new(lhs.view_rec()), types_view(rhs@), sp@),
            Type::Tuple(tys, sp) => SpecType::Tuple(types_view(tys@), sp@),
        }
    }
}

impl View for Type {
    type V = SpecType;

    open spec fn view(&self) -> SpecType {
        self.view_rec()
    }
}

pub proof fn lemma_types_view_push(s: Seq<Type>, t: Type)
    ensures
        types_view(s.push(t)) == types_view(s).push(t@),
        types_view(Seq::<Type>::empty()) == Seq::<SpecType>::empty(),
{
    assert(s.push(t).drop_last() == s);
}

/// Copies a list of types, element by element.
pub fn duplicate_types(v: &Vec<Type>) -> (r: Vec<Type>)
    ensures
        types_view(r@) == types_view(v@),
    decreases v, 0nat,
{
    let mut out: Vec<Type> = Vec::new();
    let mut i: usize = 0;
    while i < v.len()
        invariant
            i <= v.len(),
            out.len() == i,
            types_view(out@) == types_view(v@.take(i as int)),
        decreases v.len() - i,
    {
        proof {
            assert(decreases_to!(v => v@));
            assert(decreases_to!(v@ => v@[i as int]));
        }
        let t = v[i].duplicate();
        let ghost before = out@;
        out.push(t);
        proof {
            assert(v@.take(i + 1).drop_last() == v@.take(i as int));
            assert(out@.drop_last() == before);
        }
        i += 1;
    }
    assert(v@.take(v.len() as int) == v@);
    out
}

impl Type {
    /// A deep copy: equal in every part that the view sees.
    pub fn duplicate(&self) -> (r: Type)
        ensures
            r@ == self@,
        decreases self, 1nat,
    {
        match self {
            Type::Generic(id) => Type::Generic(id.duplicate()),
            Type::Id(id) => Type::Id(id.duplicate()),
            Type::App(id, tys, sp) => {
                proof { assert(decreases_to!(*self => self->App_1)); }
                Type::App(id.duplicate(), duplicate_types(tys), sp.duplicate())
            },
            Type::Func(lhs, rhs, sp) => {
                proof { assert(decreases_to!(*self => self->Func_1)); }
                let l = lhs.duplicate();
                Type::Func(Box::new(l), duplicate_types(rhs), sp.duplicate())
            },
            Type::Tuple(tys, sp) => {
                proof { assert(decreases_to!(*self => self->Tuple_0)); }
                Type::Tuple(duplicate_types(tys), sp.duplicate())
            },
        }
    }
}


/// A pattern on the left of a binding, a match arm or a lambda.
#[derive(Debug, PartialEq, Eq)]
pub enum Pattern {
    Literal(Literal),
    Variable(Identifier),
    Id(Identifier),
    App(Identifier, Vec<Type>, Span),
    ListCons(Box<Pattern>, Box<Pattern>, Span),
    Wildcard(Span),
}

pub enum SpecPattern {
    Literal(SpecLiteral),
    Variable(SpecIdentifier),
    Id(SpecIdentifier),
    App(SpecIdentifier, Seq<SpecType>, SpecSpan),
    ListCons(Box<SpecPattern>, Box<SpecPattern>, SpecSpan),
    Wildcard(SpecSpan),
}

impl Pattern {
    pub open spec fn view_rec(&self) -> SpecPattern
        decreases self,
    {
        match self {
            Pattern::Literal(l) => SpecPattern::Literal(l@),
            Pattern::Variable(id) => SpecPattern::Variable(id@),
            Pattern::Id(id) => SpecPattern::Id(id@),
            Pattern::App(id, tys, sp) => SpecPattern::App(id@, types_view(tys@), sp@),
            Pattern::ListCons(a, b, sp) => SpecPattern::ListCons(
                Box::new(a.view_rec()),
                Box::new(b.view_rec()),
                sp@,
            ),
            Pattern::Wildcard(sp) => SpecPattern::Wildcard(sp@),
        }
    }

    pub fn duplicate(&self) -> (r: Pattern)
        ensures
            r@ == self@,
        decreases self,
    {
        match self {
            Pattern::Literal(l) => Pattern::Literal(l.duplicate()),
            Pattern::Variable(id) => Pattern::Variable(id.duplicate()),
            Pattern::Id(id) => Pattern::Id(id.duplicate()),
            Pattern::App(id, tys, sp) => Pattern::App(id.duplicate(), duplicate_types(tys), sp.duplicate()),
            Pattern::ListCons(a, b, sp) => {
                let a2 = a.duplicate();
                let b2 = b.duplicate();
                Pattern::ListCons(Box::new(a2), Box::new(b2), sp.duplicate())
            },
            Pattern::Wildcard(sp) => Pattern::Wildcard(sp.duplicate()),
        }
    }
}

impl View for Pattern {
    type V = SpecPattern;

    open spec fn view(&self) -> SpecPattern {
        self.view_rec()
    }
}

pub open spec fn patterns_view(s: Seq<Pattern>) -> Seq<SpecPattern>
    decreases s.len(),
{
    if s.len() == 0 {
        Seq::empty()
    } else {
        patterns_view(s.drop_last()).push(s.last()@)
    }
}

pub fn duplicate_patterns(v: &Vec<Pattern>) -> (r: Vec<Pattern>)
    ensures
        patterns_view(r@) == patterns_view(v@),
{
    let mut out: Vec<Pattern> = Vec::new();
    let mut i: usize = 0;
    while i < v.len()
        invariant
            i <= v.len(),
            out.len() == i,
            patterns_view(out@) == patterns_view(v@.take(i as int)),
        decreases v.len() - i,
    {
        let p = v[i].duplicate();
        let ghost before = out@;
        out.push(p);
        proof {
            assert(v@.take(i + 1).drop_last() == v@.take(i as int));
            assert(out@.drop_last() == before);
        }
        i += 1;
    }
    assert(v@.take(v.len() as int) == v@);
    out
}

/// An expression.
#[derive(Debug, PartialEq, Eq)]
pub enum Expr {
    Literal(Literal),
    /// A lower-case name.
    Identifier(Identifier),
    /// A capitalised name.
    Id(Identifier),
    App(App),
    BinOp(BinOp, Box<Expr>, Box<Expr>, Span),
    /// An expression with a type annotation.
    Ann(Box<Expr>, Type, Span),
    Let(Vec<Bind>, Box<Expr>, Span),
    /// `if` condition, `then` branch, `else` branch.
    Condition(Box<Expr>, Box<Expr>, Box<Expr>, Span),
    Match(Box<Expr>, Vec<(Box<Pattern>, Box<Expr>)>, Span),
    Lambda(Vec<Pattern>, Box<Expr>, Span),
}

/// A name applied to arguments.
#[derive(Debug, PartialEq, Eq)]
pub struct App {
    pub id: Identifier,
    pub args: Vec<Expr>,
    pub span: Span,
}

/// A definition `name patterns = expression`.
#[derive(Debug, PartialEq, Eq)]
pub struct Bind {
    pub id: Identifier,
    pub args: Vec<Pattern>,
    pub expr: Expr,
    pub span: Span,
}

pub enum SpecExpr {
    Literal(SpecLiteral),
    Identifier(SpecIdentifier),
    Id(SpecIdentifier),
    App(SpecApp),
    BinOp(BinOp, Box<SpecExpr>, Box<SpecExpr>, SpecSpan),
    Ann(Box<SpecExpr>, SpecType, SpecSpan),
    Let(Seq<SpecBind>, Box<SpecExpr>, SpecSpan),
    Condition(Box<SpecExpr>, Box<SpecExpr>, Box<SpecExpr>, SpecSpan),
    Match(Box<SpecExpr>, Seq<(SpecPattern, SpecExpr)>, SpecSpan),
    Lambda(Seq<SpecPattern>, Box<SpecExpr>, SpecSpan),
}

pub struct SpecApp {
    pub id: SpecIdentifier,
    pub args: Seq<SpecExpr>,
    pub span: SpecSpan,
}

pub struct SpecBind {
    pub id: SpecIdentifier,
    pub args: Seq<SpecPattern>,
    pub expr: Box<SpecExpr>,
    pub span: SpecSpan,
}

pub open spec fn exprs_view(s: Seq<Expr>) -> Seq<SpecExpr>
    decreases s,
{
    if s.len() == 0 {
        Seq::empty()
    } else {
        exprs_view(s.drop_last()).push(s.last().view_rec())
    }
}

pub open spec fn binds_view(s: Seq<Bind>) -> Seq<SpecBind>
    decreases s,
{
    if s.len() == 0 {
        Seq::empty()
    } else {
        binds_view(s.drop_last()).push(s.last().view_rec())
    }
}

pub open spec fn arms_view(s: Seq<(Box<Pattern>, Box<Expr>)>) -> Seq<(SpecPattern, SpecExpr)>
    decreases s,
{
    if s.len() == 0 {
        Seq::empty()
    } else {
        arms_view(s.drop_last()).push((s.last().0@, s.last().1.view_rec()))
    }
}

impl Expr {
    pub open spec fn view_rec(&self) -> SpecExpr
        decreases self,
    {
        match self {
            Expr::Literal(l) => SpecExpr::Literal(l@),
            Expr::Identifier(id) => SpecExpr::Identifier(id@),
            Expr::Id(id) => SpecExpr::Id(id@),
            Expr::App(a) => SpecExpr::App(a.view_rec()),
            Expr::BinOp(op, l, r, sp) => SpecExpr::BinOp(
                *op,
                Box::new(l.view_rec()),
                Box::new(r.view_rec()),
                sp@,
            ),
            Expr::Ann(e, t, sp) => SpecExpr::Ann(Box::new(e.view_rec()), t@, sp@),
            Expr::Let(bs, e, sp) => SpecExpr::Let(binds_view(bs@), Box::new(e.view_rec()), sp@),
            Expr::Condition(c, t, e, sp) => SpecExpr::Condition(
                Box::new(c.view_rec()),
                Box::new(t.view_rec()),
                Box::new(e.view_rec()),
                sp@,
            ),
            Expr::Match(e, arms, sp) => SpecExpr::Match(Box::new(e.view_rec()), arms_view(arms@), sp@),
            Expr::Lambda(ps, e, sp) => SpecExpr::Lambda(patterns_view(ps@), Box::new(e.view_rec()), sp@),
        }
    }
}

impl App {
    pub open spec fn view_rec(&self) -> SpecApp
        decreases self,
    {
        SpecApp { id: self.id@, args: exprs_view(self.args@), span: self.span@ }
    }

    pub fn new(id: Identifier, args: Vec<Expr>, span: Span) -> (r: App)
        ensures
            r.id == id,
            r.args == args,
            r.span == span,
    {
        App { id, args, span }
    }
}

impl Bind {
    pub open spec fn view_rec(&self) -> SpecBind
        decreases self,
    {
        SpecBind {
            id: self.id@,
            args: patterns_view(self.args@),
            expr: Box::new(self.expr.view_rec()),
            span: self.span@,
        }
    }

    pub fn new(id: Identifier, args: Vec<Pattern>, expr: Expr, span: Span) -> (r: Bind)
        ensures
            r.id == id,
            r.args == args,
            r.expr == expr,
            r.span == span,
    {
        Bind { id, args, expr, span }
    }
}

pub proof fn lemma_exprs_view_push(s: Seq<Expr>, e: Expr)
    ensures
        exprs_view(s.push(e)) == exprs_view(s).push(e@),
        exprs_view(Seq::<Expr>::empty()) == Seq::<SpecExpr>::empty(),
{
    assert(s.push(e).drop_last() == s);
}

pub proof fn lemma_binds_view_push(s: Seq<Bind>, b: Bind)
    ensures
        binds_view(s.push(b)) == binds_view(s).push(b@),
        binds_view(Seq::<Bind>::empty()) == Seq::<SpecBind>::empty(),
{
    assert(s.push(b).drop_last() == s);
}

pub proof fn lemma_arms_view_push(s: Seq<(Box<Pattern>, Box<Expr>)>, a: (Box<Pattern>, Box<Expr>))
    ensures
        arms_view(s.push(a)) == arms_view(s).push((a.0@, a.1@)),
        arms_view(Seq::<(Box<Pattern>, Box<Expr>)>::empty()) == Seq::<(SpecPattern, SpecExpr)>::empty(),
{
    assert(s.push(a).drop_last() == s);
}

pub proof fn lemma_patterns_view_push(s: Seq<Pattern>, p: Pattern)
    ensures
        patterns_view(s.push(p)) == patterns_view(s).push(p@),
        patterns_view(Seq::<Pattern>::empty()) == Seq::<SpecPattern>::empty(),
{
    assert(s.push(p).drop_last() == s);
}

impl View for Expr {
    type V = SpecExpr;

    open spec fn view(&self) -> SpecExpr {
        self.view_rec()
    }
}

impl View for App {
    type V = SpecApp;

    open spec fn view(&self) -> SpecApp {
        self.view_rec()
    }
}

impl View for Bind {
    type V = SpecBind;

    open spec fn view(&self) -> SpecBind {
        self.view_rec()
    }
}


pub fn duplicate_exprs(v: &Vec<Expr>) -> (r: Vec<Expr>)
    ensures
        exprs_view(r@) == exprs_view(v@),
    decreases v, 0nat,
{
    let mut out: Vec<Expr> = Vec::new();
    let mut i: usize = 0;
    while i < v.len()
        invariant
            i <= v.len(),
            out.len() == i,
            exprs_view(out@) == exprs_view(v@.take(i as int)),
        decreases v.len() - i,
    {
        proof {
            assert(decreases_to!(v => v@));
            assert(decreases_to!(v@ => v@[i as int]));
        }
        let e = v[i].duplicate();
        let ghost before = out@;
        out.push(e);
        proof {
            assert(v@.take(i + 1).drop_last() == v@.take(i as int));
            assert(out@.drop_last() == before);
        }
        i += 1;
    }
    assert(v@.take(v.len() as int) == v@);
    out
}

pub fn duplicate_binds(v: &Vec<Bind>) -> (r: Vec<Bind>)
    ensures
        binds_view(r@) == binds_view(v@),
    decreases v, 0nat,
{
    let mut out: Vec<Bind> = Vec::new();
    let mut i: usize = 0;
    while i < v.len()
        invariant
            i <= v.len(),
            out.len() == i,
            binds_view(out@) == binds_view(v@.take(i as int)),
        decreases v.len() - i,
    {
        proof {
            assert(decreases_to!(v => v@));
            assert(decreases_to!(v@ => v@[i as int]));
        }
        let b = v[i].duplicate();
        let ghost before = out@;
        out.push(b);
        proof {
            assert(v@.take(i + 1).drop_last() == v@.take(i as int));
            assert(out@.drop_last() == before);
        }
        i += 1;
    }
    assert(v@.take(v.len() as int) == v@);
    out
}

pub fn duplicate_arms(v: &Vec<(Box<Pattern>, Box<Expr>)>) -> (r: Vec<(Box<Pattern>, Box<Expr>)>)
    ensures
        arms_view(r@) == arms_view(v@),
    decreases v, 0nat,
{
    let mut out: Vec<(Box<Pattern>, Box<Expr>)> = Vec::new();
    let mut i: usize = 0;
    while i < v.len()
        invariant
            i <= v.len(),
            out.len() == i,
            arms_view(out@) == arms_view(v@.take(i as int)),
        decreases v.len() - i,
    {
        proof {
            assert(decreases_to!(v => v@));
            assert(decreases_to!(v@ => v@[i as int]));
            assert(decreases_to!(v@[i as int] => v@[i as int].1));
        }
        let p = v[i].0.duplicate();
        let e = v[i].1.duplicate();
        let ghost before = out@;
        out.push((Box::new(p), Box::new(e)));
        proof {
            assert(v@.take(i + 1).drop_last() == v@.take(i as int));
            assert(out@.drop_last() == before);
        }
        i += 1;
    }
    assert(v@.take(v.len() as int) == v@);
    out
}

impl Bind {
    pub fn duplicate(&self) -> (r: Bind)
        ensures
            r@ == self@,
        decreases self, 1nat,
    {
        let e = self.expr.duplicate();
        Bind {
            id: self.id.duplicate(),
            args: duplicate_patterns(&self.args),
            expr: e,
            span: self.span.duplicate(),
        }
    }
}

impl Expr {
    /// A deep copy: equal in every part that the view sees.
    pub fn duplicate(&self) -> (r: Expr)
        ensures
            r@ == self@,
        decreases self, 1nat,
    {
        match self {
            Expr::Literal(l) => {
                let l2 = l.duplicate();
                assert(l2@ == l@);
                let r = Expr::Literal(l2);
                assert(r.view_rec() == SpecExpr::Literal(l2@));
                assert(self.view_rec() == SpecExpr::Literal(l@));
                assert(r@ == self@);
                r
            },
            Expr::Identifier(id) => Expr::Identifier(id.duplicate()),
            Expr::Id(id) => Expr::Id(id.duplicate()),
            Expr::App(a) => {
                proof { assert(decreases_to!(*self => self->App_0)); assert(decreases_to!(self->App_0 => self->App_0.args)); }
                let args = duplicate_exprs(&a.args);
                let a2 = App { id: a.id.duplicate(), args, span: a.span.duplicate() };
                assert(a2.view_rec() == a.view_rec());
                let r = Expr::App(a2);
                r
            },
            Expr::BinOp(op, l, r, sp) => {
                let l2 = l.duplicate();
                let r2 = r.duplicate();
                Expr::BinOp(*op, Box::new(l2), Box::new(r2), sp.duplicate())
            },
            Expr::Ann(e, t, sp) => {
                let e2 = e.duplicate();
                Expr::Ann(Box::new(e2), t.duplicate(), sp.duplicate())
            },
            Expr::Let(bs, e, sp) => {
                proof { assert(decreases_to!(*self => self->Let_0)); }
                let bs2 = duplicate_binds(bs);
                let e2 = e.duplicate();
                let r = Expr::Let(bs2, Box::new(e2), sp.duplicate());
                assert(r@ == self@);
                r
            },
            Expr::Condition(c, t, e, sp) => {
                let c2 = c.duplicate();
                let t2 = t.duplicate();
                let e2 = e.duplicate();
                Expr::Condition(Box::new(c2), Box::new(t2), Box::new(e2), sp.duplicate())
            },
            Expr::Match(e, arms, sp) => {
                proof { assert(decreases_to!(*self => self->Match_1)); }
                let e2 = e.duplicate();
                let arms2 = duplicate_arms(arms);
                let r = Expr::Match(Box::new(e2), arms2, sp.duplicate());
                assert(r@ == self@);
                r
            },
            Expr::Lambda(ps, e, sp) => {
                let e2 = e.duplicate();
                Expr::Lambda(duplicate_patterns(ps), Box::new(e2), sp.duplicate())
            },
        }
    }
}


/// One constructor of a data type declaration.
#[derive(Debug, PartialEq, Eq)]
pub struct Variant {
    pub id: Identifier,
    pub types: Vec<Type>,
    pub span: Span,
}

pub struct SpecVariant {
    pub id: SpecIdentifier,
    pub types: Seq<SpecType>,
    pub span: SpecSpan,
}

impl View for Variant {
    type V = SpecVariant;

    open spec fn view(&self) -> SpecVariant {
        SpecVariant { id: self.id@, types: types_view(self.types@), span: self.span@ }
    }
}

impl Variant {
    pub fn new(id: Identifier, types: Vec<Type>, span: Span) -> (r: Variant)
        ensures
            r.id == id,
            r.types == types,
            r.span == span,
    {
        Variant { id, types, span }
    }
}

/// `type Name params = Variant | Variant ...`
#[derive(Debug, PartialEq, Eq)]
pub struct TypeDecl {
    pub id: Identifier,
    pub params: Vec<Identifier>,
    pub variants: Vec<Variant>,
    pub span: Span,
}

pub struct SpecTypeDecl {
    pub id: SpecIdentifier,
    pub params: Seq<SpecIdentifier>,
    pub variants: Seq<SpecVariant>,
    pub span: SpecSpan,
}

impl View for TypeDecl {
    type V = SpecTypeDecl;

    open spec fn view(&self) -> SpecTypeDecl {
        SpecTypeDecl {
            id: self.id@,
            params: self.params@.map_values(|i: Identifier| i@),
            variants: self.variants@.map_values(|v: Variant| v@),
            span: self.span@,
        }
    }
}

impl TypeDecl {
    pub fn new(id: Identifier, params: Vec<Identifier>, variants: Vec<Variant>, span: Span) -> (r: TypeDecl)
        ensures
            r.id == id,
            r.params == params,
            r.variants == variants,
            r.span == span,
    {
        TypeDecl { id, params, variants, span }
    }
}

/// `name :: type`
#[derive(Debug, PartialEq, Eq)]
pub struct TypeAssign {
    pub id: Identifier,
    pub ty: Type,
    pub span: Span,
}

pub struct SpecTypeAssign {
    pub id: SpecIdentifier,
    pub ty: SpecType,
    pub span: SpecSpan,
}

impl View for TypeAssign {
    type V = SpecTypeAssign;

    open spec fn view(&self) -> SpecTypeAssign {
        SpecTypeAssign { id: self.id@, ty: self.ty@, span: self.span@ }
    }
}

impl TypeAssign {
    pub fn new(id: Identifier, ty: Type, span: Span) -> (r: TypeAssign)
        ensures
            r.id == id,
            r.ty == ty,
            r.span == span,
    {
        TypeAssign { id, ty, span }
    }
}

/// A top-level statement.
#[derive(Debug, PartialEq, Eq)]
pub enum Statment {
    TypeAssign(TypeAssign),
    TypeDecl(TypeDecl),
    Bind(Bind),
}

pub enum SpecStatment {
    TypeAssign(SpecTypeAssign),
    TypeDecl(SpecTypeDecl),
    Bind(SpecBind),
}

impl View for Statment {
    type V = SpecStatment;

    open spec fn view(&self) -> SpecStatment {
        match self {
            Statment::TypeAssign(t) => SpecStatment::TypeAssign(t@),
            Statment::TypeDecl(t) => SpecStatment::TypeDecl(t@),
            Statment::Bind(b) => SpecStatment::Bind(b@),
        }
    }
}

/// A whole source file: its statements in order.
#[derive(Debug, PartialEq, Eq)]
pub struct Program {
    pub statements: Vec<Statment>,
}

pub struct SpecProgram {
    pub statements: Seq<SpecStatment>,
}

impl View for Program {
    type V = SpecProgram;

    open spec fn view(&self) -> SpecProgram {
        SpecProgram { statements: self.statements@.map_values(|s: Statment| s@) }
    }
}

impl Program {
    pub fn new(statements: Vec<Statment>) -> (r: Program)
        ensures
            r.statements == statements,
    {
        Program { statements }
    }
}

} // verus!
