//! Turning source text into tokens.
//!
//! Tokens are read longest-first from left to right; every character of the
//! source belongs to exactly one token, so the tokens' texts put together
//! give the source back. An `Eof` token with an empty span closes the list.
use vstd::prelude::*;
use vstd::string::*;
use crate::ast::{Span, SpecSpan};
use crate::token::{SpecToken, Token, TokenKind, tokens_view};

verus! {

broadcast use vstd::string::group_string_axioms;

pub open spec fn is_blank(ch: char) -> bool {
    ch == ' ' || ch == '\t' || ch == '\n' || ch == '\r'
}

pub open spec fn is_digit(ch: char) -> bool {
    '0' <= ch <= '9'
}

pub open spec fn is_upper(ch: char) -> bool {
    'A' <= ch <= 'Z'
}

pub open spec fn is_word_start(ch: char) -> bool {
    'a' <= ch <= 'z' || is_upper(ch) || ch == '_'
}

pub open spec fn is_word_char(ch: char) -> bool {
    is_word_start(ch) || is_digit(ch)
}

/// The classes of characters that make up the longer tokens.
pub enum CharClass {
    Blank,
    Word,
    Digit,
    NotQuote,
}

pub open spec fn in_class(ch: char, cls: CharClass) -> bool {
    match cls {
        CharClass::Blank => is_blank(ch),
        CharClass::Word => is_word_char(ch),
        CharClass::Digit => is_digit(ch),
        CharClass::NotQuote => ch != '"',
    }
}

/// The end of the run of characters of class `cls` that starts at `i`.
pub open spec fn run_end(c: Seq<char>, i: int, cls: CharClass) -> int
    decreases c.len() - i,
{
    if 0 <= i < c.len() && in_class(c[i], cls) {
        run_end(c, i + 1, cls)
    } else {
        i
    }
}

/// Whether the two characters at `i` form one of the two-character symbols.
pub open spec fn is_pair(c: Seq<char>, i: int) -> bool {
    i + 1 < c.len() && {
        let (a, b) = (c[i], c[i + 1]);
        (a == ':' && b == ':') || (a == '=' && b == '=') || (a == '!' && b == '=') || (a == '-' && b
            == '>')
    }
}

/// The end of the token that starts at `i`, reading as far as it goes.
pub open spec fn token_end_at(c: Seq<char>, i: int) -> int {
    let ch = c[i];
    if is_blank(ch) {
        run_end(c, i, CharClass::Blank)
    } else if is_word_start(ch) {
        run_end(c, i, CharClass::Word)
    } else if is_digit(ch) {
        let j = run_end(c, i, CharClass::Digit);
        if j < c.len() - 1 && c[j] == '.' && is_digit(c[j + 1]) {
            run_end(c, j + 1, CharClass::Digit)
        } else {
            j
        }
    } else if ch == '"' {
        let k = run_end(c, i + 1, CharClass::NotQuote);
        if k < c.len() {
            k + 1
        } else {
            k
        }
    } else if is_pair(c, i) {
        i + 2
    } else {
        i + 1
    }
}

/// The value of a run of decimal digits.
pub open spec fn digits_value(w: Seq<char>) -> int
    decreases w.len(),
{
    if w.len() == 0 {
        0
    } else {
        digits_value(w.drop_last()) * 10 + (w.last() as int - '0' as int)
    }
}

/// The kind of a word: a keyword, `_`, or a name.
pub open spec fn word_kind(w: Seq<char>) -> TokenKind {
    if w == "type"@ {
        TokenKind::Type
    } else if w == "let"@ {
        TokenKind::Let
    } else if w == "in"@ {
        TokenKind::In
    } else if w == "if"@ {
        TokenKind::If
    } else if w == "then"@ {
        TokenKind::Then
    } else if w == "else"@ {
        TokenKind::Else
    } else if w == "match"@ {
        TokenKind::Match
    } else if w == "true"@ {
        TokenKind::True
    } else if w == "false"@ {
        TokenKind::False
    } else if w == "_"@ {
        TokenKind::Underscore
    } else if is_upper(w[0]) {
        TokenKind::PCIdentifier
    } else {
        TokenKind::Identifier
    }
}

/// The kind of a one- or two-character symbol.
pub open spec fn symbol_kind(w: Seq<char>) -> TokenKind {
    if w.len() == 2 {
        if w[0] == ':' {
            TokenKind::DoubleCollon
        } else if w[0] == '=' {
            TokenKind::Eq
        } else if w[0] == '!' {
            TokenKind::Neq
        } else {
            TokenKind::Arrow
        }
    } else {
        let ch = w[0];
        if ch == ':' {
            TokenKind::Colon
        } else if ch == '=' {
            TokenKind::Assign
        } else if ch == '+' {
            TokenKind::Add
        } else if ch == '-' {
            TokenKind::Sub
        } else if ch == '*' {
            TokenKind::Mul
        } else if ch == '/' {
            TokenKind::Div
        } else if ch == '^' {
            TokenKind::Exp
        } else if ch == '%' {
            TokenKind::Mod
        } else if ch == '|' {
            TokenKind::Pipe
        } else if ch == '(' {
            TokenKind::LParen
        } else if ch == ')' {
            TokenKind::RParen
        } else if ch == '[' {
            TokenKind::LBracket
        } else if ch == ']' {
            TokenKind::RBracket
        } else if ch == ',' {
            TokenKind::Comma
        } else if ch == ';' {
            TokenKind::Semicolon
        } else if ch == '\\' {
            TokenKind::DoubleSlash
        } else {
            TokenKind::Unknown
        }
    }
}

/// The kind of the token whose text is `w` (never empty).
pub open spec fn kind_of_text(w: Seq<char>) -> TokenKind {
    let ch = w[0];
    if is_blank(ch) {
        TokenKind::Whitespace
    } else if is_word_start(ch) {
        word_kind(w)
    } else if is_digit(ch) {
        if w.contains('.') {
            TokenKind::Float
        } else if digits_value(w) <= i64::MAX {
            TokenKind::Integer(digits_value(w) as i64)
        } else {
            TokenKind::Unknown
        }
    } else if ch == '"' {
        if w.len() >= 2 && w.last() == '"' {
            TokenKind::String
        } else {
            TokenKind::Unknown
        }
    } else {
        symbol_kind(w)
    }
}

pub proof fn lemma_run_end(c: Seq<char>, i: int, cls: CharClass)
    requires
        0 <= i <= c.len(),
    ensures
        i <= run_end(c, i, cls) <= c.len(),
        forall|j: int| i <= j < run_end(c, i, cls) ==> in_class(#[trigger] c[j], cls),
        run_end(c, i, cls) < c.len() ==> !in_class(c[run_end(c, i, cls)], cls),
    decreases c.len() - i,
{
    if 0 <= i < c.len() && in_class(c[i], cls) {
        lemma_run_end(c, i + 1, cls);
    }
}

pub proof fn lemma_token_end(c: Seq<char>, i: int)
    requires
        0 <= i < c.len(),
    ensures
        i < token_end_at(c, i) <= c.len(),
{
    lemma_run_end(c, i, CharClass::Blank);
    lemma_run_end(c, i, CharClass::Word);
    lemma_run_end(c, i, CharClass::Digit);
    lemma_run_end(c, i + 1, CharClass::NotQuote);
    let j = run_end(c, i, CharClass::Digit);
    if j + 1 < c.len() {
        lemma_run_end(c, j + 1, CharClass::Digit);
    }
}

/// The token that starts at `i` and ends at `e`.
pub open spec fn token_at(c: Seq<char>, i: int, e: int) -> SpecToken {
    SpecToken {
        kind: kind_of_text(c.subrange(i, e)),
        span: SpecSpan { start: i as usize, end: e as usize, input: c.subrange(i, e) },
    }
}

/// The tokens of `c` from position `i` on, closed by `Eof`.
pub open spec fn lex_from(c: Seq<char>, i: int) -> Seq<SpecToken>
    decreases c.len() - i,
{
    if i < 0 || i >= c.len() {
        seq![
            SpecToken {
                kind: TokenKind::Eof,
                span: SpecSpan { start: c.len() as usize, end: c.len() as usize, input: Seq::empty() },
            },
        ]
    } else {
        let e = token_end_at(c, i);
        proof {
            lemma_token_end(c, i);
        }
        seq![token_at(c, i, e)] + lex_from(c, e)
    }
}

/// The tokens of a whole source text.
pub open spec fn lex(c: Seq<char>) -> Seq<SpecToken> {
    lex_from(c, 0)
}


/// The characters of `s`, in order.
fn chars_of(s: &str) -> (r: Vec<char>)
    ensures
        r@ == s@,
{
    let mut out: Vec<char> = Vec::new();
    for c in it: s.chars()
        invariant
            out@ == it.seq().take(it.index() as int),
    {
        out.push(c);
    }
    out
}

fn char_in_class(ch: char, cls: &CharClass) -> (r: bool)
    ensures
        r == in_class(ch, *cls),
{
    match cls {
        CharClass::Blank => ch == ' ' || ch == '\t' || ch == '\n' || ch == '\r',
        CharClass::Word => ('a' <= ch && ch <= 'z') || ('A' <= ch && ch <= 'Z') || ch == '_' || (
        '0' <= ch && ch <= '9'),
        CharClass::Digit => '0' <= ch && ch <= '9',
        CharClass::NotQuote => ch != '"',
    }
}

fn scan_run(c: &Vec<char>, i: usize, cls: CharClass) -> (r: usize)
    requires
        i <= c.len(),
    ensures
        r == run_end(c@, i as int, cls),
{
    let mut j = i;
    while j < c.len() && char_in_class(c[j], &cls)
        invariant
            i <= j <= c.len(),
            run_end(c@, j as int, cls) == run_end(c@, i as int, cls),
        decreases c.len() - j,
    {
        j += 1;
    }
    j
}

/// The end of the token that starts at `i`.
fn token_end(c: &Vec<char>, i: usize) -> (r: usize)
    requires
        i < c.len(),
    ensures
        r == token_end_at(c@, i as int),
{
    proof {
        lemma_token_end(c@, i as int);
    }
    let ch = c[i];
    if ch == ' ' || ch == '\t' || ch == '\n' || ch == '\r' {
        scan_run(c, i, CharClass::Blank)
    } else if ('a' <= ch && ch <= 'z') || ('A' <= ch && ch <= 'Z') || ch == '_' {
        scan_run(c, i, CharClass::Word)
    } else if '0' <= ch && ch <= '9' {
        let j = scan_run(c, i, CharClass::Digit);
        proof {
            lemma_run_end(c@, i as int, CharClass::Digit);
        }
        if j < c.len() - 1 && c[j] == '.' && '0' <= c[j + 1] && c[j + 1] <= '9' {
            scan_run(c, j + 1, CharClass::Digit)
        } else {
            j
        }
    } else if ch == '"' {
        let k = scan_run(c, i + 1, CharClass::NotQuote);
        proof {
            lemma_run_end(c@, i + 1, CharClass::NotQuote);
        }
        if k < c.len() {
            k + 1
        } else {
            k
        }
    } else if i + 1 < c.len() && ((ch == ':' && c[i + 1] == ':') || (ch == '=' && c[i + 1] == '=')
        || (ch == '!' && c[i + 1] == '=') || (ch == '-' && c[i + 1] == '>')) {
        i + 2
    } else {
        i + 1
    }
}

proof fn lemma_digits_value_push(w: Seq<char>, d: char)
    ensures
        digits_value(w.push(d)) == digits_value(w) * 10 + (d as int - '0' as int),
{
    assert(w.push(d).drop_last() == w);
}

proof fn lemma_digits_value_nonneg(w: Seq<char>)
    requires
        forall|j: int| 0 <= j < w.len() ==> is_digit(#[trigger] w[j]),
    ensures
        digits_value(w) >= 0,
    decreases w.len(),
{
    if w.len() > 0 {
        lemma_digits_value_nonneg(w.drop_last());
    }
}

/// A digit run that already exceeds `i64::MAX` only grows as it goes on.
proof fn lemma_digits_value_grows(w: Seq<char>, k: int)
    requires
        0 <= k <= w.len(),
        forall|j: int| 0 <= j < w.len() ==> is_digit(#[trigger] w[j]),
    ensures
        digits_value(w.subrange(0, k)) <= digits_value(w),
    decreases w.len() - k,
{
    if k < w.len() {
        lemma_digits_value_grows(w, k + 1);
        lemma_digits_value_push(w.subrange(0, k), w[k]);
        assert(w.subrange(0, k + 1) == w.subrange(0, k).push(w[k]));
        lemma_digits_value_nonneg(w.subrange(0, k));
    } else {
        assert(w.subrange(0, k) == w);
    }
}

/// The value of the digits `c[i..e]`, where it fits an `i64`.
fn digits_to_i64(c: &Vec<char>, i: usize, e: usize) -> (r: Option<i64>)
    requires
        i <= e <= c.len(),
        forall|j: int| i <= j < e ==> is_digit(#[trigger] c@[j]),
    ensures
        match r {
            Some(v) => v == digits_value(c@.subrange(i as int, e as int)),
            None => digits_value(c@.subrange(i as int, e as int)) > i64::MAX,
        },
{
    let ghost w = c@.subrange(i as int, e as int);
    let mut v: i64 = 0;
    let mut k = i;
    while k < e
        invariant
            i <= k <= e <= c.len(),
            w == c@.subrange(i as int, e as int),
            forall|j: int| i <= j < e ==> is_digit(#[trigger] c@[j]),
            0 <= v,
            v == digits_value(c@.subrange(i as int, k as int)),
        decreases e - k,
    {
        let d = (c[k] as u32 - '0' as u32) as i64;
        proof {
            lemma_digits_value_push(c@.subrange(i as int, k as int), c@[k as int]);
            assert(c@.subrange(i as int, k + 1) == c@.subrange(i as int, k as int).push(c@[k as int]));
        }
        if v > (i64::MAX - d) / 10 {
            proof {
                assert(c@.subrange(i as int, k + 1) == w.subrange(0, k + 1 - i));
                lemma_digits_value_grows(w, k + 1 - i);
            }
            return None;
        }
        v = v * 10 + d;
        k += 1;
    }
    Some(v)
}

/// The kind of the token `c[i..e]`; `text` is that token's text.
fn token_kind(c: &Vec<char>, i: usize, e: usize, text: &String) -> (r: TokenKind)
    requires
        i < e <= c.len(),
        e == token_end_at(c@, i as int),
        text@ == c@.subrange(i as int, e as int),
    ensures
        r == kind_of_text(c@.subrange(i as int, e as int)),
{
    let ghost w = c@.subrange(i as int, e as int);
    assert(w[0] == c@[i as int]);
    let ch = c[i];
    if ch == ' ' || ch == '\t' || ch == '\n' || ch == '\r' {
        TokenKind::Whitespace
    } else if ('a' <= ch && ch <= 'z') || ('A' <= ch && ch <= 'Z') || ch == '_' {
        if *text == String::from_str("type") {
            TokenKind::Type
        } else if *text == String::from_str("let") {
            TokenKind::Let
        } else if *text == String::from_str("in") {
            TokenKind::In
        } else if *text == String::from_str("if") {
            TokenKind::If
        } else if *text == String::from_str("then") {
            TokenKind::Then
        } else if *text == String::from_str("else") {
            TokenKind::Else
        } else if *text == String::from_str("match") {
            TokenKind::Match
        } else if *text == String::from_str("true") {
            TokenKind::True
        } else if *text == String::from_str("false") {
            TokenKind::False
        } else if *text == String::from_str("_") {
            TokenKind::Underscore
        } else if 'A' <= ch && ch <= 'Z' {
            TokenKind::PCIdentifier
        } else {
            TokenKind::Identifier
        }
    } else if '0' <= ch && ch <= '9' {
        let j = scan_run(c, i, CharClass::Digit);
        proof {
            lemma_run_end(c@, i as int, CharClass::Digit);
        }
        if j < e {
            proof {
                assert(c@[j as int] == '.');
                assert(w[j - i] == '.');
            }
            TokenKind::Float
        } else {
            proof {
                assert forall|x: int| 0 <= x < w.len() implies w[x] != '.' by {
                    assert(is_digit(c@[i + x]));
                }
            }
            match digits_to_i64(c, i, e) {
                Some(v) => TokenKind::Integer(v),
                None => TokenKind::Unknown,
            }
        }
    } else if ch == '"' {
        if e - i >= 2 && c[e - 1] == '"' {
            TokenKind::String
        } else {
            TokenKind::Unknown
        }
    } else if e - i == 2 {
        let a = c[i];
        if a == ':' {
            TokenKind::DoubleCollon
        } else if a == '=' {
            TokenKind::Eq
        } else if a == '!' {
            TokenKind::Neq
        } else {
            TokenKind::Arrow
        }
    } else if ch == ':' {
        TokenKind::Colon
    } else if ch == '=' {
        TokenKind::Assign
    } else if ch == '+' {
        TokenKind::Add
    } else if ch == '-' {
        TokenKind::Sub
    } else if ch == '*' {
        TokenKind::Mul
    } else if ch == '/' {
        TokenKind::Div
    } else if ch == '^' {
        TokenKind::Exp
    } else if ch == '%' {
        TokenKind::Mod
    } else if ch == '|' {
        TokenKind::Pipe
    } else if ch == '(' {
        TokenKind::LParen
    } else if ch == ')' {
        TokenKind::RParen
    } else if ch == '[' {
        TokenKind::LBracket
    } else if ch == ']' {
        TokenKind::RBracket
    } else if ch == ',' {
        TokenKind::Comma
    } else if ch == ';' {
        TokenKind::Semicolon
    } else if ch == '\\' {
        TokenKind::DoubleSlash
    } else {
        TokenKind::Unknown
    }
}

/// The tokens of `content`: read longest-first from the left, closed by `Eof`.
pub fn lexer(content: &str) -> (r: Vec<Token>)
    ensures
        tokens_view(r@) == lex(content@),
{
    let c = chars_of(content);
    let n = c.len();
    let mut tokens: Vec<Token> = Vec::new();
    let mut i: usize = 0;
    while i < n
        invariant
            c@ == content@,
            n == c.len(),
            i <= n,
            tokens_view(tokens@) + lex_from(c@, i as int) == lex(c@),
        decreases n - i,
    {
        let e = token_end(&c, i);
        proof {
            lemma_token_end(c@, i as int);
        }
        let text = String::from_str(content.substring_char(i, e));
        let kind = token_kind(&c, i, e, &text);
        let ghost before = tokens@;
        let t = Token::new(kind, Span::new(i, e, text));
        tokens.push(t);
        proof {
            assert(tokens_view(tokens@) == tokens_view(before).push(t@));
            assert(t@ == token_at(c@, i as int, e as int));
            assert(lex_from(c@, i as int) == seq![token_at(c@, i as int, e as int)] + lex_from(c@, e as int));
            assert(tokens_view(tokens@) + lex_from(c@, e as int) =~= tokens_view(before) + lex_from(c@, i as int));
        }
        i = e;
    }
    let ghost before = tokens@;
    let t = Token::new(TokenKind::Eof, Span::new(n, n, String::new()));
    tokens.push(t);
    proof {
        assert(tokens_view(tokens@) =~= tokens_view(before).push(t@));
        assert(tokens_view(tokens@) =~= tokens_view(before) + lex_from(c@, n as int));
    }
    tokens
}

} // verus!
