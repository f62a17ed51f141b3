use lang_parser::lexer::lexer;
use lang_parser::token::TokenKind;

fn kinds(src: &str) -> Vec<TokenKind> {
    lexer(src).iter().map(|t| t.kind).filter(|k| *k != TokenKind::Whitespace).collect()
}

#[test]
fn tokens_tile_the_source() {
    let src = "f (x : xs) = [a] -> 1.25 \"q\" % 3";
    let tokens = lexer(src);
    assert_eq!(tokens[0].span.start, 0);
    for w in tokens.windows(2) {
        assert_eq!(w[0].span.end, w[1].span.start);
        assert!(w[0].span.start < w[0].span.end);
    }
    let last = tokens.last().unwrap();
    assert_eq!(last.kind, TokenKind::Eof);
    assert_eq!((last.span.start, last.span.end), (src.chars().count(), src.chars().count()));
    assert_eq!(last.span.input, "");
    assert_eq!(tokens.iter().filter(|t| t.kind == TokenKind::Eof).count(), 1);
    let joined: String = tokens.iter().map(|t| t.span.input.clone()).collect();
    assert_eq!(joined, src);
}

#[test]
fn keywords_and_names() {
    assert_eq!(
        kinds("type let in if then else match true false _ name Name"),
        vec![
            TokenKind::Type,
            TokenKind::Let,
            TokenKind::In,
            TokenKind::If,
            TokenKind::Then,
            TokenKind::Else,
            TokenKind::Match,
            TokenKind::True,
            TokenKind::False,
            TokenKind::Underscore,
            TokenKind::Identifier,
            TokenKind::PCIdentifier,
            TokenKind::Eof,
        ]
    );
}

#[test]
fn symbols_read_longest_first() {
    assert_eq!(
        kinds(":: : == = != -> - + * / ^ % | ( ) [ ] , ; \\ ?"),
        vec![
            TokenKind::DoubleCollon,
            TokenKind::Colon,
            TokenKind::Eq,
            TokenKind::Assign,
            TokenKind::Neq,
            TokenKind::Arrow,
            TokenKind::Sub,
            TokenKind::Add,
            TokenKind::Mul,
            TokenKind::Div,
            TokenKind::Exp,
            TokenKind::Mod,
            TokenKind::Pipe,
            TokenKind::LParen,
            TokenKind::RParen,
            TokenKind::LBracket,
            TokenKind::RBracket,
            TokenKind::Comma,
            TokenKind::Semicolon,
            TokenKind::DoubleSlash,
            TokenKind::Unknown,
            TokenKind::Eof,
        ]
    );
}

#[test]
fn numbers_and_strings() {
    assert_eq!(
        kinds("42 3.5 7. \"ok\" \"open"),
        vec![
            TokenKind::Integer(42),
            TokenKind::Float,
            TokenKind::Integer(7),
            TokenKind::Unknown,
            TokenKind::String,
            TokenKind::Unknown,
            TokenKind::Eof,
        ]
    );
}

#[test]
fn integer_beyond_i64_is_unknown() {
    assert_eq!(kinds("9223372036854775807"), vec![TokenKind::Integer(i64::MAX), TokenKind::Eof]);
    assert_eq!(kinds("9223372036854775808"), vec![TokenKind::Unknown, TokenKind::Eof]);
}

#[test]
fn runs_of_blanks_are_one_token() {
    let tokens = lexer("a \t\n b");
    assert_eq!(tokens.len(), 4);
    assert_eq!(tokens[1].kind, TokenKind::Whitespace);
    assert_eq!(tokens[1].span.input, " \t\n ");
}
