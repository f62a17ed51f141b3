use lang_parser::ast::{BinOp, Expr, LiteralKind, Statment, Type};
use lang_parser::error::ErrorKind;
use lang_parser::lexer::lexer;
use lang_parser::parser::Parser;
use lang_parser::token::TokenKind;

fn parse_ok(src: &str) -> Vec<Statment> {
    let mut p = Parser::new(src);
    match p.parse() {
        Ok(program) => program.statements,
        Err(e) => panic!("unexpected error: {:?}", e),
    }
}

#[test]
fn type_assignment() {
    let stmts = parse_ok("x :: Int");
    assert_eq!(stmts.len(), 1);
    match &stmts[0] {
        Statment::TypeAssign(t) => {
            assert_eq!(t.id.name, "x");
            match &t.ty {
                Type::Id(id) => assert_eq!(id.name, "Int"),
                other => panic!("unexpected type {:?}", other),
            }
            assert_eq!(t.span.input, "x :: Int");
            assert_eq!((t.span.start, t.span.end), (0, 5));
        }
        other => panic!("unexpected statement {:?}", other),
    }
}

#[test]
fn binding_of_a_literal() {
    let stmts = parse_ok("x = 1");
    match &stmts[0] {
        Statment::Bind(b) => {
            assert_eq!(b.id.name, "x");
            assert!(b.args.is_empty());
            match &b.expr {
                Expr::Literal(l) => assert_eq!(l.kind, LiteralKind::Integer(1)),
                other => panic!("unexpected expression {:?}", other),
            }
        }
        other => panic!("unexpected statement {:?}", other),
    }
}

#[test]
fn multiplication_binds_tighter_than_addition() {
    let stmts = parse_ok("x = 1 + 2 * 3");
    let e = match &stmts[0] {
        Statment::Bind(b) => &b.expr,
        other => panic!("unexpected statement {:?}", other),
    };
    match e {
        Expr::BinOp(BinOp::Add, l, r, sp) => {
            assert!(matches!(**l, Expr::Literal(_)));
            assert!(matches!(**r, Expr::BinOp(BinOp::Mul, _, _, _)));
            assert_eq!(sp.input, "1 + 2 * 3");
        }
        other => panic!("unexpected expression {:?}", other),
    }
}

#[test]
fn type_declaration() {
    let stmts = parse_ok("type Maybe a = Just a | Nothing");
    match &stmts[0] {
        Statment::TypeDecl(d) => {
            assert_eq!(d.id.name, "Maybe");
            assert_eq!(d.params.len(), 1);
            assert_eq!(d.params[0].name, "a");
            assert_eq!(d.variants.len(), 2);
            assert_eq!(d.variants[0].id.name, "Just");
            assert_eq!(d.variants[0].types.len(), 1);
            assert_eq!(d.variants[1].id.name, "Nothing");
            assert!(d.variants[1].types.is_empty());
        }
        other => panic!("unexpected statement {:?}", other),
    }
}

#[test]
fn unexpected_token_is_reported() {
    let mut p = Parser::new("x = )");
    let e = p.parse().unwrap_err();
    match e.kind {
        ErrorKind::UnexpectedToken { expected, found } => {
            assert_eq!(expected, "primary expression");
            assert_eq!(found.input, ")");
        }
    }
}

#[test]
fn lexer_keeps_every_character() {
    let src = "type T a = A a | B\nf x = 1 + 2.5 * \"s\"";
    let tokens = lexer(src);
    let joined: String = tokens.iter().map(|t| t.span.input.clone()).collect();
    assert_eq!(joined, src);
    assert_eq!(tokens.last().unwrap().kind, TokenKind::Eof);
}
