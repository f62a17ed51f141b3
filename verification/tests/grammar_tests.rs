use lang_parser::ast::{BinOp, Bool, Expr, LiteralKind, Pattern, Statment, Type};
use lang_parser::error::{Error, ErrorKind};
use lang_parser::parser::Parser;

fn parse_ok(src: &str) -> Vec<Statment> {
    let mut p = Parser::new(src);
    match p.parse() {
        Ok(program) => program.statements,
        Err(e) => panic!("unexpected error: {:?}", e),
    }
}

fn parse_err(src: &str) -> Error {
    let mut p = Parser::new(src);
    match p.parse() {
        Ok(program) => panic!("unexpected success: {:?}", program),
        Err(e) => e,
    }
}

/// The expected words and the text of the token found.
fn expected_and_found(e: &Error) -> (String, String) {
    match &e.kind {
        ErrorKind::UnexpectedToken { expected, found } => {
            assert_eq!(*found, e.span);
            (expected.clone(), found.input.clone())
        }
    }
}

fn bound_expr(src: &str) -> Expr {
    let mut stmts = parse_ok(src);
    assert_eq!(stmts.len(), 1);
    match stmts.remove(0) {
        Statment::Bind(b) => b.expr,
        other => panic!("unexpected statement {:?}", other),
    }
}

fn assigned_type(src: &str) -> Type {
    let mut stmts = parse_ok(src);
    assert_eq!(stmts.len(), 1);
    match stmts.remove(0) {
        Statment::TypeAssign(t) => t.ty,
        other => panic!("unexpected statement {:?}", other),
    }
}

fn int_of(e: &Expr) -> i64 {
    match e {
        Expr::Literal(l) => match l.kind {
            LiteralKind::Integer(i) => i,
            ref other => panic!("unexpected literal {:?}", other),
        },
        other => panic!("unexpected expression {:?}", other),
    }
}

#[test]
fn new_parser_starts_at_the_first_token() {
    let p = Parser::new("x = 1");
    assert_eq!(p.current, 0);
    assert_eq!(p.content, "x = 1");
    assert_eq!(p.tokens.len(), 6);
    assert_eq!((p.current_span.start, p.current_span.end), (0, 0));
    assert_eq!(p.current_span.input, "");
}

#[test]
fn empty_source_is_an_empty_program() {
    assert!(parse_ok("").is_empty());
}

#[test]
fn application_lists_its_first_argument_twice() {
    match bound_expr("f = g 1") {
        Expr::App(app) => {
            assert_eq!(app.id.name, "g");
            assert_eq!(app.args.len(), 2);
            assert_eq!(int_of(&app.args[0]), 1);
            assert_eq!(int_of(&app.args[1]), 1);
            assert_eq!(app.span.input, "g 1");
        }
        other => panic!("unexpected expression {:?}", other),
    }
}

#[test]
fn constructor_name_is_an_id() {
    match bound_expr("x = Nothing") {
        Expr::Id(id) => assert_eq!(id.name, "Nothing"),
        other => panic!("unexpected expression {:?}", other),
    }
}

#[test]
fn type_application() {
    match assigned_type("x :: Maybe Int") {
        Type::App(id, args, sp) => {
            assert_eq!(id.name, "Maybe");
            assert_eq!(args.len(), 1);
            assert!(matches!(&args[0], Type::Id(i) if i.name == "Int"));
            assert_eq!(sp.input, "Maybe Int");
        }
        other => panic!("unexpected type {:?}", other),
    }
}

#[test]
fn function_type_keeps_every_right_hand_side() {
    match assigned_type("x :: a -> b -> c") {
        Type::Func(inner, rhs, sp) => {
            assert_eq!(sp.input, "a -> b -> c");
            assert_eq!(rhs.len(), 2);
            assert!(matches!(&rhs[0], Type::Generic(i) if i.name == "b"));
            assert!(matches!(&rhs[1], Type::Generic(i) if i.name == "c"));
            match *inner {
                Type::Func(lhs, rhs1, sp1) => {
                    assert!(matches!(*lhs, Type::Generic(ref i) if i.name == "a"));
                    assert_eq!(rhs1.len(), 1);
                    assert_eq!(sp1.input, "a -> b");
                }
                other => panic!("unexpected type {:?}", other),
            }
        }
        other => panic!("unexpected type {:?}", other),
    }
}

#[test]
fn empty_tuple_type() {
    match assigned_type("x :: ()") {
        Type::Tuple(items, sp) => {
            assert!(items.is_empty());
            assert_eq!(sp.input, "()");
        }
        other => panic!("unexpected type {:?}", other),
    }
}

#[test]
fn constructor_pattern_lists_its_first_type_twice() {
    let stmts = parse_ok("f Just a = a");
    match &stmts[0] {
        Statment::Bind(b) => {
            assert_eq!(b.args.len(), 1);
            match &b.args[0] {
                Pattern::App(id, types, sp) => {
                    assert_eq!(id.name, "Just");
                    assert_eq!(types.len(), 2);
                    assert!(matches!(&types[0], Type::Generic(i) if i.name == "a"));
                    assert!(matches!(&types[1], Type::Generic(i) if i.name == "a"));
                    assert_eq!(sp.input, "Just a");
                }
                other => panic!("unexpected pattern {:?}", other),
            }
        }
        other => panic!("unexpected statement {:?}", other),
    }
}

#[test]
fn list_cons_wildcard_and_literal_patterns() {
    let stmts = parse_ok("f x : xs _ 1 true = 0");
    match &stmts[0] {
        Statment::Bind(b) => {
            assert_eq!(b.args.len(), 4);
            match &b.args[0] {
                Pattern::ListCons(h, t, sp) => {
                    assert!(matches!(&**h, Pattern::Variable(i) if i.name == "x"));
                    assert!(matches!(&**t, Pattern::Variable(i) if i.name == "xs"));
                    assert_eq!(sp.input, "x : xs");
                }
                other => panic!("unexpected pattern {:?}", other),
            }
            assert!(matches!(&b.args[1], Pattern::Wildcard(sp) if sp.input == "_"));
            assert!(matches!(&b.args[2], Pattern::Literal(l) if l.kind == LiteralKind::Integer(1)));
            assert!(
                matches!(&b.args[3], Pattern::Literal(l) if l.kind == LiteralKind::Bool(Bool::True))
            );
            assert_eq!(int_of(&b.expr), 0);
            assert_eq!(b.span.input, "f x : xs _ 1 true = 0");
        }
        other => panic!("unexpected statement {:?}", other),
    }
}

#[test]
fn conditional_expression() {
    match bound_expr("x = if a then 1 else 2") {
        Expr::Condition(c, t, e, sp) => {
            assert!(matches!(*c, Expr::Identifier(ref i) if i.name == "a"));
            assert_eq!(int_of(&t), 1);
            assert_eq!(int_of(&e), 2);
            assert_eq!(sp.input, "if a then 1 else 2");
        }
        other => panic!("unexpected expression {:?}", other),
    }
}

#[test]
fn let_without_bindings() {
    match bound_expr("x = let in 5") {
        Expr::Let(binds, body, sp) => {
            assert!(binds.is_empty());
            assert_eq!(int_of(&body), 5);
            assert_eq!(sp.input, "let in 5");
        }
        other => panic!("unexpected expression {:?}", other),
    }
}

#[test]
fn let_binding_checks_the_token_after_the_next_for_a_semicolon() {
    let e = parse_err("x = let y = 1; in y");
    assert_eq!(expected_and_found(&e), ("Semicolon".to_string(), "in".to_string()));
}

#[test]
fn lambda_expression() {
    match bound_expr("f = \\x -> x + 1") {
        Expr::Lambda(pats, body, sp) => {
            assert_eq!(pats.len(), 1);
            assert!(matches!(&pats[0], Pattern::Variable(i) if i.name == "x"));
            assert!(matches!(*body, Expr::BinOp(BinOp::Add, _, _, _)));
            assert_eq!(sp.input, "\\x -> x + 1");
        }
        other => panic!("unexpected expression {:?}", other),
    }
}

#[test]
fn type_annotation_on_an_expression() {
    match bound_expr("x = 1 :: Int") {
        Expr::Ann(e, ty, sp) => {
            assert_eq!(int_of(&e), 1);
            assert!(matches!(ty, Type::Id(ref i) if i.name == "Int"));
            assert_eq!(sp.input, "1 :: Int");
        }
        other => panic!("unexpected expression {:?}", other),
    }
}

#[test]
fn exponent_groups_to_the_left() {
    match bound_expr("x = 2 ^ 3 ^ 4") {
        Expr::BinOp(BinOp::Exp, l, r, sp) => {
            assert_eq!(sp.input, "2 ^ 3 ^ 4");
            assert_eq!(int_of(&r), 4);
            match *l {
                Expr::BinOp(BinOp::Exp, a, b, sp1) => {
                    assert_eq!((int_of(&a), int_of(&b)), (2, 3));
                    assert_eq!(sp1.input, "2 ^ 3");
                }
                other => panic!("unexpected expression {:?}", other),
            }
        }
        other => panic!("unexpected expression {:?}", other),
    }
}

#[test]
fn equality_binds_tighter_than_multiplication() {
    match bound_expr("x = 1 * 2 == 3") {
        Expr::BinOp(BinOp::Mul, l, r, _) => {
            assert_eq!(int_of(&l), 1);
            assert!(matches!(*r, Expr::BinOp(BinOp::Eq, _, _, _)));
        }
        other => panic!("unexpected expression {:?}", other),
    }
}

#[test]
fn inequality_of_names() {
    match bound_expr("x = a != b") {
        Expr::BinOp(BinOp::Ineq, l, r, _) => {
            assert!(matches!(*l, Expr::Identifier(ref i) if i.name == "a"));
            assert!(matches!(*r, Expr::Identifier(ref i) if i.name == "b"));
        }
        other => panic!("unexpected expression {:?}", other),
    }
}

#[test]
fn subtraction_modulo_and_division() {
    match bound_expr("x = 7 - 4 % 3 / 2") {
        Expr::BinOp(BinOp::Sub, l, r, _) => {
            assert_eq!(int_of(&l), 7);
            match *r {
                Expr::BinOp(BinOp::Div, m, d, _) => {
                    assert!(matches!(*m, Expr::BinOp(BinOp::Mod, _, _, _)));
                    assert_eq!(int_of(&d), 2);
                }
                other => panic!("unexpected expression {:?}", other),
            }
        }
        other => panic!("unexpected expression {:?}", other),
    }
}

#[test]
fn parentheses_group() {
    match bound_expr("x = (1 + 2) * 3") {
        Expr::BinOp(BinOp::Mul, l, r, sp) => {
            assert!(matches!(*l, Expr::BinOp(BinOp::Add, _, _, ref s) if s.input == "1 + 2"));
            assert_eq!(int_of(&r), 3);
            assert_eq!(sp.input, "(1 + 2) * 3");
        }
        other => panic!("unexpected expression {:?}", other),
    }
}

#[test]
fn string_and_float_literals() {
    match bound_expr("x = \"hi\"") {
        Expr::Literal(l) => assert_eq!(l.kind, LiteralKind::String("hi".to_string())),
        other => panic!("unexpected expression {:?}", other),
    }
    match bound_expr("x = 2.5") {
        Expr::Literal(l) => assert_eq!(l.kind, LiteralKind::Float("2.5".to_string())),
        other => panic!("unexpected expression {:?}", other),
    }
}

#[test]
fn several_statements_in_order() {
    let src = "a = 1\nb :: Int\ntype T = A";
    let mut p = Parser::new(src);
    let program = p.parse().unwrap();
    assert_eq!(program.statements.len(), 3);
    let spans: Vec<(usize, usize, String)> = program
        .statements
        .iter()
        .map(|s| {
            let sp = match s {
                Statment::Bind(b) => &b.span,
                Statment::TypeAssign(t) => &t.span,
                Statment::TypeDecl(d) => &d.span,
            };
            (sp.start, sp.end, sp.input.clone())
        })
        .collect();
    assert_eq!(spans[0], (0, 5, "a = 1".to_string()));
    assert_eq!(spans[1], (6, 11, "b :: Int".to_string()));
    assert_eq!(spans[2], (12, 19, "type T = A".to_string()));
    // The parse stops at the closing end-of-input token.
    assert_eq!(p.current, p.tokens.len() - 1);
    assert_eq!(p.content, src);
}

#[test]
fn bool_is_no_primary_expression() {
    let e = parse_err("x = true");
    assert_eq!(expected_and_found(&e), ("primary expression".to_string(), "true".to_string()));
}

#[test]
fn declaration_needs_a_capitalised_name() {
    let e = parse_err("type x = A");
    assert_eq!(expected_and_found(&e), ("pascal case identifier".to_string(), "x".to_string()));
}

#[test]
fn variant_needs_a_capitalised_name() {
    let e = parse_err("type T = A | b");
    assert_eq!(expected_and_found(&e), ("pascal case identifier".to_string(), "b".to_string()));
}

#[test]
fn declaration_parameter_must_be_a_name() {
    let e = parse_err("type T 1 = A");
    assert_eq!(expected_and_found(&e), ("identifier".to_string(), "1".to_string()));
}

#[test]
fn missing_type() {
    let e = parse_err("x :: ->");
    assert_eq!(expected_and_found(&e), ("type".to_string(), "->".to_string()));
}

#[test]
fn unclosed_parenthesis_reports_the_end() {
    let e = parse_err("x = (1");
    assert_eq!(expected_and_found(&e), ("RParen".to_string(), "".to_string()));
    assert_eq!((e.span.start, e.span.end), (6, 6));
}

#[test]
fn conditional_without_then() {
    let e = parse_err("x = if 1 2");
    assert_eq!(expected_and_found(&e), ("Then".to_string(), "2".to_string()));
}

#[test]
fn conditional_without_else() {
    let e = parse_err("x = if 1 then 2 3");
    assert_eq!(expected_and_found(&e), ("Else".to_string(), "3".to_string()));
}

#[test]
fn pattern_cannot_start_with_a_parenthesis() {
    let e = parse_err("f ) = x");
    assert_eq!(expected_and_found(&e), ("pattern".to_string(), ")".to_string()));
}

#[test]
fn lambda_without_arrow() {
    let e = parse_err("f = \\x");
    assert_eq!(expected_and_found(&e), ("pattern".to_string(), "".to_string()));
}

#[test]
fn tuple_type_checks_the_token_after_the_next_for_a_comma() {
    let e = parse_err("x :: (Int, Bool)");
    assert_eq!(expected_and_found(&e), ("Comma".to_string(), "Bool".to_string()));
}

#[test]
fn list_type_checks_the_token_after_the_next_for_a_bracket() {
    let e = parse_err("x :: [Int]");
    assert_eq!(expected_and_found(&e), ("RBracket".to_string(), "".to_string()));
}

#[test]
fn match_checks_the_token_after_the_next_for_in() {
    let e = parse_err("x = match y in | 1 -> 2");
    assert_eq!(expected_and_found(&e), ("In".to_string(), "|".to_string()));
}

#[test]
fn failed_parse_stops_on_the_reported_token() {
    for src in ["x = (1", "type T = A | b", "x :: (Int, Bool)", "f ) = x", "x = if 1 2"] {
        let mut p = Parser::new(src);
        let e = p.parse().unwrap_err();
        assert!(p.current < p.tokens.len());
        assert_eq!(p.tokens[p.current].span, e.span);
        match &e.kind {
            ErrorKind::UnexpectedToken { found, .. } => assert_eq!(*found, e.span),
        }
    }
}

#[test]
fn parsing_again_after_success_is_empty() {
    let mut p = Parser::new("a = 1\nb = 2");
    let first = p.parse().unwrap();
    assert_eq!(first.statements.len(), 2);
    let at = p.current;
    assert_eq!(at, p.tokens.len() - 1);
    let second = p.parse().unwrap();
    assert!(second.statements.is_empty());
    assert_eq!(p.current, at);
}

#[test]
fn statement_spans_are_slices_of_the_source() {
    let src = "f x = x * 2\ng :: Int -> Int\ntype Pair a = P a a";
    let mut p = Parser::new(src);
    let program = p.parse().unwrap();
    let mut last_end = 0;
    for s in &program.statements {
        let sp = match s {
            Statment::Bind(b) => &b.span,
            Statment::TypeAssign(t) => &t.span,
            Statment::TypeDecl(d) => &d.span,
        };
        assert!(last_end <= sp.start && sp.start < sp.end);
        last_end = sp.end;
        let from = p.tokens[sp.start].span.start;
        let to = p.tokens[sp.end].span.start;
        let slice: String = src.chars().skip(from).take(to - from).collect();
        assert_eq!(sp.input, slice);
    }
    assert_eq!(program.statements.len(), 3);
}
