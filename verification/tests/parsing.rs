use ruscaml::ast::{Ast, Bintype};
use ruscaml::lexer::lex;
use ruscaml::parser::{parse, ParseError};

fn chars(s: &str) -> Vec<char> {
    s.chars().collect()
}

fn parse_src(src: &str) -> Result<Ast, ParseError> {
    parse(lex(&chars(src)).expect("lex should succeed"))
}

fn b(a: Ast) -> Box<Ast> {
    Box::new(a)
}

#[test]
fn parse_precedence() {
    // * binds tighter than +
    assert_eq!(
        parse_src("1 + 2 * 3 ;;\n").unwrap(),
        Ast::Binop(
            Bintype::Plus,
            b(Ast::ILit(1)),
            b(Ast::Binop(Bintype::Mult, b(Ast::ILit(2)), b(Ast::ILit(3))))
        )
    );
}

#[test]
fn parse_let() {
    assert_eq!(
        parse_src("let x = 10 in x + x ;;\n").unwrap(),
        Ast::Let(
            "x".to_string(),
            b(Ast::ILit(10)),
            b(Ast::Binop(
                Bintype::Plus,
                b(Ast::Var("x".to_string())),
                b(Ast::Var("x".to_string()))
            ))
        )
    );
}

#[test]
fn parse_if_lt() {
    assert_eq!(
        parse_src("if 1 < 2 then 42 else 0 ;;\n").unwrap(),
        Ast::If(
            b(Ast::Binop(Bintype::Lt, b(Ast::ILit(1)), b(Ast::ILit(2)))),
            b(Ast::ILit(42)),
            b(Ast::ILit(0))
        )
    );
}

#[test]
fn parse_eq() {
    assert_eq!(
        parse_src("1 == 2 ;;\n").unwrap(),
        Ast::Binop(Bintype::Eq, b(Ast::ILit(1)), b(Ast::ILit(2)))
    );
}

#[test]
fn parse_let_rec() {
    // let rec binds a fun; the fun's parameter moves into the Rec node
    let ast = parse_src("let rec f = fun n -> n in f 1 ;;\n").unwrap();
    match ast {
        Ast::Rec(f, n, body, cont) => {
            assert_eq!(f, "f");
            assert_eq!(n, "n");
            assert_eq!(*body, Ast::Var("n".to_string()));
            assert_eq!(
                *cont,
                Ast::App(b(Ast::Var("f".to_string())), b(Ast::ILit(1)))
            );
        }
        other => panic!("expected Rec, got {:?}", other),
    }
}

#[test]
fn parse_application_left_assoc() {
    assert_eq!(
        parse_src("f a c ;;\n").unwrap(),
        Ast::App(
            b(Ast::App(
                b(Ast::Var("f".to_string())),
                b(Ast::Var("a".to_string()))
            )),
            b(Ast::Var("c".to_string()))
        )
    );
}

#[test]
fn parse_tuple_proj() {
    assert_eq!(
        parse_src("let p = (10, 20) in p.0 + p.1 ;;\n").unwrap(),
        Ast::Let(
            "p".to_string(),
            b(Ast::Tuple(b(Ast::ILit(10)), b(Ast::ILit(20)))),
            b(Ast::Binop(
                Bintype::Plus,
                b(Ast::Proj(b(Ast::Var("p".to_string())), 0)),
                b(Ast::Proj(b(Ast::Var("p".to_string())), 1))
            ))
        )
    );
}

#[test]
fn parse_loop_recur() {
    let ast = parse_src("loop x = 1 in recur 2 ;;\n").unwrap();
    assert_eq!(
        ast,
        Ast::Loop(
            "x".to_string(),
            b(Ast::ILit(1)),
            b(Ast::Recur(b(Ast::ILit(2))))
        )
    );
}

#[test]
fn parse_recur_outside_loop() {
    assert_eq!(parse_src("recur 1 ;;\n"), Err(ParseError::RecurPosition));
    // recur must also not hide in the bound expression of a loop
    assert_eq!(
        parse_src("loop x = recur 1 in x ;;\n"),
        Err(ParseError::RecurPosition)
    );
}

#[test]
fn parse_let_rec_not_fun() {
    assert_eq!(parse_src("let rec f = 3 in f ;;\n"), Err(ParseError::RecNotFun));
}

#[test]
fn parse_missing_terminator() {
    assert!(matches!(parse_src("1 + 2\n"), Err(ParseError::Unexpected(_))));
}

#[test]
fn parse_empty_expression() {
    assert!(matches!(parse_src(";;\n"), Err(ParseError::Unexpected(_))));
}

#[test]
fn parse_eof_mid_binding() {
    assert_eq!(parse_src("fun\n"), Err(ParseError::Eof));
}

#[test]
fn parse_recur_must_be_tail() {
    // inside a loop body, an operand position is not a tail position
    assert_eq!(
        parse_src("loop x = 1 in 1 + recur 2 ;;\n"),
        Err(ParseError::RecurPosition)
    );
    // a tail position under if branches and let bodies is fine
    assert!(parse_src("loop x = 1 in if x < 3 then recur (x + 1) else x ;;\n").is_ok());
    assert!(parse_src("loop x = 1 in let y = x + 1 in recur y ;;\n").is_ok());
    // a recur inside a fun body does not belong to the outer loop
    assert_eq!(
        parse_src("loop x = 1 in let rec f = fun n -> recur n in x ;;\n"),
        Err(ParseError::RecurPosition)
    );
}
