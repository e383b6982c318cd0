use ruscaml::lexer::{lex, preprocess, LexError, TokenType};

fn chars(s: &str) -> Vec<char> {
    s.chars().collect()
}

fn types_of(src: &str) -> Vec<TokenType> {
    let ts = lex(&chars(src)).expect("lex should succeed");
    ts.tokens.iter().map(|t| t.tokentype).collect()
}

#[test]
fn lex_arith() {
    assert_eq!(
        types_of("1 + 2 * 3 ;;\n"),
        vec![
            TokenType::ILit,
            TokenType::Plus,
            TokenType::ILit,
            TokenType::Mult,
            TokenType::ILit,
            TokenType::Semisemi
        ]
    );
    let ts = lex(&chars("10 + 20 ;;\n")).unwrap();
    assert_eq!(ts.pos, 0);
    assert_eq!(ts.tokens[0].num, 10);
    assert_eq!(ts.tokens[2].num, 20);
}

#[test]
fn lex_keywords_and_ids() {
    assert_eq!(
        types_of("let rec f = fun n -> n in f 1 ;;\n"),
        vec![
            TokenType::Let,
            TokenType::Rec,
            TokenType::Id,
            TokenType::Assign,
            TokenType::Fun,
            TokenType::Id,
            TokenType::Arrow,
            TokenType::Id,
            TokenType::In,
            TokenType::Id,
            TokenType::ILit,
            TokenType::Semisemi
        ]
    );
    let ts = lex(&chars("foo_bar' ;;\n")).unwrap();
    assert_eq!(ts.tokens[0].id.as_deref(), Some("foo_bar'"));
}

#[test]
fn lex_signs() {
    assert_eq!(
        types_of("(a, b) < c == d . ;;\n"),
        vec![
            TokenType::Lbrac,
            TokenType::Id,
            TokenType::Comma,
            TokenType::Id,
            TokenType::Rbrac,
            TokenType::Lt,
            TokenType::Id,
            TokenType::Eq,
            TokenType::Id,
            TokenType::Dot,
            TokenType::Semisemi
        ]
    );
}

#[test]
fn lex_comments_nest() {
    assert_eq!(
        types_of("(* hi (* nested *) bye *)1;;\n"),
        vec![TokenType::ILit, TokenType::Semisemi]
    );
}

#[test]
fn lex_line_positions() {
    let ts = lex(&chars("a\nb ;;\n")).unwrap();
    assert_eq!(ts.tokens[0].position, (true, 1, 0));
    assert_eq!(ts.tokens[1].position, (true, 2, 2));
    assert_eq!(ts.tokens[2].position, (false, 2, 4));
}

#[test]
fn lex_unknown_char() {
    assert_eq!(lex(&chars("?;;\n")), Err(LexError::UnknownChar(0)));
}

#[test]
fn lex_unclosed_comment() {
    assert!(matches!(
        lex(&chars("(* oops ;;\n")),
        Err(LexError::UnclosedComment(_))
    ));
}

#[test]
fn lex_huge_number() {
    assert!(matches!(
        lex(&chars("99999999999 ;;\n")),
        Err(LexError::NumberTooLarge(_))
    ));
    // the largest literal that fits goes through
    let ts = lex(&chars("2147483647 ;;\n")).unwrap();
    assert_eq!(ts.tokens[0].num, i32::MAX);
}

#[test]
fn preprocess_expect() {
    let out = preprocess(&chars("EXPECT(1 + 2 => 3)")).unwrap();
    let text: String = out.iter().collect();
    assert_eq!(text, "let pg = 1 + 2 in if pg == 3 then 0 else pg;;");
}

#[test]
fn preprocess_leaves_plain_sources() {
    let src = "let x = 1 in x ;;\n";
    let out = preprocess(&chars(src)).unwrap();
    let text: String = out.iter().collect();
    assert_eq!(text, src);
}

#[test]
fn preprocess_bad_header() {
    assert!(matches!(
        preprocess(&chars("EXPECT(1 + 2 -> 3)")),
        Err(LexError::BadExpectHeader(_))
    ));
}

#[test]
fn lex_expect_whole() {
    // the rewritten self-checking program tokenizes as a let binding
    let tys = types_of("EXPECT(4 => 4)");
    assert_eq!(tys[0], TokenType::Let);
    assert_eq!(*tys.last().unwrap(), TokenType::Semisemi);
}

#[test]
fn preprocess_keeps_whole_expression() {
    // the expression's final characters stay in the rewrite
    let out = preprocess(&chars("EXPECT(1 + 22 => 23)")).unwrap();
    let text: String = out.iter().collect();
    assert_eq!(text, "let pg = 1 + 22 in if pg == 23 then 0 else pg;;");
}
