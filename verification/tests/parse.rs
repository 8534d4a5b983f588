use lispc::ast::{parse, BinPrim, Expr, UnPrim};

#[test]
fn test_parse_single_expressions() {
    assert_eq!(parse("42"), Ok(vec![Expr::Num(42)]));
    assert_eq!(parse("x"), Ok(vec![Expr::Id("x".to_string())]));
    assert_eq!(parse("true"), Ok(vec![Expr::True]));
    assert_eq!(parse("false"), Ok(vec![Expr::False]));
    assert_eq!(parse("()"), Ok(vec![Expr::Nil]));
    assert_eq!(
        parse("(add1 5)"),
        Ok(vec![Expr::UnPrim(UnPrim::Add1, Box::new(Expr::Num(5)))])
    );
    assert_eq!(
        parse("(+ 3 4)"),
        Ok(vec![Expr::BinPrim(
            BinPrim::Plus,
            Box::new(Expr::Num(3)),
            Box::new(Expr::Num(4))
        )])
    );
}

#[test]
fn test_parse_if_expr() {
    assert_eq!(
        parse("(if true 1 2)"),
        Ok(vec![Expr::If(
            Box::new(Expr::True),
            Box::new(Expr::Num(1)),
            Box::new(Expr::Num(2))
        )])
    );
}

#[test]
fn test_parse_let_expr() {
    assert_eq!(
        parse("(let ((x 1) (y 2)) (+ x y))"),
        Ok(vec![Expr::Let(
            vec![
                ("x".to_string(), Box::new(Expr::Num(1))),
                ("y".to_string(), Box::new(Expr::Num(2)))
            ],
            Box::new(Expr::BinPrim(
                BinPrim::Plus,
                Box::new(Expr::Id("x".to_string())),
                Box::new(Expr::Id("y".to_string()))
            ))
        )])
    );
}

#[test]
fn test_parse_do_expr() {
    assert_eq!(
        parse("(do 1 2 3)"),
        Ok(vec![Expr::Do(vec![
            Expr::Num(1),
            Expr::Num(2),
            Expr::Num(3)
        ])])
    );
}

#[test]
fn test_parse_multiple_expressions() {
    assert_eq!(
        parse("42 x true"),
        Ok(vec![Expr::Num(42), Expr::Id("x".to_string()), Expr::True])
    );
}

#[test]
fn test_parse_with_whitespace() {
    assert_eq!(
        parse("  42  \n  x  \t true  "),
        Ok(vec![Expr::Num(42), Expr::Id("x".to_string()), Expr::True])
    );
}

#[test]
fn test_parse_empty_input() {
    assert_eq!(parse(""), Ok(vec![]));
    assert_eq!(parse("   \n  \t  "), Ok(vec![]));
}

#[test]
fn test_parse_invalid_input() {
    assert!(parse("@").is_err());
    assert!(parse("42 @ true").is_err());
}
