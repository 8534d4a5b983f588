use lispc::ast::{parse, BinPrim, Expr, UnPrim};

fn num(n: i64) -> Box<Expr> {
    Box::new(Expr::Num(n))
}

fn id(name: &str) -> Box<Expr> {
    Box::new(Expr::Id(name.to_string()))
}

fn one(input: &str) -> Expr {
    let mut exprs = parse(input).unwrap();
    assert_eq!(exprs.len(), 1, "{:?}", input);
    exprs.pop().unwrap()
}

fn incomplete(rest: &str) -> Result<Vec<Expr>, String> {
    Err(format!("Parsing incomplete. Remaining input: '{}'", rest))
}

#[test]
fn every_primitive_is_read() {
    assert_eq!(one("(add1 1)"), Expr::UnPrim(UnPrim::Add1, num(1)));
    assert_eq!(one("(sub1 1)"), Expr::UnPrim(UnPrim::Sub1, num(1)));
    assert_eq!(one("(zero? 1)"), Expr::UnPrim(UnPrim::IsZero, num(1)));
    assert_eq!(one("(num? 1)"), Expr::UnPrim(UnPrim::IsNum, num(1)));
    assert_eq!(one("(not true)"), Expr::UnPrim(UnPrim::Not, Box::new(Expr::True)));
    assert_eq!(one("(+ 1 2)"), Expr::BinPrim(BinPrim::Plus, num(1), num(2)));
    assert_eq!(one("(- 1 2)"), Expr::BinPrim(BinPrim::Minus, num(1), num(2)));
    assert_eq!(one("(= 1 2)"), Expr::BinPrim(BinPrim::Eq, num(1), num(2)));
    assert_eq!(one("(< 1 2)"), Expr::BinPrim(BinPrim::Lt, num(1), num(2)));
}

#[test]
fn forms_nest() {
    assert_eq!(
        one("(if (< x 10) (add1 x) (- x (+ 1 2)))"),
        Expr::If(
            Box::new(Expr::BinPrim(BinPrim::Lt, id("x"), num(10))),
            Box::new(Expr::UnPrim(UnPrim::Add1, id("x"))),
            Box::new(Expr::BinPrim(
                BinPrim::Minus,
                id("x"),
                Box::new(Expr::BinPrim(BinPrim::Plus, num(1), num(2)))
            )),
        )
    );
}

#[test]
fn definitions_and_calls_are_read() {
    assert_eq!(
        one("(define (add a b) (+ a b))"),
        Expr::Define(
            "add".to_string(),
            vec!["a".to_string(), "b".to_string()],
            Box::new(Expr::BinPrim(BinPrim::Plus, id("a"), id("b")))
        )
    );
    assert_eq!(
        one("(define (f) 1)"),
        Expr::Define("f".to_string(), vec![], num(1))
    );
    assert_eq!(
        one("(add 1 (g) x)"),
        Expr::Call(
            "add".to_string(),
            vec![
                Expr::Num(1),
                Expr::Call("g".to_string(), vec![]),
                Expr::Id("x".to_string())
            ]
        )
    );
}

#[test]
fn a_let_may_have_no_binding() {
    assert_eq!(one("(let () 1)"), Expr::Let(vec![], num(1)));
    assert_eq!(
        one("(let ((_a1 (add1 2))) _a1)"),
        Expr::Let(
            vec![(
                "_a1".to_string(),
                Box::new(Expr::UnPrim(UnPrim::Add1, num(2)))
            )],
            id("_a1")
        )
    );
}

#[test]
fn a_do_needs_an_expression() {
    assert_eq!(one("(do 1)"), Expr::Do(vec![Expr::Num(1)]));
    assert_eq!(one("(do)"), Expr::Call("do".to_string(), vec![]));
}

#[test]
fn spaces_may_stand_round_the_parts_of_a_form() {
    assert_eq!(
        one("( \n+\t1   2 )"),
        Expr::BinPrim(BinPrim::Plus, num(1), num(2))
    );
    assert_eq!(one("( f )"), Expr::Call("f".to_string(), vec![]));
    assert_eq!(
        one("(let ((x 1)  ( y 2 ) ) x)"),
        Expr::Let(
            vec![("x".to_string(), num(1)), ("y".to_string(), num(2))],
            id("x")
        )
    );
}

#[test]
fn the_empty_list_has_no_space_inside() {
    assert_eq!(parse("( )"), incomplete("( )"));
    assert_eq!(parse("(let ( ) 1)"), incomplete("(let ( ) 1)"));
}

#[test]
fn a_keyword_need_not_end_at_a_word_boundary() {
    assert_eq!(one("(add1x)"), Expr::UnPrim(UnPrim::Add1, id("x")));
    assert_eq!(
        one("(iftrue 1 2)"),
        Expr::If(Box::new(Expr::True), num(1), num(2))
    );
    assert_eq!(
        one("(add1x 5)"),
        Expr::Call("add1x".to_string(), vec![Expr::Num(5)])
    );
    assert_eq!(one("(+1 2)"), Expr::BinPrim(BinPrim::Plus, num(1), num(2)));
}

#[test]
fn a_number_ends_where_its_digits_end() {
    assert_eq!(
        parse("42abc"),
        Ok(vec![Expr::Num(42), Expr::Id("abc".to_string())])
    );
    assert_eq!(parse("007"), Ok(vec![Expr::Num(7)]));
    assert_eq!(parse("-5"), incomplete("-5"));
}

#[test]
fn a_number_must_fit_in_64_bits() {
    assert_eq!(
        parse("9223372036854775807"),
        Ok(vec![Expr::Num(i64::MAX)])
    );
    assert_eq!(
        parse("9223372036854775808"),
        incomplete("9223372036854775808")
    );
    assert_eq!(
        parse("1 99999999999999999999999999"),
        incomplete("99999999999999999999999999")
    );
    assert_eq!(
        parse("00000000000000000000000000000005"),
        Ok(vec![Expr::Num(5)])
    );
}

#[test]
fn identifiers_are_letters_digits_and_underscores() {
    assert_eq!(parse("_"), Ok(vec![Expr::Id("_".to_string())]));
    assert_eq!(parse("a_b9"), Ok(vec![Expr::Id("a_b9".to_string())]));
    assert_eq!(parse("truex"), Ok(vec![Expr::Id("truex".to_string())]));
    assert_eq!(parse("True"), Ok(vec![Expr::Id("True".to_string())]));
    assert_eq!(
        parse("a-b"),
        incomplete("-b")
    );
    assert_eq!(parse("caf\u{e9}"), incomplete("\u{e9}"));
}

#[test]
fn a_boolean_is_no_name() {
    assert_eq!(parse("(true)"), incomplete("(true)"));
    assert_eq!(parse("(false 1)"), incomplete("(false 1)"));
    assert_eq!(parse("(let ((true 1)) 2)"), incomplete("(let ((true 1)) 2)"));
    assert_eq!(
        one("(define (f false) 1)"),
        Expr::Call(
            "define".to_string(),
            vec![
                Expr::Call("f".to_string(), vec![Expr::False]),
                Expr::Num(1)
            ]
        )
    );
}

#[test]
fn what_cannot_be_read_is_quoted() {
    assert_eq!(parse("@"), incomplete("@"));
    assert_eq!(parse("42 @ true"), incomplete("@ true"));
    assert_eq!(parse("(+ 1 2"), incomplete("(+ 1 2"));
    assert_eq!(parse("1 ) 2"), incomplete(") 2"));
    assert_eq!(parse("(+ 1 2) (+ 3)"), incomplete("(+ 3)"));
}

#[test]
fn unicode_white_space_may_end_a_text() {
    assert_eq!(parse("1 \u{a0}\u{2003}\u{b}"), Ok(vec![Expr::Num(1)]));
    assert_eq!(parse("\u{3000}"), Ok(vec![]));
    assert_eq!(parse("1 \u{a0} 2"), incomplete("\u{a0} 2"));
    assert_eq!(parse("1 \u{200b}"), incomplete("\u{200b}"));
}

#[test]
fn deep_nesting_is_read() {
    let mut text = String::new();
    let mut expected = Expr::Num(0);
    for _ in 0..40 {
        text.push_str("(add1 ");
    }
    text.push('0');
    for _ in 0..40 {
        text.push(')');
        expected = Expr::UnPrim(UnPrim::Add1, Box::new(expected));
    }
    assert_eq!(one(&text), expected);
}
