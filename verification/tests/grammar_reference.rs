//! The grammar written a second time, with parser combinators, and the
//! parser held against it on a list of texts.

use lispc::ast::{parse, BinPrim, Expr, UnPrim};
use nom::branch::alt;
use nom::bytes::complete::tag;
use nom::character::complete::{alpha1, alphanumeric1, char, digit1, multispace0};
use nom::combinator::{map_opt, map_res, recognize};
use nom::multi::{many0, many1};
use nom::sequence::{delimited, pair, preceded, tuple};
use nom::IResult;

fn spaced<'a, F: 'a, O>(inner: F) -> impl FnMut(&'a str) -> IResult<&'a str, O>
where
    F: FnMut(&'a str) -> IResult<&'a str, O>,
{
    delimited(multispace0, inner, multispace0)
}

fn number(input: &str) -> IResult<&str, Expr> {
    map_res(recognize(digit1), |digits: &str| {
        digits.parse::<i64>().map(Expr::Num)
    })(input)
}

fn word(input: &str) -> IResult<&str, &str> {
    recognize(pair(
        alt((alpha1, tag("_"))),
        many0(alt((alphanumeric1, tag("_")))),
    ))(input)
}

fn identifier(input: &str) -> IResult<&str, Expr> {
    nom::combinator::map(word, |s: &str| match s {
        "true" => Expr::True,
        "false" => Expr::False,
        _ => Expr::Id(s.to_string()),
    })(input)
}

fn name(input: &str) -> IResult<&str, String> {
    map_opt(word, |s: &str| match s {
        "true" | "false" => None,
        _ => Some(s.to_string()),
    })(input)
}

fn nil(input: &str) -> IResult<&str, Expr> {
    nom::combinator::map(tag("()"), |_| Expr::Nil)(input)
}

fn unary_primitive(input: &str) -> IResult<&str, UnPrim> {
    alt((
        nom::combinator::map(tag("add1"), |_| UnPrim::Add1),
        nom::combinator::map(tag("sub1"), |_| UnPrim::Sub1),
        nom::combinator::map(tag("zero?"), |_| UnPrim::IsZero),
        nom::combinator::map(tag("num?"), |_| UnPrim::IsNum),
        nom::combinator::map(tag("not"), |_| UnPrim::Not),
    ))(input)
}

fn binary_primitive(input: &str) -> IResult<&str, BinPrim> {
    alt((
        nom::combinator::map(char('+'), |_| BinPrim::Plus),
        nom::combinator::map(char('-'), |_| BinPrim::Minus),
        nom::combinator::map(char('='), |_| BinPrim::Eq),
        nom::combinator::map(char('<'), |_| BinPrim::Lt),
    ))(input)
}

fn unary_form(input: &str) -> IResult<&str, Expr> {
    nom::combinator::map(
        delimited(
            char('('),
            tuple((spaced(unary_primitive), spaced(expression))),
            char(')'),
        ),
        |(op, e)| Expr::UnPrim(op, Box::new(e)),
    )(input)
}

fn binary_form(input: &str) -> IResult<&str, Expr> {
    nom::combinator::map(
        delimited(
            char('('),
            tuple((
                spaced(binary_primitive),
                spaced(expression),
                spaced(expression),
            )),
            char(')'),
        ),
        |(op, left, right)| Expr::BinPrim(op, Box::new(left), Box::new(right)),
    )(input)
}

fn conditional(input: &str) -> IResult<&str, Expr> {
    nom::combinator::map(
        delimited(
            char('('),
            preceded(
                spaced(tag("if")),
                tuple((spaced(expression), spaced(expression), spaced(expression))),
            ),
            char(')'),
        ),
        |(test, then, otherwise)| Expr::If(Box::new(test), Box::new(then), Box::new(otherwise)),
    )(input)
}

fn call(input: &str) -> IResult<&str, Expr> {
    nom::combinator::map(
        delimited(
            char('('),
            tuple((spaced(name), many0(spaced(expression)))),
            char(')'),
        ),
        |(f, args)| Expr::Call(f, args),
    )(input)
}

fn binding(input: &str) -> IResult<&str, (String, Box<Expr>)> {
    delimited(
        char('('),
        tuple((spaced(name), spaced(nom::combinator::map(expression, Box::new)))),
        char(')'),
    )(input)
}

fn let_form(input: &str) -> IResult<&str, Expr> {
    nom::combinator::map(
        delimited(
            char('('),
            preceded(
                spaced(tag("let")),
                tuple((
                    delimited(char('('), many0(spaced(binding)), char(')')),
                    spaced(expression),
                )),
            ),
            char(')'),
        ),
        |(bindings, body)| Expr::Let(bindings, Box::new(body)),
    )(input)
}

fn do_form(input: &str) -> IResult<&str, Expr> {
    nom::combinator::map(
        delimited(
            char('('),
            preceded(spaced(tag("do")), many1(spaced(expression))),
            char(')'),
        ),
        Expr::Do,
    )(input)
}

fn definition(input: &str) -> IResult<&str, Expr> {
    nom::combinator::map(
        delimited(
            char('('),
            preceded(
                spaced(tag("define")),
                tuple((
                    delimited(
                        char('('),
                        tuple((spaced(name), many0(spaced(name)))),
                        char(')'),
                    ),
                    spaced(expression),
                )),
            ),
            char(')'),
        ),
        |((f, params), body)| Expr::Define(f, params, Box::new(body)),
    )(input)
}

fn expression(input: &str) -> IResult<&str, Expr> {
    alt((
        number,
        identifier,
        nil,
        unary_form,
        binary_form,
        conditional,
        let_form,
        do_form,
        definition,
        call,
    ))(input)
}

fn reference(input: &str) -> Result<Vec<Expr>, String> {
    match many0(spaced(expression))(input) {
        Ok((remaining, exprs)) => {
            if remaining.trim().is_empty() {
                Ok(exprs)
            } else {
                Err(format!(
                    "Parsing incomplete. Remaining input: '{}'",
                    remaining
                ))
            }
        }
        Err(e) => Err(format!("Parse error: {:?}", e)),
    }
}

const TEXTS: &[&str] = &[
    "",
    " ",
    "42",
    "x",
    "true false ()",
    "( )",
    "(())",
    "(add1 5)",
    "(add1x)",
    "(add1x 5)",
    "(sub1(zero? (num? (not 1))))",
    "(+ 3 4)",
    "(+3 4)",
    "(- (= 1 2) (< 3 4))",
    "(+ 1)",
    "(+ 1 2 3)",
    "(if true 1 2)",
    "(iftrue 1 2)",
    "(if true 1)",
    "(if)",
    "(let ((x 1) (y 2)) (+ x y))",
    "(let () 1)",
    "(let ( ) 1)",
    "(let ((x 1)) )",
    "(let ((x 1) ) x)",
    "(let((x 1))x)",
    "(let ((x)) x)",
    "(let ((true 1)) 2)",
    "(do 1 2 3)",
    "(do)",
    "(do )",
    "(define (f a b) (+ a b))",
    "(define (f) 1)",
    "(define () 1)",
    "(define (f false) 1)",
    "(define f 1)",
    "(f)",
    "( f )",
    "(f 1 (g 2) x)",
    "(true)",
    "(false 1)",
    "(1 2)",
    "42abc",
    "007",
    "-5",
    "9223372036854775807",
    "9223372036854775808",
    "1 99999999999999999999999999",
    "_ _a a_ a1 1a",
    "a-b",
    "caf\u{e9}",
    "@",
    "42 @ true",
    "(+ 1 2",
    "1 ) 2",
    "(+ 1 2) (+ 3)",
    "  42  \n  x  \t true  ",
    "1\r\n2",
    "1 \u{a0}\u{2003}\u{b}",
    "1 \u{a0} 2",
    "1 \u{200b}",
    "\u{3000}",
    "(add1 (add1 (add1 x) y) z)",
    "((f))",
    "(f (g (h (i))))",
    "(define (fact n) (if (zero? n) 1 (mul n (fact (sub1 n)))))",
    "(let ((x (let ((y 1)) y))) (do x (f x) (+ x 1)))",
];

#[test]
fn the_parser_reads_as_the_combinators_do() {
    for text in TEXTS {
        assert_eq!(parse(text), reference(text), "on {:?}", text);
    }
}

#[test]
fn the_parser_reads_every_text_of_a_small_alphabet_as_the_combinators_do() {
    let alphabet = ['(', ')', ' ', '1', 'a', '+', 'i', 'f'];
    let mut texts = vec![String::new()];
    for _ in 0..5 {
        let mut longer = Vec::new();
        for text in &texts {
            for c in alphabet {
                let mut next = text.clone();
                next.push(c);
                longer.push(next);
            }
        }
        for text in &longer {
            assert_eq!(parse(text), reference(text), "on {:?}", text);
        }
        texts = longer;
    }
}
