//! The abstract syntax of the source language, and its parser.

use vstd::prelude::*;
pub use crate::parser::parse;

verus! {

/// A primitive of one operand.
#[derive(Debug, PartialEq, Eq, Clone, Copy, Structural)]
pub enum UnPrim {
    Add1,
    Sub1,
    IsZero,
    IsNum,
    Not,
}

/// A primitive of two operands.
#[derive(Debug, PartialEq, Eq, Clone, Copy, Structural)]
pub enum BinPrim {
    Plus,
    Minus,
    Eq,
    Lt,
}

/// An expression of the source language.
#[derive(Debug, PartialEq, Eq)]
pub enum Expr {
    Num(i64),
    Id(String),
    True,
    False,
    Nil,
    UnPrim(UnPrim, Box<Expr>),
    BinPrim(BinPrim, Box<Expr>, Box<Expr>),
    If(Box<Expr>, Box<Expr>, Box<Expr>),
    Let(Vec<(String, Box<Expr>)>, Box<Expr>),
    Do(Vec<Expr>),
    Define(String, Vec<String>, Box<Expr>),
    Call(String, Vec<Expr>),
}

/// The mathematical model of an [`Expr`]: the same tree, with every string
/// replaced by the sequence of its characters and every vector by a
/// sequence.
pub enum ExprView {
    Num(i64),
    Id(Seq<char>),
    True,
    False,
    Nil,
    UnPrim(UnPrim, Box<ExprView>),
    BinPrim(BinPrim, Box<ExprView>, Box<ExprView>),
    If(Box<ExprView>, Box<ExprView>, Box<ExprView>),
    Let(Seq<(Seq<char>, ExprView)>, Box<ExprView>),
    Do(Seq<ExprView>),
    Define(Seq<char>, Seq<Seq<char>>, Box<ExprView>),
    Call(Seq<char>, Seq<ExprView>),
}

/// The model of a list of names.
pub open spec fn names_view(names: Seq<String>) -> Seq<Seq<char>> {
    Seq::new(names.len(), |i: int| names[i]@)
}

/// The model of an expression.
pub open spec fn expr_view(e: Expr) -> ExprView
    decreases e,
{
    match e {
        Expr::Num(n) => ExprView::Num(n),
        Expr::Id(s) => ExprView::Id(s@),
        Expr::True => ExprView::True,
        Expr::False => ExprView::False,
        Expr::Nil => ExprView::Nil,
        Expr::UnPrim(p, a) => ExprView::UnPrim(p, Box::new(expr_view(*a))),
        Expr::BinPrim(p, a, b) => ExprView::BinPrim(
            p,
            Box::new(expr_view(*a)),
            Box::new(expr_view(*b)),
        ),
        Expr::If(t, a, b) => ExprView::If(
            Box::new(expr_view(*t)),
            Box::new(expr_view(*a)),
            Box::new(expr_view(*b)),
        ),
        Expr::Let(bindings, body) => ExprView::Let(
            Seq::new(
                bindings.len() as nat,
                |i: int|
                    if 0 <= i < bindings.len() {
                        (bindings[i].0@, expr_view(*bindings[i].1))
                    } else {
                        (Seq::empty(), ExprView::Nil)
                    },
            ),
            Box::new(expr_view(*body)),
        ),
        Expr::Do(es) => ExprView::Do(
            Seq::new(
                es.len() as nat,
                |i: int|
                    if 0 <= i < es.len() {
                        expr_view(es[i])
                    } else {
                        ExprView::Nil
                    },
            ),
        ),
        Expr::Define(name, params, body) => ExprView::Define(
            name@,
            names_view(params@),
            Box::new(expr_view(*body)),
        ),
        Expr::Call(f, args) => ExprView::Call(
            f@,
            Seq::new(
                args.len() as nat,
                |i: int|
                    if 0 <= i < args.len() {
                        expr_view(args[i])
                    } else {
                        ExprView::Nil
                    },
            ),
        ),
    }
}

impl View for Expr {
    type V = ExprView;

    open spec fn view(&self) -> ExprView {
        expr_view(*self)
    }
}

/// The model of a list of expressions: the model of each, in order.
pub open spec fn exprs_view(es: Seq<Expr>) -> Seq<ExprView> {
    Seq::new(es.len(), |i: int| es[i]@)
}

fn clone_names(names: &Vec<String>) -> (res: Vec<String>)
    ensures
        res@ == names@,
{
    let mut out: Vec<String> = Vec::new();
    let mut i: usize = 0;
    while i < names.len()
        invariant
            i <= names.len(),
            out@ == names@.take(i as int),
        decreases names.len() - i,
    {
        out.push(names[i].clone());
        assert(out@ =~= names@.take(i + 1));
        i += 1;
    }
    assert(names@.take(i as int) =~= names@);
    out
}

impl Clone for Expr {
    fn clone(&self) -> (res: Self)
        ensures
            res@ == self@,
        decreases self,
    {
        match self {
            Expr::Num(n) => Expr::Num(*n),
            Expr::Id(s) => Expr::Id(s.clone()),
            Expr::True => Expr::True,
            Expr::False => Expr::False,
            Expr::Nil => Expr::Nil,
            Expr::UnPrim(p, a) => Expr::UnPrim(*p, Box::new((&**a).clone())),
            Expr::BinPrim(p, a, b) => Expr::BinPrim(
                *p,
                Box::new((&**a).clone()),
                Box::new((&**b).clone()),
            ),
            Expr::If(t, a, b) => Expr::If(
                Box::new((&**t).clone()),
                Box::new((&**a).clone()),
                Box::new((&**b).clone()),
            ),
            Expr::Let(bindings, body) => {
                let mut out: Vec<(String, Box<Expr>)> = Vec::new();
                let mut i: usize = 0;
                while i < bindings.len()
                    invariant
                        i <= bindings.len(),
                        out.len() == i,
                        forall|j: int|
                            0 <= j < i ==> out[j].0@ == bindings[j].0@ && expr_view(*out[j].1)
                                == expr_view(*bindings[j].1),
                        decreases_to!(self => bindings),
                    decreases bindings.len() - i,
                {
                    let binding = &bindings[i];
                    out.push((binding.0.clone(), Box::new((&*binding.1).clone())));
                    i += 1;
                }
                let res = Expr::Let(out, Box::new((&**body).clone()));
                assert(res@->Let_0 =~= self@->Let_0);
                res
            },
            Expr::Do(es) => {
                let mut out: Vec<Expr> = Vec::new();
                let mut i: usize = 0;
                while i < es.len()
                    invariant
                        i <= es.len(),
                        out.len() == i,
                        forall|j: int| 0 <= j < i ==> expr_view(out[j]) == expr_view(es[j]),
                        decreases_to!(self => es),
                    decreases es.len() - i,
                {
                    out.push(es[i].clone());
                    i += 1;
                }
                let res = Expr::Do(out);
                assert(res@->Do_0 =~= self@->Do_0);
                res
            },
            Expr::Define(name, params, body) => Expr::Define(
                name.clone(),
                clone_names(params),
                Box::new((&**body).clone()),
            ),
            Expr::Call(f, args) => {
                let mut out: Vec<Expr> = Vec::new();
                let mut i: usize = 0;
                while i < args.len()
                    invariant
                        i <= args.len(),
                        out.len() == i,
                        forall|j: int| 0 <= j < i ==> expr_view(out[j]) == expr_view(args[j]),
                        decreases_to!(self => args),
                    decreases args.len() - i,
                {
                    out.push(args[i].clone());
                    i += 1;
                }
                let res = Expr::Call(f.clone(), out);
                assert(res@->Call_1 =~= self@->Call_1);
                res
            },
        }
    }
}

/// The model of a list of bindings: the model of each, in order.
pub open spec fn bindings_view(bindings: Seq<(String, Box<Expr>)>) -> Seq<(Seq<char>, ExprView)> {
    Seq::new(bindings.len(), |i: int| (bindings[i].0@, (*bindings[i].1)@))
}

/// The model of a `let` holds the models of its bindings and of its body.
pub proof fn lemma_view_of_let(bindings: Vec<(String, Box<Expr>)>, body: Box<Expr>)
    ensures
        Expr::Let(bindings, body)@ == ExprView::Let(bindings_view(bindings@), Box::new((*body)@)),
{
    assert(Expr::Let(bindings, body)@->Let_0 =~= bindings_view(bindings@));
}

/// The model of a `do` holds the models of its expressions.
pub proof fn lemma_view_of_do(es: Vec<Expr>)
    ensures
        Expr::Do(es)@ == ExprView::Do(exprs_view(es@)),
{
    assert(Expr::Do(es)@->Do_0 =~= exprs_view(es@));
}

/// The model of a call holds the function's name and the models of its
/// arguments.
pub proof fn lemma_view_of_call(f: String, args: Vec<Expr>)
    ensures
        Expr::Call(f, args)@ == ExprView::Call(f@, exprs_view(args@)),
{
    assert(Expr::Call(f, args)@->Call_1 =~= exprs_view(args@));
}

} // verus!
