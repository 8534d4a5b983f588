//! From source text to assembly text.

use vstd::prelude::*;
use crate::assembly::{code_view, directive_text, string_of_directive, Directive, DirectiveView};
use crate::ast::exprs_view;
use crate::compile::{compile, program, CompileError, CompileErrorView};
use crate::parser::{parse, program_of};
use crate::utils::SymbolGenerator;

verus! {

/// The text of a list of directives: each on a line of its own.
pub open spec fn rendered(code: Seq<DirectiveView>) -> Seq<char>
    decreases code.len(),
{
    if code.len() == 0 {
        Seq::empty()
    } else {
        rendered(code.drop_last()) + directive_text(code.last()) + "\n"@
    }
}

/// What is said of a compile error.
pub open spec fn error_text(error: CompileErrorView) -> Seq<char> {
    match error {
        CompileErrorView::UnresolvedIdentifier(name) => "unresolved identifier: "@ + name,
        CompileErrorView::ArgumentCountOverflow => "more than eight arguments"@,
        CompileErrorView::StackSlotOutOfRange => "stack slot out of range"@,
    }
}

/// What is said of a text that does not hold one expression.
pub open spec fn parse_failure_text() -> Seq<char> {
    "Failed to parse input"@
}

/// What compiling the program text `contents` gives, with the symbol
/// generator at `count`: the assembly text of the one expression that
/// `contents` holds, or what is said of the failure; and the count at which
/// the generator stands afterwards.
pub open spec fn compiled_text(contents: Seq<char>, count: u64) -> (
    Result<Seq<char>, Seq<char>>,
    u64,
) {
    match program_of(contents) {
        Ok(es) => if es.len() == 1 {
            match program(es[0], count) {
                Ok(x) => (Ok(rendered(x.code)), x.next),
                Err(f) => (Err(error_text(f.error)), f.next),
            }
        } else {
            (Err(parse_failure_text()), count)
        },
        Err(_) => (Err(parse_failure_text()), count),
    }
}

/// The model of what a function that gives text or a complaint returns.
pub open spec fn text_view(r: Result<String, String>) -> Result<Seq<char>, Seq<char>> {
    match r {
        Ok(text) => Ok(text@),
        Err(message) => Err(message@),
    }
}

impl CompileError {
    /// What is said of the error.
    pub fn to_string(&self) -> (message: String)
        ensures
            message@ == error_text(self@),
    {
        match self {
            CompileError::UnresolvedIdentifier(name) => {
                let mut message = "unresolved identifier: ".to_owned();
                message.append(name.as_str());
                message
            },
            CompileError::ArgumentCountOverflow => "more than eight arguments".to_owned(),
            CompileError::StackSlotOutOfRange => "stack slot out of range".to_owned(),
        }
    }
}

/// The assembly text of `code`: each directive on a line of its own.
pub fn render(code: &Vec<Directive>) -> (text: String)
    ensures
        text@ == rendered(code_view(code@)),
{
    let mut text = String::new();
    let mut i: usize = 0;
    assert(code_view(code@).take(0) =~= Seq::empty());
    while i < code.len()
        invariant
            i <= code.len(),
            text@ == rendered(code_view(code@).take(i as int)),
        decreases code.len() - i,
    {
        let line = string_of_directive(&code[i]);
        text.append(line.as_str());
        text.append("\n");
        proof {
            let model = code_view(code@);
            assert(model.take(i + 1).drop_last() =~= model.take(i as int));
            assert(model.take(i + 1).last() == code@[i as int]@);
        }
        i += 1;
    }
    assert(code_view(code@).take(code.len() as int) =~= code_view(code@));
    text
}

/// Compiles the program text `contents` to assembly text.
///
/// The text must hold one expression and nothing else but white space.
pub fn parse_and_compile(contents: &str, generator: &mut SymbolGenerator) -> (result: Result<
    String,
    String,
>)
    ensures
        (text_view(result), final(generator)@) == compiled_text(contents@, old(generator)@),
{
    let mut exprs = match parse(contents) {
        Ok(exprs) => exprs,
        Err(_) => {
            return Err("Failed to parse input".to_owned());
        },
    };
    if exprs.len() != 1 {
        return Err("Failed to parse input".to_owned());
    }
    let ghost model = exprs_view(exprs@)[0];
    let expr = match exprs.pop() {
        Some(expr) => expr,
        None => {
            return Err("Failed to parse input".to_owned());
        },
    };
    assert(expr@ == model);
    match compile(expr, generator) {
        Ok(code) => Ok(render(&code)),
        Err(e) => Err(e.to_string()),
    }
}

} // verus!
