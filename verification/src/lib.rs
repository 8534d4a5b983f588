//! A compiler from a small Lisp-like language to AArch64 assembly text.
//!
//! Source text is parsed into an [`ast::Expr`], lowered by [`compile`] into a
//! flat list of [`assembly::Directive`]s, and rendered one line per directive.
//! The functions carry contracts that Verus proves. One thing is taken on
//! trust: what `String::push` of the standard library does (see [`text`]).

pub mod assembly;
pub mod ast;
pub mod compile;
pub mod env;
pub mod labels;
pub mod parser;
pub mod pipeline;
pub mod text;
pub mod theorems;
pub mod utils;
