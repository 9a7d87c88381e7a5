//! Translates a pattern written in the Simple Regex Language, a notation in
//! plain words, into the text of a regular expression.

pub mod anchors;
pub mod ast;
pub mod attachment;
pub mod builder;
pub mod grammar;
pub mod keywords;
pub mod lexer;
pub mod parser;
pub mod scan;
pub mod spelling;
pub mod srlchar;
pub mod syntax;
pub mod text;
pub mod token;

use vstd::prelude::*;
use vstd::pervasive::unreached;
use crate::builder::{render_pattern, Builder};
use crate::lexer::Lexer;
use crate::parser::Parser;
use crate::scan::tokens_of;
use crate::syntax::{parse_pattern, Error};

verus! {

/// The regular expression that a source text stands for, or the first
/// error that reading it runs into: the text is split into tokens, the
/// tokens are read as a pattern, and the pattern is rendered.
pub open spec fn translation(source: Seq<char>) -> Result<Seq<char>, Error> {
    match parse_pattern(tokens_of(source)) {
        Ok(exprs) => Ok(render_pattern(exprs)),
        Err(e) => Err(e),
    }
}

/// Translates `source` into a regular expression.
pub fn translate(source: &str) -> (r: Result<String, Error>)
    ensures
        match translation(source@) {
            Ok(pattern) => r matches Ok(p) && p@ == pattern,
            Err(e) => r matches Err(x) && x == e,
        },
{
    let lx = Lexer::new(source);
    let mut pr = Parser::new(lx);
    match pr.parse() {
        Ok(ast) => Ok(Builder::from_ast(&ast)),
        Err(e) => Err(e),
    }
}

/// The regular expression of a source text that is a pattern.
pub fn srl(src: &str) -> (pattern: String)
    requires
        translation(src@) is Ok,
    ensures
        Ok::<Seq<char>, Error>(pattern@) == translation(src@),
{
    match translate(src) {
        Ok(pattern) => pattern,
        Err(_) => unreached(),
    }
}

} // verus!
