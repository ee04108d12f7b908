//! A verified front end for arithmetic expressions: tokenizer, parser and
//! name resolution against a fixed table of constants and functions.
//!
//! `compile` takes the text of an expression to a resolved tree, or to the
//! first failure met on the way: a lexical error, a syntax error, or an
//! evaluation error (an unknown name, a wrong number of arguments, or an
//! expression nested too deeply). The tree holds no floating-point values:
//! numbers keep the text of their literal, and computing the value of a tree
//! is left to the caller.
pub mod laws;
pub mod lexer;
pub mod registry;
pub mod resolve;
pub mod syntax;

use vstd::prelude::*;
use crate::lexer::{LexError, byte_len, byte_offset, lemma_lex_fits, lex, tokenize};
use crate::resolve::{EvalError, Fault, Node, Resolved, resolve, spec_resolve};
use crate::syntax::{ParseError, SyntaxError, parse, spec_parse};

verus! {

/// Why an expression was refused, by the stage that refused it.
#[derive(Debug, PartialEq)]
pub enum Failure {
    Lex(LexError),
    Parse(ParseError),
    Eval(EvalError),
}

/// The mathematical value of a `Failure`.
pub enum Failed {
    Lex(LexError),
    Parse(ParseError),
    Eval(Fault),
}

impl Failure {
    pub open spec fn view(&self) -> Failed {
        match self {
            Failure::Lex(e) => Failed::Lex(*e),
            Failure::Parse(e) => Failed::Parse(*e),
            Failure::Eval(e) => Failed::Eval(e.view()),
        }
    }
}

/// The resolved tree of the text `s`, or the first failure.
pub open spec fn spec_compile(s: Seq<char>) -> Result<Resolved, Failed> {
    match lex(s) {
        Err(e) => Err(Failed::Lex(e)),
        Ok(ts) => match spec_parse(s, ts) {
            Err(SyntaxError::Unexpected(e)) => Err(Failed::Parse(e)),
            Err(SyntaxError::TooDeep) => Err(Failed::Eval(Fault::TooComplex)),
            Ok(a) => match spec_resolve(a) {
                Ok(r) => Ok(r),
                Err(f) => Err(Failed::Eval(f)),
            },
        },
    }
}

/// `r` is what `compile` owes for the text `s`.
pub open spec fn compiled(s: Seq<char>, r: Result<Node, Failure>) -> bool {
    match (r, spec_compile(s)) {
        (Ok(n), Ok(m)) => n.view() == m,
        (Err(x), Err(y)) => x.view() == y,
        _ => false,
    }
}

proof fn lemma_len_le_bytes(s: Seq<char>, i: int)
    requires
        0 <= i <= s.len(),
    ensures
        i <= byte_offset(s, i),
    decreases i,
{
    if i > 0 {
        lemma_len_le_bytes(s, i - 1);
    }
}

/// Tokenizes, parses and resolves `text`, stopping at the first failure.
pub fn compile(text: &str) -> (r: Result<Node, Failure>)
    requires
        byte_len(text@) <= usize::MAX,
    ensures
        compiled(text@, r),
{
    proof {
        lemma_len_le_bytes(text@, text@.len() as int);
        lemma_lex_fits(text@, 0);
    }
    let tokens = match tokenize(text) {
        Ok(ts) => ts,
        Err(e) => return Err(Failure::Lex(e)),
    };
    let tree = match parse(text, &tokens) {
        Ok(t) => t,
        Err(SyntaxError::Unexpected(e)) => return Err(Failure::Parse(e)),
        Err(SyntaxError::TooDeep) => return Err(Failure::Eval(EvalError::TooComplex)),
    };
    match resolve(&tree) {
        Ok(n) => Ok(n),
        Err(f) => Err(Failure::Eval(f)),
    }
}

} // verus!
