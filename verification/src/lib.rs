use vstd::prelude::*;

pub mod error;
pub mod expr;
pub mod interpreter;
pub mod laws;
pub mod numeric;
pub mod parser;
pub mod scanner;
pub mod token;
pub mod token_type;

use crate::error::EvalError;
use crate::interpreter::{eval_spec, res_view, Interpreter};
use crate::parser::{parse_spec, Parser};
use crate::scanner::{scan_spec, Scanner};
use crate::token::lemma_toks_view;

verus! {

/// What running the whole pipeline on a source text yields: the decimal
/// string value of the expression, or the first error of the first stage
/// that fails.
pub open spec fn run_spec(s: Seq<char>) -> Result<Seq<char>, EvalError> {
    match scan_spec(s) {
        Err(e) => Err(e),
        Ok(toks) => match parse_spec(toks) {
            Err(e) => Err(e),
            Ok(ev) => eval_spec(ev),
        },
    }
}

/// The single entry point of the pipeline: scans, parses and evaluates a
/// source text, exactly as [`run_spec`] says.
pub fn run(source: &str) -> (r: Result<String, EvalError>)
    ensures
        res_view(r) == run_spec(source@),
{
    let mut scanner = Scanner::new(source.to_owned());
    let tokens = match scanner.scan_tokens() {
        Err(e) => {
            return Err(e);
        },
        Ok(ts) => ts,
    };
    proof {
        lemma_toks_view(tokens@);
    }
    let mut parser = Parser::new(tokens);
    let expression = match parser.parse() {
        Err(e) => {
            return Err(e);
        },
        Ok(e) => e,
    };
    let interpreter = Interpreter::new();
    interpreter.evaluate(&expression)
}

} // verus!
