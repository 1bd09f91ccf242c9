//! The calculator's console loop: reads one line, evaluates it, prints one
//! line, until the exit word arrives.  The console itself is a capability the
//! caller supplies, so the loop runs against a terminal, a test script, or
//! anything else that can hand lines in and take lines out.

use vstd::prelude::*;
use vstd::string::*;

use crate::parser::Parser;
use crate::parser::spec_parse_tokens;
use crate::parser::spec_syntax_message;
use crate::tokenizer::spec_tokenize_from;
use crate::tokenizer::spec_tokenizing_message;
use crate::value::render_value;
use crate::value::spec_render;
use crate::visitors::EvalOutcome;
use crate::visitors::Evaluator;
use crate::visitors::spec_eval;
use crate::visitors::spec_eval_message;

verus! {

/// What the calculator needs from its surroundings: one line of text in, one
/// line (or a prompt fragment) out.
pub trait Console {
    fn readline(&self) -> String;

    fn println(&self, text: &str);

    fn print(&self, text: &str);
}

/// The answer the calculator gives for one line of input: the value's
/// decimal text, or the error's message.
pub open spec fn spec_calculate_line(s: Seq<char>) -> Seq<char> {
    match spec_tokenize_from(s, 0) {
        Err(e) => "Syntax error: "@ + spec_tokenizing_message(e),
        Ok(toks) => match spec_parse_tokens(toks) {
            Err(k) => "Syntax error: "@ + spec_syntax_message(k),
            Ok(ast) => match spec_eval(ast) {
                EvalOutcome::Value(q) => spec_render(q),
                o => spec_eval_message(o),
            },
        },
    }
}

/// Evaluates one line of input through the whole pipeline: tokenize, parse,
/// evaluate, render.  Every failure becomes its message; no input panics.
pub fn calculate_line(line: &str) -> (r: String)
    ensures
        r@ == spec_calculate_line(line@),
{
    match Parser::new(line) {
        Err(pe) => pe.message(),
        Ok(mut parser) => {
            match parser.parse() {
                Err(pe) => pe.message(),
                Ok(ast) => {
                    let mut evaluator = Evaluator;
                    match evaluator.visit_expression(&ast) {
                        Ok(v) => render_value(&v),
                        Err(err) => err.message,
                    }
                },
            }
        },
    }
}

/// The name of what an uppercase conversion returns; the text depends on the
/// input characters alone.
pub uninterp spec fn upper_of(s: Seq<char>) -> Seq<char>;

/// Relies on std's `str::to_uppercase`: the uppercase conversion of the
/// string, determined by its characters alone.
#[verifier::external_body]
fn to_uppercase_string(s: &str) -> (r: String)
    ensures
        r@ == upper_of(s@),
{
    s.to_uppercase()
}

/// The read-evaluate-print loop over a console.
pub struct Calculator<'a, C: Console> {
    console: &'a C,
}

impl<'a, C: Console> Calculator<'a, C> {
    pub fn new(console: &'a C) -> (r: Calculator<'a, C>) {
        Calculator { console }
    }

    /// Prints the banner, then repeats: prompt, read a line, uppercase it,
    /// stop on the exit word, otherwise print what the line evaluates to.
    /// The loop carries a step counter far beyond any real session, so that
    /// it provably terminates.
    pub fn run(&mut self) {
        self.console.println("### Calculator ver. 1.0 ###");
        let mut steps_left: u64 = u64::MAX;
        while steps_left > 0
            decreases steps_left,
        {
            steps_left = steps_left - 1;
            self.console.print(">>> ");
            let line = self.console.readline();
            let input = to_uppercase_string(line.as_str());
            let exit_word = String::from_str("EXIT");
            if input == exit_word {
                break;
            }
            let output = calculate_line(input.as_str());
            self.console.println(output.as_str());
        }
    }
}

} // verus!
