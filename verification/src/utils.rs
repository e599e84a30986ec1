//! Diagnostics: what went wrong, where, and the line that reports it.

use crate::context::Ctx;
use crate::text::{decimal, joined, unsigned_decimal};
use crate::token::{Token, TokenView};
use vstd::prelude::*;

verus! {

/// A rejected input: the reason and the source position of the token at
/// which the parser gave up (`(0, 0)` where the input ended before it).
#[derive(Debug)]
pub struct ParseError {
    pub message: String,
    pub line: usize,
    pub column: usize,
}

/// The mathematical value of a [`ParseError`].
pub struct Fault {
    pub message: Seq<char>,
    pub line: usize,
    pub column: usize,
}

impl View for ParseError {
    type V = Fault;

    open spec fn view(&self) -> Fault {
        Fault { message: self.message@, line: self.line, column: self.column }
    }
}

/// The fault with the given message at the token with the given index.
pub open spec fn fault_at(toks: Seq<TokenView>, index: int, message: Seq<char>) -> Fault {
    if 0 <= index < toks.len() {
        Fault { message, line: toks[index].position().0, column: toks[index].position().1 }
    } else {
        Fault { message, line: 0, column: 0 }
    }
}

/// The line that reports a parse error: `file:line:col: Error: msg`.
pub open spec fn parse_diagnostic(file: Seq<char>, line: int, column: int, msg: Seq<char>) -> Seq<
    char,
> {
    file + ":"@ + decimal(line) + ":"@ + decimal(column) + ": Error: "@ + msg
}

/// The line that reports an evaluation error: `file: Error: msg`.
pub open spec fn eval_diagnostic(file: Seq<char>, msg: Seq<char>) -> Seq<char> {
    file + ": Error: "@ + msg
}

fn diagnostic_line(file: &String, line: usize, column: usize, msg: &str) -> (out: String)
    ensures
        out@ == parse_diagnostic(file@, line as int, column as int, msg@),
{
    let out = joined(file.clone(), ":");
    let out = joined(out, unsigned_decimal(line as u64).as_str());
    let out = joined(out, ":");
    let out = joined(out, unsigned_decimal(column as u64).as_str());
    let out = joined(out, ": Error: ");
    joined(out, msg)
}

/// The diagnostic for a parse error at the token `tokens[index]`.
pub fn dart_parseerror(msg: &str, ctx: &Ctx, tokens: &Vec<Token>, index: usize) -> (out: String)
    requires
        index < tokens.len(),
    ensures
        out@ == parse_diagnostic(
            ctx.filepath@,
            tokens[index as int]@.position().0 as int,
            tokens[index as int]@.position().1 as int,
            msg@,
        ),
{
    let (line, column) = tokens[index].find_token_position();
    diagnostic_line(&ctx.filepath, line, column, msg)
}

/// The diagnostic for an evaluation error.
pub fn dart_evalerror(msg: &str, ctx: &Ctx) -> (out: String)
    ensures
        out@ == eval_diagnostic(ctx.filepath@, msg@),
{
    let out = joined(ctx.filepath.clone(), ": Error: ");
    joined(out, msg)
}

impl ParseError {
    /// The diagnostic for this error in the file of `ctx`.
    pub fn report(&self, ctx: &Ctx) -> (out: String)
        ensures
            out@ == parse_diagnostic(ctx.filepath@, self.line as int, self.column as int, self.message@),
    {
        diagnostic_line(&ctx.filepath, self.line, self.column, self.message.as_str())
    }
}

} // verus!
