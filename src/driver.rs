use vstd::prelude::*;
use crate::expand::repeat;
use crate::invocation::{Invocation, InvocationView, effective_end};
use crate::locate::{contains_marker, expand_markers};
use crate::parse::{SyntaxError, parse_spec};
use crate::token::{Token, TokenTree, trees_of};

verus! {

/// The output of an invocation. Where its body holds a repetition marker, only the
/// markers are expanded; otherwise the whole body is substituted once per index.
pub open spec fn expand_invocation(inv: InvocationView) -> Seq<TokenTree> {
    let end = effective_end(inv.end, inv.inclusive);
    if contains_marker(inv.body) {
        expand_markers(inv.body, inv.binder, inv.start, end)
    } else {
        repeat(inv.body, inv.binder, inv.start, end)
    }
}

/// What a call with input `s` turns into: its expansion, or the syntax error in it.
pub open spec fn seq_spec(s: Seq<TokenTree>) -> Result<Seq<TokenTree>, SyntaxError> {
    match parse_spec(s) {
        Ok(inv) => Ok(expand_invocation(inv)),
        Err(e) => Err(e),
    }
}

/// The value of an output.
pub open spec fn result_model(r: Result<Vec<Token>, SyntaxError>) -> Result<
    Seq<TokenTree>,
    SyntaxError,
> {
    match r {
        Ok(v) => Ok(trees_of(v@)),
        Err(e) => Err(e),
    }
}

impl Invocation {
    /// The output of this invocation: its markers expanded if it has any, else its
    /// whole body once per index.
    pub fn expand_all(&self) -> (r: Vec<Token>)
        ensures
            trees_of(r@) == expand_invocation(self@),
    {
        let (found, rewritten) = self.expand_block(&self.body);
        if found {
            rewritten
        } else {
            self.expand_range(&self.body)
        }
    }
}

/// Expands the call `binder in start .. end { body }` (or `..=`) written as `input`.
pub fn seq(input: &Vec<Token>) -> (r: Result<Vec<Token>, SyntaxError>)
    ensures
        result_model(r) == seq_spec(trees_of(input@)),
{
    match Invocation::parse(input) {
        Ok(inv) => Ok(inv.expand_all()),
        Err(e) => Err(e),
    }
}

} // verus!
