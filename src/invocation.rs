use vstd::prelude::*;
use crate::token::{Token, TokenTree, trees_of};

verus! {

/// A parsed call: the binder, the range it runs over, and the body.
pub struct Invocation {
    pub binder: String,
    pub start: i64,
    pub end: i64,
    pub inclusive: bool,
    pub body: Vec<Token>,
}

/// The mathematical value of an invocation.
pub struct InvocationView {
    pub binder: Seq<char>,
    pub start: int,
    pub end: int,
    pub inclusive: bool,
    pub body: Seq<TokenTree>,
}

impl View for Invocation {
    type V = InvocationView;

    open spec fn view(&self) -> InvocationView {
        InvocationView {
            binder: self.binder@,
            start: self.start as int,
            end: self.end as int,
            inclusive: self.inclusive,
            body: trees_of(self.body@),
        }
    }
}

/// The first index past the range: `end`, or `end + 1` when the end is included.
pub open spec fn effective_end(end: int, inclusive: bool) -> int {
    if inclusive {
        end + 1
    } else {
        end
    }
}

} // verus!
