use vstd::prelude::*;

verus! {

/// Whether syn takes the text for an identifier where one is expected: a single
/// identifier that is not a keyword.
pub uninterp spec fn accepted_ident(name: Seq<char>) -> bool;

/// The value of an integer literal written as the text, where the text is one and its
/// value fits in an `i64`.
pub uninterp spec fn int_literal_value(text: Seq<char>) -> Option<i64>;

/// Relies on `syn::parse_str::<syn::Ident>`: it succeeds on the text of an identifier
/// that is not a keyword, and fails otherwise.
#[verifier::external_body]
pub(crate) fn is_accepted_ident(name: &str) -> (r: bool)
    ensures
        r == accepted_ident(name@),
{
    syn::parse_str::<syn::Ident>(name).is_ok()
}

/// Relies on `syn::parse_str::<syn::LitInt>` to read the text as an integer literal
/// (a leading `-` included), and on `syn::LitInt::base10_parse::<i64>` for its value.
#[verifier::external_body]
pub(crate) fn literal_value(text: &str) -> (r: Option<i64>)
    ensures
        r == int_literal_value(text@),
{
    match syn::parse_str::<syn::LitInt>(text) {
        Ok(lit) => lit.base10_parse::<i64>().ok(),
        Err(_) => None,
    }
}

} // verus!
