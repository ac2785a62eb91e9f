use vstd::prelude::*;
use crate::invocation::{Invocation, InvocationView};
use crate::lexical::{accepted_ident, int_literal_value, is_accepted_ident, literal_value};
use crate::token::{
    Delimiter, Span, Token, TokenTree, adjacent, copy_tokens, lemma_group_inner, span_of,
    spans_adjacent, token_span, trees_of,
};

verus! {

broadcast use vstd::std_specs::vec::group_vec_axioms, vstd::seq::group_seq_axioms;

/// What a malformed invocation lacks.
#[derive(Clone, Copy, Debug, PartialEq, Eq, Structural)]
pub enum SyntaxErrorKind {
    /// The binder is not an identifier.
    ExpectedIdent,
    /// The keyword `in` does not follow the binder.
    ExpectedIn,
    /// A bound is not an integer literal that fits in an `i64`.
    ExpectedInteger,
    /// Neither `..` nor `..=` follows the start.
    ExpectedRange,
    /// The body is not enclosed in braces.
    ExpectedBraces,
    /// Something follows the body.
    UnexpectedToken,
}

/// A malformed invocation: what is wrong, and the span of the token where it was
/// found (none when the input ended there).
#[derive(Clone, Copy, Debug, PartialEq, Eq)]
pub struct SyntaxError {
    pub kind: SyntaxErrorKind,
    pub span: Option<Span>,
}

/// The error of the given kind at token `pos` of `s`.
pub open spec fn error_at(s: Seq<TokenTree>, pos: int, kind: SyntaxErrorKind) -> SyntaxError {
    SyntaxError {
        kind,
        span: if 0 <= pos < s.len() {
            Some(span_of(s[pos]))
        } else {
            None
        },
    }
}

/// Token `pos` of `s` is the punctuation `c`.
pub open spec fn is_punct(s: Seq<TokenTree>, pos: int, c: char) -> bool {
    0 <= pos < s.len() && s[pos] is Punct && s[pos]->Punct_ch == c
}

/// Tokens `pos` and `pos + 1` of `s` are two adjacent dots.
pub open spec fn range_op_at(s: Seq<TokenTree>, pos: int) -> bool {
    is_punct(s, pos, '.') && is_punct(s, pos + 1, '.') && adjacent(
        span_of(s[pos]),
        span_of(s[pos + 1]),
    )
}

/// The integer bound at token `pos` of `s`, a literal with or without a `-` before it:
/// its value and how many tokens it takes.
pub open spec fn bound_at(s: Seq<TokenTree>, pos: int) -> Option<(i64, int)> {
    if 0 <= pos < s.len() && s[pos] is Literal {
        match int_literal_value(s[pos]->Literal_text) {
            Some(v) => Some((v, 1)),
            None => None,
        }
    } else if is_punct(s, pos, '-') && pos + 1 < s.len() && s[pos + 1] is Literal {
        match int_literal_value(seq!['-'] + s[pos + 1]->Literal_text) {
            Some(v) => Some((v, 2)),
            None => None,
        }
    } else {
        None
    }
}

/// The invocation `binder in start .. end { body }` (or `..=`) that `s` spells, or the
/// first thing wrong with it.
pub open spec fn parse_spec(s: Seq<TokenTree>) -> Result<InvocationView, SyntaxError> {
    if !(s.len() > 0 && s[0] is Ident && accepted_ident(s[0]->Ident_name)) {
        Err(error_at(s, 0, SyntaxErrorKind::ExpectedIdent))
    } else if !(s.len() > 1 && s[1] is Ident && s[1]->Ident_name == seq!['i', 'n']) {
        Err(error_at(s, 1, SyntaxErrorKind::ExpectedIn))
    } else {
        match bound_at(s, 2) {
            None => Err(error_at(s, 2, SyntaxErrorKind::ExpectedInteger)),
            Some((start, k)) => {
                let p = 2 + k;
                if !range_op_at(s, p) {
                    Err(error_at(s, p, SyntaxErrorKind::ExpectedRange))
                } else {
                    let inclusive = is_punct(s, p + 2, '=');
                    let q = if inclusive {
                        p + 3
                    } else {
                        p + 2
                    };
                    match bound_at(s, q) {
                        None => Err(error_at(s, q, SyntaxErrorKind::ExpectedInteger)),
                        Some((end, k2)) => {
                            let g = q + k2;
                            if !(g < s.len() && s[g] is Group && s[g]->Group_delimiter
                                == Delimiter::Brace) {
                                Err(error_at(s, g, SyntaxErrorKind::ExpectedBraces))
                            } else if g + 1 < s.len() {
                                Err(error_at(s, g + 1, SyntaxErrorKind::UnexpectedToken))
                            } else {
                                Ok(
                                    InvocationView {
                                        binder: s[0]->Ident_name,
                                        start: start as int,
                                        end: end as int,
                                        inclusive,
                                        body: s[g]->Group_inner,
                                    },
                                )
                            }
                        },
                    }
                }
            },
        }
    }
}

fn error_at_pos(v: &Vec<Token>, pos: usize, kind: SyntaxErrorKind) -> (e: SyntaxError)
    ensures
        e == error_at(trees_of(v@), pos as int, kind),
{
    if pos < v.len() {
        SyntaxError { kind, span: Some(token_span(&v[pos])) }
    } else {
        SyntaxError { kind, span: None }
    }
}

fn punct_at(v: &Vec<Token>, pos: usize, c: char) -> (r: bool)
    ensures
        r == is_punct(trees_of(v@), pos as int, c),
{
    if pos < v.len() {
        match &v[pos] {
            Token::Punct { ch, .. } => *ch == c,
            _ => false,
        }
    } else {
        false
    }
}

fn range_op(v: &Vec<Token>, pos: usize) -> (r: bool)
    requires
        pos < usize::MAX,
    ensures
        r == range_op_at(trees_of(v@), pos as int),
{
    if punct_at(v, pos, '.') && punct_at(v, pos + 1, '.') {
        spans_adjacent(token_span(&v[pos]), token_span(&v[pos + 1]))
    } else {
        false
    }
}

fn bound(v: &Vec<Token>, pos: usize) -> (r: Option<(i64, usize)>)
    requires
        pos < usize::MAX,
    ensures
        match r {
            Some((value, k)) => bound_at(trees_of(v@), pos as int) == Some((value, k as int)),
            None => bound_at(trees_of(v@), pos as int) is None,
        },
{
    if pos < v.len() {
        if let Token::Literal { text, .. } = &v[pos] {
            return match literal_value(text.as_str()) {
                Some(value) => Some((value, 1)),
                None => None,
            };
        }
    }
    if punct_at(v, pos, '-') && pos + 1 < v.len() {
        if let Token::Literal { text, .. } = &v[pos + 1] {
            let mut negated = String::new();
            proof {
                reveal_strlit("-");
            }
            negated.append("-");
            negated.append(text.as_str());
            assert(negated@ =~= seq!['-'] + text@);
            return match literal_value(negated.as_str()) {
                Some(value) => Some((value, 2)),
                None => None,
            };
        }
    }
    None
}

impl Invocation {
    /// Reads `binder in start .. end { body }`, or the same with `..=`, from `input`.
    pub fn parse(input: &Vec<Token>) -> (r: Result<Invocation, SyntaxError>)
        ensures
            match r {
                Ok(inv) => parse_spec(trees_of(input@)) == Ok::<InvocationView, SyntaxError>(
                    inv@,
                ),
                Err(e) => parse_spec(trees_of(input@)) == Err::<InvocationView, SyntaxError>(e),
            },
    {
        let ghost s = trees_of(input@);
        proof {
            reveal_strlit("in");
        }
        let binder = if input.len() > 0 {
            match &input[0] {
                Token::Ident { name, .. } => {
                    if is_accepted_ident(name.as_str()) {
                        name.clone()
                    } else {
                        return Err(error_at_pos(input, 0, SyntaxErrorKind::ExpectedIdent));
                    }
                },
                _ => return Err(error_at_pos(input, 0, SyntaxErrorKind::ExpectedIdent)),
            }
        } else {
            return Err(error_at_pos(input, 0, SyntaxErrorKind::ExpectedIdent));
        };
        let mut keyword = String::new();
        keyword.append("in");
        assert(keyword@ =~= seq!['i', 'n']);
        let has_in = input.len() > 1 && match &input[1] {
            Token::Ident { name, .. } => *name == keyword,
            _ => false,
        };
        if !has_in {
            return Err(error_at_pos(input, 1, SyntaxErrorKind::ExpectedIn));
        }
        let (start, k) = match bound(input, 2) {
            Some(found) => found,
            None => return Err(error_at_pos(input, 2, SyntaxErrorKind::ExpectedInteger)),
        };
        let p = 2 + k;
        if !range_op(input, p) {
            return Err(error_at_pos(input, p, SyntaxErrorKind::ExpectedRange));
        }
        let inclusive = punct_at(input, p + 2, '=');
        let q = if inclusive {
            p + 3
        } else {
            p + 2
        };
        let (end, k2) = match bound(input, q) {
            Some(found) => found,
            None => return Err(error_at_pos(input, q, SyntaxErrorKind::ExpectedInteger)),
        };
        let g = q + k2;
        let body = if g < input.len() {
            match &input[g] {
                Token::Group { delimiter: Delimiter::Brace, inner, span } => {
                    proof {
                        lemma_group_inner(Delimiter::Brace, *inner, *span);
                    }
                    copy_tokens(inner)
                },
                _ => return Err(error_at_pos(input, g, SyntaxErrorKind::ExpectedBraces)),
            }
        } else {
            return Err(error_at_pos(input, g, SyntaxErrorKind::ExpectedBraces));
        };
        if g + 1 < input.len() {
            return Err(error_at_pos(input, g + 1, SyntaxErrorKind::UnexpectedToken));
        }
        Ok(Invocation { binder, start, end, inclusive, body })
    }
}

} // verus!
