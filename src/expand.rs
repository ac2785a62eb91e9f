use vstd::prelude::*;
use crate::decimal::{decimal, decimal_text};
use crate::invocation::Invocation;
use crate::token::{
    Token, TokenTree, adjacent, copy_token, lemma_group_inner, lemma_trees_push, span_of, spans_adjacent, token_span, tree_of, trees_of,
};

verus! {

broadcast use vstd::std_specs::vec::group_vec_axioms, vstd::seq::group_seq_axioms;

/// `s` starts with an identifier, `~` and the binder, each adjacent to the next.
pub open spec fn paste_at_front(s: Seq<TokenTree>, binder: Seq<char>) -> bool {
    &&& s.len() >= 3
    &&& s[0] is Ident
    &&& s[1] is Punct
    &&& s[1]->Punct_ch == '~'
    &&& s[2] is Ident
    &&& s[2]->Ident_name == binder
    &&& adjacent(span_of(s[0]), span_of(s[1]))
    &&& adjacent(span_of(s[1]), span_of(s[2]))
}

/// The identifier made by pasting index `n` onto `prefix`.
pub open spec fn pasted(prefix: TokenTree, n: int) -> TokenTree {
    TokenTree::Ident { name: prefix->Ident_name + decimal(n), span: span_of(prefix) }
}

/// `s` with the binder replaced by `n` throughout, and each pasting fused.
pub open spec fn substitute(s: Seq<TokenTree>, binder: Seq<char>, n: int) -> Seq<TokenTree>
    decreases s,
{
    if s.len() == 0 {
        seq![]
    } else if paste_at_front(s, binder) {
        seq![pasted(s[0], n)] + substitute(s.subrange(3, s.len() as int), binder, n)
    } else {
        seq![substitute_tree(s[0], binder, n)] + substitute(
            s.subrange(1, s.len() as int),
            binder,
            n,
        )
    }
}

/// One tree with the binder replaced by `n` throughout.
pub open spec fn substitute_tree(t: TokenTree, binder: Seq<char>, n: int) -> TokenTree
    decreases t,
{
    match t {
        TokenTree::Ident { name, span } => if name == binder {
            TokenTree::Literal { text: decimal(n), span }
        } else {
            t
        },
        TokenTree::Group { delimiter, inner, span } => TokenTree::Group {
            delimiter,
            inner: substitute(inner, binder, n),
            span,
        },
        _ => t,
    }
}

/// The body substituted once for each index from `start` up to, not including, `end`,
/// one after another.
pub open spec fn repeat(s: Seq<TokenTree>, binder: Seq<char>, start: int, end: int) -> Seq<
    TokenTree,
>
    decreases end - start,
{
    if end <= start {
        seq![]
    } else {
        repeat(s, binder, start, end - 1) + substitute(s, binder, end - 1)
    }
}

/// Whether `v` starts at `idx` with a pasting of the binder.
fn paste_at(v: &Vec<Token>, idx: usize, binder: &String) -> (r: bool)
    requires
        idx < v.len(),
    ensures
        r == paste_at_front(trees_of(v@).subrange(idx as int, v.len() as int), binder@),
{
    let ghost rest = trees_of(v@).subrange(idx as int, v.len() as int);
    if v.len() - idx < 3 {
        return false;
    }
    assert(rest[0] == tree_of(v@[idx as int]));
    assert(rest[1] == tree_of(v@[idx + 1]));
    assert(rest[2] == tree_of(v@[idx + 2]));
    match &v[idx] {
        Token::Ident { .. } => {},
        _ => return false,
    }
    match &v[idx + 1] {
        Token::Punct { ch, .. } => {
            if *ch != '~' {
                return false;
            }
        },
        _ => return false,
    }
    match &v[idx + 2] {
        Token::Ident { name, .. } => {
            if !(*name == *binder) {
                return false;
            }
        },
        _ => return false,
    }
    let a = token_span(&v[idx]);
    let b = token_span(&v[idx + 1]);
    let c = token_span(&v[idx + 2]);
    spans_adjacent(a, b) && spans_adjacent(b, c)
}

impl Invocation {
    /// Substitutes index `n` for the binder throughout `ts`, fusing each pasting.
    pub fn expand(&self, ts: &Vec<Token>, n: i64) -> (r: Vec<Token>)
        ensures
            trees_of(r@) == substitute(trees_of(ts@), self.binder@, n as int),
        decreases ts,
    {
        let ghost whole = trees_of(ts@);
        let mut r: Vec<Token> = Vec::new();
        let mut idx: usize = 0;
        assert(whole.subrange(0, ts.len() as int) =~= whole);
        assert(trees_of(r@) + substitute(whole, self.binder@, n as int) =~= substitute(
            whole,
            self.binder@,
            n as int,
        ));
        while idx < ts.len()
            invariant
                idx <= ts.len(),
                whole == trees_of(ts@),
                substitute(whole, self.binder@, n as int) == trees_of(r@) + substitute(
                    whole.subrange(idx as int, ts.len() as int),
                    self.binder@,
                    n as int,
                ),
            decreases ts.len() - idx,
        {
            let ghost rest = whole.subrange(idx as int, ts.len() as int);
            assert(rest[0] == tree_of(ts@[idx as int]));
            if paste_at(ts, idx, &self.binder) {
                let ghost before = r@;
                let (prefix, span) = match &ts[idx] {
                    Token::Ident { name, span } => (name, *span),
                    _ => {
                        assert(false);
                        return r;
                    },
                };
                let digits = decimal_text(n);
                let fused = prefix.clone().concat(digits.as_str());
                let t = Token::Ident { name: fused, span };
                r.push(t);
                proof {
                    lemma_trees_push(before, t);
                    assert(rest.subrange(3, rest.len() as int) =~= whole.subrange(
                        idx + 3,
                        ts.len() as int,
                    ));
                    assert(tree_of(t) == pasted(rest[0], n as int));
                }
                idx += 3;
            } else {
                let ghost before = r@;
                let t = match &ts[idx] {
                    Token::Group { delimiter, inner, span } => {
                        let expanded = self.expand(inner, n);
                        proof {
                            lemma_group_inner(*delimiter, *inner, *span);
                            lemma_group_inner(*delimiter, expanded, *span);
                        }
                        Token::Group { delimiter: *delimiter, inner: expanded, span: *span }
                    },
                    Token::Ident { name, span } => {
                        if *name == self.binder {
                            Token::Literal { text: decimal_text(n), span: *span }
                        } else {
                            copy_token(&ts[idx])
                        }
                    },
                    _ => copy_token(&ts[idx]),
                };
                r.push(t);
                proof {
                    lemma_trees_push(before, t);
                    assert(rest.subrange(1, rest.len() as int) =~= whole.subrange(
                        idx + 1,
                        ts.len() as int,
                    ));
                    assert(tree_of(t) == substitute_tree(rest[0], self.binder@, n as int));
                }
                idx += 1;
            }
            assert(substitute(whole, self.binder@, n as int) == trees_of(r@) + substitute(
                whole.subrange(idx as int, ts.len() as int),
                self.binder@,
                n as int,
            ));
        }
        assert(whole.subrange(idx as int, ts.len() as int) =~= seq![]);
        assert(trees_of(r@) + seq![] =~= trees_of(r@));
        r
    }
}

} // verus!
