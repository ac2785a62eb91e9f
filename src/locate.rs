use vstd::prelude::*;
use crate::expand::repeat;
use crate::invocation::{Invocation, effective_end};
use crate::token::{
    Delimiter, Token, TokenTree, lemma_group_inner, lemma_trees_push, copy_token, tree_of,
    trees_of,
};

verus! {

broadcast use vstd::std_specs::vec::group_vec_axioms, vstd::seq::group_seq_axioms;

/// `s` starts with a repetition marker: `#`, a parenthesized group, `*`.
pub open spec fn marker_at_front(s: Seq<TokenTree>) -> bool {
    &&& s.len() >= 3
    &&& s[0] is Punct
    &&& s[0]->Punct_ch == '#'
    &&& s[1] is Group
    &&& s[1]->Group_delimiter == Delimiter::Parenthesis
    &&& s[2] is Punct
    &&& s[2]->Punct_ch == '*'
}

/// Whether a repetition marker stands anywhere in `s`, at any depth outside other markers.
pub open spec fn contains_marker(s: Seq<TokenTree>) -> bool
    decreases s,
{
    if s.len() == 0 {
        false
    } else if marker_at_front(s) {
        true
    } else {
        (s[0] is Group && contains_marker(s[0]->Group_inner)) || contains_marker(
            s.subrange(1, s.len() as int),
        )
    }
}

/// `s` with each repetition marker replaced by its contents substituted once for each
/// index from `start` up to, not including, `end`; everything else is kept as it is.
pub open spec fn expand_markers(s: Seq<TokenTree>, binder: Seq<char>, start: int, end: int) -> Seq<
    TokenTree,
>
    decreases s,
{
    if s.len() == 0 {
        seq![]
    } else if marker_at_front(s) {
        repeat(s[1]->Group_inner, binder, start, end) + expand_markers(
            s.subrange(3, s.len() as int),
            binder,
            start,
            end,
        )
    } else {
        seq![expand_markers_tree(s[0], binder, start, end)] + expand_markers(
            s.subrange(1, s.len() as int),
            binder,
            start,
            end,
        )
    }
}

/// One tree with the repetition markers inside it expanded.
pub open spec fn expand_markers_tree(t: TokenTree, binder: Seq<char>, start: int, end: int) -> TokenTree
    decreases t,
{
    match t {
        TokenTree::Group { delimiter, inner, span } => TokenTree::Group {
            delimiter,
            inner: expand_markers(inner, binder, start, end),
            span,
        },
        _ => t,
    }
}

/// The trees of two sequences joined are their trees joined.
pub proof fn lemma_trees_concat(a: Seq<Token>, b: Seq<Token>)
    ensures
        trees_of(a + b) == trees_of(a) + trees_of(b),
{
    assert(trees_of(a + b) =~= trees_of(a) + trees_of(b));
}

/// Whether `v` holds a repetition marker at `idx`.
fn marker_at(v: &Vec<Token>, idx: usize) -> (r: bool)
    requires
        idx < v.len(),
    ensures
        r == marker_at_front(trees_of(v@).subrange(idx as int, v.len() as int)),
{
    let ghost rest = trees_of(v@).subrange(idx as int, v.len() as int);
    if v.len() - idx < 3 {
        return false;
    }
    assert(rest[0] == tree_of(v@[idx as int]));
    assert(rest[1] == tree_of(v@[idx + 1]));
    assert(rest[2] == tree_of(v@[idx + 2]));
    let opens = match &v[idx] {
        Token::Punct { ch, .. } => *ch == '#',
        _ => false,
    };
    let grouped = match &v[idx + 1] {
        Token::Group { delimiter, .. } => *delimiter == Delimiter::Parenthesis,
        _ => false,
    };
    let closes = match &v[idx + 2] {
        Token::Punct { ch, .. } => *ch == '*',
        _ => false,
    };
    opens && grouped && closes
}

impl Invocation {
    /// `ts` substituted once for each index of the range, one after another.
    pub fn expand_range(&self, ts: &Vec<Token>) -> (r: Vec<Token>)
        ensures
            trees_of(r@) == repeat(
                trees_of(ts@),
                self.binder@,
                self.start as int,
                effective_end(self.end as int, self.inclusive),
            ),
    {
        let ghost whole = trees_of(ts@);
        let ghost start = self.start as int;
        let stop: i128 = if self.inclusive {
            self.end as i128 + 1
        } else {
            self.end as i128
        };
        let mut r: Vec<Token> = Vec::new();
        let mut i: i128 = self.start as i128;
        assert(trees_of(r@) =~= seq![]);
        while i < stop
            invariant
                stop == effective_end(self.end as int, self.inclusive),
                start == self.start as int,
                start <= i,
                i <= stop || i == start,
                i <= i64::MAX + 1,
                trees_of(r@) == repeat(whole, self.binder@, start, i as int),
                whole == trees_of(ts@),
            decreases stop - i,
        {
            let mut once = self.expand(ts, i as i64);
            let ghost before = r@;
            let ghost added = once@;
            r.append(&mut once);
            proof {
                lemma_trees_concat(before, added);
            }
            i = i + 1;
        }
        r
    }

    /// Expands, in place, each repetition marker found in `ts` at any depth, and keeps
    /// everything else as it is; reports whether any marker was found.
    pub fn expand_block(&self, ts: &Vec<Token>) -> (r: (bool, Vec<Token>))
        ensures
            r.0 == contains_marker(trees_of(ts@)),
            trees_of(r.1@) == expand_markers(
                trees_of(ts@),
                self.binder@,
                self.start as int,
                effective_end(self.end as int, self.inclusive),
            ),
        decreases ts,
    {
        let ghost whole = trees_of(ts@);
        let ghost b = self.binder@;
        let ghost start = self.start as int;
        let ghost end = effective_end(self.end as int, self.inclusive);
        let mut found = false;
        let mut r: Vec<Token> = Vec::new();
        let mut idx: usize = 0;
        assert(whole.subrange(0, ts.len() as int) =~= whole);
        assert(trees_of(r@) + expand_markers(whole, b, start, end) =~= expand_markers(
            whole,
            b,
            start,
            end,
        ));
        while idx < ts.len()
            invariant
                idx <= ts.len(),
                whole == trees_of(ts@),
                b == self.binder@,
                start == self.start as int,
                end == effective_end(self.end as int, self.inclusive),
                contains_marker(whole) == (found || contains_marker(
                    whole.subrange(idx as int, ts.len() as int),
                )),
                expand_markers(whole, b, start, end) == trees_of(r@) + expand_markers(
                    whole.subrange(idx as int, ts.len() as int),
                    b,
                    start,
                    end,
                ),
            decreases ts.len() - idx,
        {
            let ghost rest = whole.subrange(idx as int, ts.len() as int);
            assert(rest[0] == tree_of(ts@[idx as int]));
            let ghost before = r@;
            if marker_at(ts, idx) {
                assert(rest[1] == tree_of(ts@[idx + 1]));
                let mut repeated = match &ts[idx + 1] {
                    Token::Group { delimiter, inner, span } => {
                        proof {
                            lemma_group_inner(*delimiter, *inner, *span);
                        }
                        self.expand_range(inner)
                    },
                    _ => {
                        assert(false);
                        Vec::new()
                    },
                };
                let ghost added = repeated@;
                r.append(&mut repeated);
                found = true;
                proof {
                    lemma_trees_concat(before, added);
                    assert(rest.subrange(3, rest.len() as int) =~= whole.subrange(
                        idx + 3,
                        ts.len() as int,
                    ));
                }
                idx += 3;
            } else {
                let t = match &ts[idx] {
                    Token::Group { delimiter, inner, span } => {
                        let (inner_found, expanded) = self.expand_block(inner);
                        if inner_found {
                            found = true;
                        }
                        proof {
                            lemma_group_inner(*delimiter, *inner, *span);
                            lemma_group_inner(*delimiter, expanded, *span);
                        }
                        Token::Group { delimiter: *delimiter, inner: expanded, span: *span }
                    },
                    _ => copy_token(&ts[idx]),
                };
                r.push(t);
                proof {
                    lemma_trees_push(before, t);
                    assert(rest.subrange(1, rest.len() as int) =~= whole.subrange(
                        idx + 1,
                        ts.len() as int,
                    ));
                    assert(tree_of(t) == expand_markers_tree(rest[0], b, start, end));
                }
                idx += 1;
            }
        }
        assert(whole.subrange(idx as int, ts.len() as int) =~= seq![]);
        assert(trees_of(r@) + seq![] =~= trees_of(r@));
        (found, r)
    }
}

} // verus!
