use vstd::prelude::*;
use crate::decimal::decimal;
use crate::driver::{result_model, seq_spec};
use crate::expand::{paste_at_front, substitute, substitute_tree};
use crate::invocation::effective_end;
use crate::locate::{contains_marker, expand_markers, expand_markers_tree, marker_at_front};
use crate::parse::{SyntaxError, parse_spec};
use crate::token::{Delimiter, Span, Token, TokenTree, adjacent, trees_of};

verus! {

broadcast use vstd::seq::group_seq_axioms;

/// Whether an identifier named `binder` stands anywhere in `s`, at any depth.
pub open spec fn mentions(s: Seq<TokenTree>, binder: Seq<char>) -> bool
    decreases s,
{
    if s.len() == 0 {
        false
    } else {
        mentions_tree(s[0], binder) || mentions(s.subrange(1, s.len() as int), binder)
    }
}

/// Whether an identifier named `binder` stands anywhere in `t`.
pub open spec fn mentions_tree(t: TokenTree, binder: Seq<char>) -> bool
    decreases t,
{
    match t {
        TokenTree::Ident { name, .. } => name == binder,
        TokenTree::Group { inner, .. } => mentions(inner, binder),
        _ => false,
    }
}

/// A range that holds no index gives no output, where the body has no repetition
/// marker.
pub proof fn lemma_empty_range_gives_nothing(s: Seq<TokenTree>)
    requires
        parse_spec(s) is Ok,
        parse_spec(s)->Ok_0.start >= effective_end(
            parse_spec(s)->Ok_0.end,
            parse_spec(s)->Ok_0.inclusive,
        ),
        !contains_marker(parse_spec(s)->Ok_0.body),
    ensures
        seq_spec(s) == Ok::<Seq<TokenTree>, SyntaxError>(Seq::empty()),
{
}

/// Substitution leaves a sequence that never names the binder exactly as it is.
pub proof fn lemma_substitute_keeps_unmentioned(s: Seq<TokenTree>, binder: Seq<char>, n: int)
    requires
        !mentions(s, binder),
    ensures
        substitute(s, binder, n) == s,
    decreases s,
{
    if s.len() > 0 {
        let rest = s.subrange(1, s.len() as int);
        if paste_at_front(s, binder) {
            let rest2 = rest.subrange(1, rest.len() as int);
            assert(rest2 =~= s.subrange(2, s.len() as int));
            assert(rest2[0] == s[2]);
            assert(mentions_tree(rest2[0], binder));
            assert(mentions(rest2, binder));
            assert(mentions(rest, binder));
        }
        lemma_substitute_tree_keeps_unmentioned(s[0], binder, n);
        lemma_substitute_keeps_unmentioned(rest, binder, n);
        assert(seq![s[0]] + rest =~= s);
    }
}

/// Substitution leaves a tree that never names the binder exactly as it is.
pub proof fn lemma_substitute_tree_keeps_unmentioned(t: TokenTree, binder: Seq<char>, n: int)
    requires
        !mentions_tree(t, binder),
    ensures
        substitute_tree(t, binder, n) == t,
    decreases t,
{
    if let TokenTree::Group { inner, .. } = t {
        lemma_substitute_keeps_unmentioned(inner, binder, n);
    }
}

/// Where no repetition marker stands, marker expansion changes nothing.
pub proof fn lemma_markers_keep_unmarked(s: Seq<TokenTree>, binder: Seq<char>, start: int, end: int)
    requires
        !contains_marker(s),
    ensures
        expand_markers(s, binder, start, end) == s,
    decreases s,
{
    if s.len() > 0 {
        let rest = s.subrange(1, s.len() as int);
        if let TokenTree::Group { inner, .. } = s[0] {
            lemma_markers_keep_unmarked(inner, binder, start, end);
        }
        lemma_markers_keep_unmarked(rest, binder, start, end);
        assert(expand_markers_tree(s[0], binder, start, end) == s[0]);
        assert(seq![s[0]] + rest =~= s);
    }
}

/// In marker expansion a token outside every marker, the binder included, is copied
/// unchanged, in its place.
pub proof fn lemma_markers_copy_plain_token(
    s: Seq<TokenTree>,
    binder: Seq<char>,
    start: int,
    end: int,
)
    requires
        s.len() > 0,
        !marker_at_front(s),
        !(s[0] is Group),
    ensures
        expand_markers(s, binder, start, end) == seq![s[0]] + expand_markers(
            s.subrange(1, s.len() as int),
            binder,
            start,
            end,
        ),
{
    assert(expand_markers_tree(s[0], binder, start, end) == s[0]);
}

/// In substitution a token that is neither the binder, nor a group, nor the start of a
/// pasting is copied unchanged, in its place.
pub proof fn lemma_substitute_copies_plain_token(s: Seq<TokenTree>, binder: Seq<char>, n: int)
    requires
        s.len() > 0,
        !paste_at_front(s, binder),
        !(s[0] is Group),
        !(s[0] is Ident && s[0]->Ident_name == binder),
    ensures
        substitute(s, binder, n) == seq![s[0]] + substitute(
            s.subrange(1, s.len() as int),
            binder,
            n,
        ),
{
    assert(substitute_tree(s[0], binder, n) == s[0]);
}

/// A group outside any marker keeps its delimiter and span, and the markers within it
/// are expanded in place; it holds a marker exactly when its contents do.
pub proof fn lemma_markers_in_group(
    delimiter: Delimiter,
    inner: Seq<TokenTree>,
    span: Span,
    rest: Seq<TokenTree>,
    binder: Seq<char>,
    start: int,
    end: int,
)
    ensures
        expand_markers(
            seq![TokenTree::Group { delimiter, inner, span }] + rest,
            binder,
            start,
            end,
        ) == seq![TokenTree::Group { delimiter, inner: expand_markers(inner, binder, start, end), span }]
            + expand_markers(rest, binder, start, end),
        contains_marker(seq![TokenTree::Group { delimiter, inner, span }] + rest) == (
        contains_marker(inner) || contains_marker(rest)),
{
    let s = seq![TokenTree::Group { delimiter, inner, span }] + rest;
    assert(s.subrange(1, s.len() as int) =~= rest);
    assert(s[0] == TokenTree::Group { delimiter, inner, span });
    assert(expand_markers_tree(s[0], binder, start, end) == TokenTree::Group {
        delimiter,
        inner: expand_markers(inner, binder, start, end),
        span,
    });
}

/// An identifier, `~` and the binder fuse into one identifier only where each is
/// adjacent to the next; otherwise they stay three tokens, the binder becoming the
/// index.
pub proof fn lemma_paste_needs_adjacency(
    prefix: Seq<char>,
    prefix_span: Span,
    tilde_span: Span,
    binder: Seq<char>,
    binder_span: Span,
    n: int,
)
    requires
        prefix != binder,
    ensures
        ({
            let s = seq![
                TokenTree::Ident { name: prefix, span: prefix_span },
                TokenTree::Punct { ch: '~', span: tilde_span },
                TokenTree::Ident { name: binder, span: binder_span },
            ];
            &&& adjacent(prefix_span, tilde_span) && adjacent(tilde_span, binder_span)
                ==> substitute(s, binder, n) == seq![
                TokenTree::Ident { name: prefix + decimal(n), span: prefix_span },
            ]
            &&& !(adjacent(prefix_span, tilde_span) && adjacent(tilde_span, binder_span))
                ==> substitute(s, binder, n) == seq![
                TokenTree::Ident { name: prefix, span: prefix_span },
                TokenTree::Punct { ch: '~', span: tilde_span },
                TokenTree::Literal { text: decimal(n), span: binder_span },
            ]
        }),
{
    let s = seq![
        TokenTree::Ident { name: prefix, span: prefix_span },
        TokenTree::Punct { ch: '~', span: tilde_span },
        TokenTree::Ident { name: binder, span: binder_span },
    ];
    let s1 = s.subrange(1, 3);
    let s2 = s1.subrange(1, 2);
    assert(s.subrange(3, 3) =~= Seq::<TokenTree>::empty());
    assert(s2.subrange(1, 1) =~= Seq::<TokenTree>::empty());
    assert(s1 =~= seq![s[1], s[2]]);
    assert(s2 =~= seq![s[2]]);
    assert(substitute(s2.subrange(1, 1), binder, n) == Seq::<TokenTree>::empty());
    assert(substitute(s.subrange(3, 3), binder, n) == Seq::<TokenTree>::empty());
    assert(substitute_tree(s[2], binder, n) == TokenTree::Literal {
        text: decimal(n),
        span: binder_span,
    });
    assert(substitute_tree(s[1], binder, n) == s[1]);
    assert(substitute_tree(s[0], binder, n) == s[0]);
    assert(substitute(s2, binder, n) =~= seq![
        TokenTree::Literal { text: decimal(n), span: binder_span },
    ]);
    assert(substitute(s1, binder, n) =~= seq![
        TokenTree::Punct { ch: '~', span: tilde_span },
        TokenTree::Literal { text: decimal(n), span: binder_span },
    ]);
    assert(substitute(s, binder, n) =~= seq![s[0]] + substitute(s1, binder, n) || substitute(
        s,
        binder,
        n,
    ) =~= seq![TokenTree::Ident { name: prefix + decimal(n), span: prefix_span }]);
}

/// Expanding the same input twice gives the same output, token for token and span for
/// span.
pub proof fn lemma_expansion_deterministic(
    a: Seq<Token>,
    b: Seq<Token>,
    ra: Result<Vec<Token>, SyntaxError>,
    rb: Result<Vec<Token>, SyntaxError>,
)
    requires
        trees_of(a) == trees_of(b),
        result_model(ra) == seq_spec(trees_of(a)),
        result_model(rb) == seq_spec(trees_of(b)),
    ensures
        result_model(ra) == result_model(rb),
{
}

} // verus!
