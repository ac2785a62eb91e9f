use vstd::prelude::*;

verus! {

broadcast use vstd::std_specs::vec::group_vec_axioms, vstd::seq::group_seq_axioms;

/// A place in the source text: a one-based line and a zero-based column.
#[derive(Clone, Copy, Debug, PartialEq, Eq, Structural)]
pub struct Pos {
    pub line: usize,
    pub column: usize,
}

/// The stretch of source text that a token covers.
#[derive(Clone, Copy, Debug, PartialEq, Eq, Structural)]
pub struct Span {
    pub start: Pos,
    pub end: Pos,
}

/// How a group of tokens is enclosed.
#[derive(Clone, Copy, Debug, PartialEq, Eq, Structural)]
pub enum Delimiter {
    Parenthesis,
    Brace,
    Bracket,
    Invisible,
}

/// One token tree: a single token, or a delimited group of token trees.
#[derive(Debug, PartialEq, Eq)]
pub enum Token {
    Ident { name: String, span: Span },
    Punct { ch: char, span: Span },
    Literal { text: String, span: Span },
    Group { delimiter: Delimiter, inner: Vec<Token>, span: Span },
}

/// The mathematical value of a token tree.
pub enum TokenTree {
    Ident { name: Seq<char>, span: Span },
    Punct { ch: char, span: Span },
    Literal { text: Seq<char>, span: Span },
    Group { delimiter: Delimiter, inner: Seq<TokenTree>, span: Span },
}

pub open spec fn tree_of(t: Token) -> TokenTree
    decreases t,
{
    match t {
        Token::Ident { name, span } => TokenTree::Ident { name: name@, span },
        Token::Punct { ch, span } => TokenTree::Punct { ch, span },
        Token::Literal { text, span } => TokenTree::Literal { text: text@, span },
        Token::Group { delimiter, inner, span } => TokenTree::Group {
            delimiter,
            inner: Seq::new(
                inner@.len(),
                |i: int|
                    if 0 <= i < inner@.len() {
                        tree_of(inner@[i])
                    } else {
                        TokenTree::Punct { ch: ' ', span }
                    },
            ),
            span,
        },
    }
}

/// The trees of a sequence of tokens.
pub open spec fn trees_of(s: Seq<Token>) -> Seq<TokenTree> {
    Seq::new(s.len(), |i: int| tree_of(s[i]))
}

impl View for Token {
    type V = TokenTree;

    open spec fn view(&self) -> TokenTree {
        tree_of(*self)
    }
}

/// The span that a token tree covers.
pub open spec fn span_of(t: TokenTree) -> Span {
    match t {
        TokenTree::Ident { span, .. } => span,
        TokenTree::Punct { span, .. } => span,
        TokenTree::Literal { span, .. } => span,
        TokenTree::Group { span, .. } => span,
    }
}

/// Two tokens are adjacent when no text stands between them.
pub open spec fn adjacent(a: Span, b: Span) -> bool {
    a.end == b.start
}

/// The span of a token.
pub fn token_span(t: &Token) -> (r: Span)
    ensures
        r == span_of(t@),
{
    match t {
        Token::Ident { span, .. } => *span,
        Token::Punct { span, .. } => *span,
        Token::Literal { span, .. } => *span,
        Token::Group { span, .. } => *span,
    }
}

/// Whether two spans are adjacent.
pub fn spans_adjacent(a: Span, b: Span) -> (r: bool)
    ensures
        r == adjacent(a, b),
{
    a.end == b.start
}

/// The trees of a sequence with a token pushed are its trees with that token's tree
/// pushed.
pub proof fn lemma_trees_push(s: Seq<Token>, t: Token)
    ensures
        trees_of(s.push(t)) == trees_of(s).push(tree_of(t)),
{
    assert(trees_of(s.push(t)) =~= trees_of(s).push(tree_of(t)));
}

/// A group's inner trees are the trees of its inner tokens.
pub proof fn lemma_group_inner(delimiter: Delimiter, inner: Vec<Token>, span: Span)
    ensures
        tree_of(Token::Group { delimiter, inner, span }) == (TokenTree::Group {
            delimiter,
            inner: trees_of(inner@),
            span,
        }),
{
    let t = tree_of(Token::Group { delimiter, inner, span });
    assert(t->Group_inner =~= trees_of(inner@));
}

/// Makes a fresh token tree equal in value to `t`.
pub fn copy_token(t: &Token) -> (r: Token)
    ensures
        r@ == t@,
    decreases t,
{
    match t {
        Token::Ident { name, span } => Token::Ident { name: name.clone(), span: *span },
        Token::Punct { ch, span } => Token::Punct { ch: *ch, span: *span },
        Token::Literal { text, span } => Token::Literal { text: text.clone(), span: *span },
        Token::Group { delimiter, inner, span } => {
            let copied = copy_tokens(inner);
            proof {
                lemma_group_inner(*delimiter, *inner, *span);
                lemma_group_inner(*delimiter, copied, *span);
            }
            Token::Group { delimiter: *delimiter, inner: copied, span: *span }
        },
    }
}

/// Makes a fresh sequence of token trees equal in value to `v`.
pub fn copy_tokens(v: &Vec<Token>) -> (r: Vec<Token>)
    ensures
        trees_of(r@) == trees_of(v@),
    decreases v,
{
    let mut r: Vec<Token> = Vec::new();
    let mut i: usize = 0;
    while i < v.len()
        invariant
            i <= v.len(),
            r@.len() == i,
            trees_of(r@) == trees_of(v@.subrange(0, i as int)),
        decreases v.len() - i,
    {
        let t = copy_token(&v[i]);
        let ghost before = r@;
        r.push(t);
        proof {
            assert forall|j: int| 0 <= j < before.len() implies tree_of(r@[j]) == tree_of(
                v@[j],
            ) by {
                assert(trees_of(before)[j] == trees_of(v@.subrange(0, i as int))[j]);
                assert(r@[j] == before[j]);
            }
        }
        i += 1;
        assert(trees_of(r@) =~= trees_of(v@.subrange(0, i as int)));
    }
    assert(v@.subrange(0, i as int) =~= v@);
    r
}

} // verus!
