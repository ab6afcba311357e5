//! The token-tree data model: spans, leaves, delimited subtrees, and the flat
//! reading of a tree as a sequence of pieces.
use vstd::prelude::*;

verus! {

broadcast use {
    vstd::std_specs::vec::axiom_vec_decreases_to_view,
    vstd::seq::axiom_seq_index_decreases,
    vstd::seq::axiom_seq_subrange_decreases,
};

/// A range of text offsets, `start..end`, with `start <= end`.
#[derive(Clone, Copy, Debug, PartialEq, Eq, Hash, Structural)]
pub struct TextRange {
    pub start: u32,
    pub end: u32,
}

impl TextRange {
    pub open spec fn wf(self) -> bool {
        self.start <= self.end
    }

    pub open spec fn spec_len(self) -> int {
        self.end - self.start
    }

    /// Whether `other` lies inside this range.
    pub fn contains_range(&self, other: &TextRange) -> (r: bool)
        ensures
            r == (self.start <= other.start && other.end <= self.end),
    {
        self.start <= other.start && other.end <= self.end
    }
}

/// A hygiene context that has a canonical value for tokens that carry no hygiene.
pub trait SyntaxContext: Copy + Sized {
    spec fn spec_dummy() -> Self;

    /// The context of tokens that carry no hygiene information.
    fn dummy() -> (r: Self)
        ensures
            r == Self::spec_dummy(),
    ;
}

/// An interned hygiene context; `0` is the root context, which carries no hygiene.
#[derive(Clone, Copy, Debug, PartialEq, Eq, Hash, Structural)]
pub struct SyntaxContextId(pub u32);

impl SyntaxContext for SyntaxContextId {
    open spec fn spec_dummy() -> Self {
        SyntaxContextId(0)
    }

    fn dummy() -> (r: Self) {
        SyntaxContextId(0)
    }
}

/// An anchor type with a value that stands for no particular anchor.
pub trait SpanAnchor: Copy + Sized {
    spec fn spec_dummy() -> Self;

    /// The anchor of spans that point nowhere in particular.
    fn dummy() -> (r: Self)
        ensures
            r == Self::spec_dummy(),
    ;
}

/// A file number as anchor; `u32::MAX` names no file.
impl SpanAnchor for u32 {
    open spec fn spec_dummy() -> u32 {
        u32::MAX
    }

    fn dummy() -> (r: u32) {
        u32::MAX
    }
}

/// A span type with a span that points nowhere in particular.
pub trait Span: Copy + Sized {
    spec fn spec_dummy() -> Self;

    /// The span of tokens that come from no source text.
    fn dummy() -> (r: Self)
        ensures
            r == Self::spec_dummy(),
    ;
}

impl<A: SpanAnchor, C: SyntaxContext> Span for SpanData<A, C> {
    open spec fn spec_dummy() -> Self {
        SpanData { range: TextRange { start: 0, end: 0 }, anchor: A::spec_dummy(), ctx: C::spec_dummy() }
    }

    fn dummy() -> (r: Self) {
        SpanData { range: TextRange { start: 0, end: 0 }, anchor: A::dummy(), ctx: C::dummy() }
    }
}

/// Where a token came from: a range relative to an anchor, and a hygiene context.
#[derive(Clone, Copy, Debug, PartialEq, Eq, Hash)]
pub struct SpanData<A, C> {
    pub range: TextRange,
    pub anchor: A,
    pub ctx: C,
}

/// Whether a punctuation character is glued to the next token.
#[derive(Clone, Copy, Debug, PartialEq, Eq, Structural)]
pub enum Spacing {
    Alone,
    Joint,
}

/// The kind of delimiter around a subtree.
#[derive(Clone, Copy, Debug, PartialEq, Eq, Structural)]
pub enum DelimiterKind {
    Parenthesis,
    Brace,
    Bracket,
    Invisible,
}

/// The delimiter of a subtree, with the spans of its opening and closing tokens.
#[derive(Clone, Copy, Debug, PartialEq, Eq)]
pub struct Delimiter<S> {
    pub open: S,
    pub close: S,
    pub kind: DelimiterKind,
}

/// An identifier or keyword.
#[derive(Clone, Debug, PartialEq, Eq)]
pub struct Ident<S> {
    pub text: String,
    pub span: S,
}

/// A literal, with its source text.
#[derive(Clone, Debug, PartialEq, Eq)]
pub struct Literal<S> {
    pub text: String,
    pub span: S,
}

/// A single punctuation character.
#[derive(Clone, Copy, Debug, PartialEq, Eq)]
pub struct Punct<S> {
    pub char: char,
    pub spacing: Spacing,
    pub span: S,
}

#[derive(Clone, Debug, PartialEq, Eq)]
pub enum Leaf<S> {
    Literal(Literal<S>),
    Punct(Punct<S>),
    Ident(Ident<S>),
}

#[derive(Debug, PartialEq, Eq)]
pub enum TokenTree<S> {
    Leaf(Leaf<S>),
    Subtree(Subtree<S>),
}

/// A delimited, ordered sequence of token trees.
#[derive(Debug, PartialEq, Eq)]
pub struct Subtree<S> {
    pub delimiter: Delimiter<S>,
    pub token_trees: Vec<TokenTree<S>>,
}

/// The opening character of a visible delimiter.
pub open spec fn open_char(k: DelimiterKind) -> char {
    match k {
        DelimiterKind::Parenthesis => '(',
        DelimiterKind::Brace => '{',
        DelimiterKind::Bracket => '[',
        DelimiterKind::Invisible => '$',
    }
}

/// The closing character of a visible delimiter.
pub open spec fn close_char(k: DelimiterKind) -> char {
    match k {
        DelimiterKind::Parenthesis => ')',
        DelimiterKind::Brace => '}',
        DelimiterKind::Bracket => ']',
        DelimiterKind::Invisible => '$',
    }
}

/// Whether `c` is one of the six delimiter characters.
pub open spec fn is_delim_char(c: char) -> bool {
    c == '(' || c == ')' || c == '{' || c == '}' || c == '[' || c == ']'
}

/// One element of the flat reading of a tree: a leaf, or a delimiter that
/// bounds a subtree, read as its character with its span.
pub enum Piece<S> {
    Ident(Seq<char>, S),
    Literal(Seq<char>, S),
    Punct(char, Spacing, S),
    Delim(char, S),
}

pub open spec fn leaf_pieces<S>(l: Leaf<S>) -> Seq<Piece<S>> {
    match l {
        Leaf::Ident(i) => seq![Piece::Ident(i.text@, i.span)],
        Leaf::Literal(i) => seq![Piece::Literal(i.text@, i.span)],
        Leaf::Punct(p) => seq![Piece::Punct(p.char, p.spacing, p.span)],
    }
}

/// The flat reading of a token tree.
pub open spec fn tree_pieces<S>(t: TokenTree<S>) -> Seq<Piece<S>>
    decreases t,
{
    match t {
        TokenTree::Leaf(l) => leaf_pieces(l),
        TokenTree::Subtree(st) => {
            let inner = trees_pieces(st.token_trees@);
            if st.delimiter.kind == DelimiterKind::Invisible {
                inner
            } else {
                seq![Piece::Delim(open_char(st.delimiter.kind), st.delimiter.open)] + inner
                    + seq![Piece::Delim(close_char(st.delimiter.kind), st.delimiter.close)]
            }
        },
    }
}

/// The flat reading of a sequence of token trees.
pub open spec fn trees_pieces<S>(ts: Seq<TokenTree<S>>) -> Seq<Piece<S>>
    decreases ts,
{
    if ts.len() == 0 {
        seq![]
    } else {
        trees_pieces(ts.drop_last()) + tree_pieces(ts.last())
    }
}

/// The flat reading of a subtree.
pub open spec fn subtree_pieces<S>(st: Subtree<S>) -> Seq<Piece<S>> {
    tree_pieces(TokenTree::Subtree(st))
}

/// Every subtree strictly inside `t` has a visible delimiter.
pub open spec fn nested_visible<S>(t: TokenTree<S>) -> bool
    decreases t,
{
    match t {
        TokenTree::Leaf(_) => true,
        TokenTree::Subtree(st) => all_visible(st.token_trees@),
    }
}

/// Every subtree in `ts`, and every subtree inside them, has a visible delimiter.
pub open spec fn all_visible<S>(ts: Seq<TokenTree<S>>) -> bool
    decreases ts,
{
    if ts.len() == 0 {
        true
    } else {
        all_visible(ts.drop_last()) && nested_visible(ts.last()) && match ts.last() {
            TokenTree::Subtree(st) => st.delimiter.kind != DelimiterKind::Invisible,
            TokenTree::Leaf(_) => true,
        }
    }
}

/// No leaf in `t` is a delimiter character: every delimiter in it bounds a subtree.
pub open spec fn no_delim_leaf<S>(t: TokenTree<S>) -> bool
    decreases t,
{
    match t {
        TokenTree::Leaf(Leaf::Punct(p)) => !is_delim_char(p.char),
        TokenTree::Leaf(_) => true,
        TokenTree::Subtree(st) => no_delim_leaves(st.token_trees@),
    }
}

/// No leaf in `ts`, at any depth, is a delimiter character.
pub open spec fn no_delim_leaves<S>(ts: Seq<TokenTree<S>>) -> bool
    decreases ts,
{
    if ts.len() == 0 {
        true
    } else {
        no_delim_leaves(ts.drop_last()) && no_delim_leaf(ts.last())
    }
}

/// Appending a tree appends its reading.
pub proof fn lemma_trees_pieces_push<S>(ts: Seq<TokenTree<S>>, t: TokenTree<S>)
    ensures
        trees_pieces(ts.push(t)) == trees_pieces(ts) + tree_pieces(t),
        all_visible(ts.push(t)) == (all_visible(ts) && nested_visible(t) && match t {
            TokenTree::Subtree(st) => st.delimiter.kind != DelimiterKind::Invisible,
            TokenTree::Leaf(_) => true,
        }),
        no_delim_leaves(ts.push(t)) == (no_delim_leaves(ts) && no_delim_leaf(t)),
{
    assert(ts.push(t).drop_last() =~= ts);
}

/// The reading of a concatenation is the concatenation of the readings.
pub proof fn lemma_trees_pieces_concat<S>(a: Seq<TokenTree<S>>, b: Seq<TokenTree<S>>)
    ensures
        trees_pieces(a + b) == trees_pieces(a) + trees_pieces(b),
        all_visible(a + b) == (all_visible(a) && all_visible(b)),
        no_delim_leaves(a + b) == (no_delim_leaves(a) && no_delim_leaves(b)),
    decreases b.len(),
{
    if b.len() == 0 {
        assert(a + b =~= a);
        assert(trees_pieces(a) + trees_pieces(b) =~= trees_pieces(a));
    } else {
        lemma_trees_pieces_concat(a, b.drop_last());
        assert((a + b).drop_last() =~= a + b.drop_last());
        assert(trees_pieces(a + b) =~= trees_pieces(a) + trees_pieces(b));
    }
}

/// A token tree as a value: what two trees with the same content share.
pub enum TreeView<S> {
    Leaf(Leaf<S>),
    Subtree(Delimiter<S>, Seq<TreeView<S>>),
}

pub open spec fn tree_view<S>(t: TokenTree<S>) -> TreeView<S>
    decreases t,
{
    match t {
        TokenTree::Leaf(l) => TreeView::Leaf(l),
        TokenTree::Subtree(st) => TreeView::Subtree(st.delimiter, trees_view(st.token_trees@)),
    }
}

pub open spec fn trees_view<S>(ts: Seq<TokenTree<S>>) -> Seq<TreeView<S>>
    decreases ts,
{
    if ts.len() == 0 {
        seq![]
    } else {
        trees_view(ts.drop_last()).push(tree_view(ts.last()))
    }
}

/// The content of a subtree as a value.
pub open spec fn subtree_view<S>(st: Subtree<S>) -> TreeView<S> {
    tree_view(TokenTree::Subtree(st))
}

pub proof fn lemma_trees_view_push<S>(ts: Seq<TokenTree<S>>, t: TokenTree<S>)
    ensures
        trees_view(ts.push(t)) == trees_view(ts).push(tree_view(t)),
{
    assert(ts.push(t).drop_last() =~= ts);
}

} // verus!
