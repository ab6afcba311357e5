//! A token tree laid out flat, for reading it front to back: leaves, and the
//! opening and closing delimiters of visible subtrees.
use vstd::prelude::*;
use crate::tt::{
    DelimiterKind, Ident, Leaf, Literal, Piece, Punct, Subtree, TokenTree, close_char,
    leaf_pieces,
    lemma_trees_view_push, open_char, tree_pieces, tree_view, trees_pieces, trees_view,
};

verus! {

broadcast use {
    vstd::std_specs::vec::axiom_vec_decreases_to_view,
    vstd::seq::axiom_seq_index_decreases,
    vstd::seq::axiom_seq_subrange_decreases,
};

/// One entry of a flat token buffer.
#[derive(Clone, Debug, PartialEq, Eq)]
pub enum BufItem<S> {
    Leaf(Leaf<S>),
    Open(DelimiterKind, S),
    Close(DelimiterKind, S),
}

/// The flat layout of a token tree; invisible delimiters leave no entry.
pub open spec fn buf_tree<S>(t: TokenTree<S>) -> Seq<BufItem<S>>
    decreases t,
{
    match t {
        TokenTree::Leaf(l) => seq![BufItem::Leaf(l)],
        TokenTree::Subtree(st) => {
            let inner = buf_trees(st.token_trees@);
            if st.delimiter.kind == DelimiterKind::Invisible {
                inner
            } else {
                seq![BufItem::Open(st.delimiter.kind, st.delimiter.open)] + inner + seq![
                    BufItem::Close(st.delimiter.kind, st.delimiter.close),
                ]
            }
        },
    }
}

/// The flat layout of a sequence of token trees.
pub open spec fn buf_trees<S>(ts: Seq<TokenTree<S>>) -> Seq<BufItem<S>>
    decreases ts,
{
    if ts.len() == 0 {
        seq![]
    } else {
        buf_trees(ts.drop_last()) + buf_tree(ts.last())
    }
}

/// The text an entry stands for.
pub open spec fn item_text<S>(it: BufItem<S>) -> Seq<char> {
    match it {
        BufItem::Leaf(Leaf::Ident(i)) => i.text@,
        BufItem::Leaf(Leaf::Literal(l)) => l.text@,
        BufItem::Leaf(Leaf::Punct(p)) => seq![p.char],
        BufItem::Open(k, _) => seq![open_char(k)],
        BufItem::Close(k, _) => seq![close_char(k)],
    }
}

/// The span an entry carries.
pub open spec fn item_span<S>(it: BufItem<S>) -> S {
    match it {
        BufItem::Leaf(Leaf::Ident(i)) => i.span,
        BufItem::Leaf(Leaf::Literal(l)) => l.span,
        BufItem::Leaf(Leaf::Punct(p)) => p.span,
        BufItem::Open(_, s) => s,
        BufItem::Close(_, s) => s,
    }
}

/// The concatenated text of the entries `from..to`.
pub open spec fn items_text<S>(items: Seq<BufItem<S>>, from: int, to: int) -> Seq<char>
    decreases to - from,
{
    if to <= from {
        seq![]
    } else {
        items_text(items, from, to - 1) + item_text(items[to - 1])
    }
}

/// A copy of a leaf.
pub fn copy_leaf<S: Copy>(l: &Leaf<S>) -> (r: Leaf<S>)
    ensures
        r == *l,
{
    match l {
        Leaf::Ident(i) => Leaf::Ident(Ident { text: i.text.clone(), span: i.span }),
        Leaf::Literal(i) => Leaf::Literal(Literal { text: i.text.clone(), span: i.span }),
        Leaf::Punct(p) => Leaf::Punct(Punct { char: p.char, spacing: p.spacing, span: p.span }),
    }
}

/// Appends the flat layout of one token tree.
pub fn flatten_tree<S: Copy>(out: &mut Vec<BufItem<S>>, t: &TokenTree<S>)
    ensures
        final(out)@ == old(out)@ + buf_tree(*t),
    decreases t,
{
    match t {
        TokenTree::Leaf(l) => {
            out.push(BufItem::Leaf(copy_leaf(l)));
            proof {
                assert(final(out)@ =~= old(out)@ + buf_tree(*t));
            }
        },
        TokenTree::Subtree(st) => {
            flatten_subtree(out, st);
        },
    }
}

/// Appends the flat layout of a subtree.
pub fn flatten_subtree<S: Copy>(out: &mut Vec<BufItem<S>>, st: &Subtree<S>)
    ensures
        final(out)@ == old(out)@ + buf_tree(TokenTree::Subtree(*st)),
    decreases st,
{
    let visible = st.delimiter.kind != DelimiterKind::Invisible;
    if visible {
        out.push(BufItem::Open(st.delimiter.kind, st.delimiter.open));
    }
    let ghost mid = out@;
    let mut i: usize = 0;
    while i < st.token_trees.len()
        invariant
            i <= st.token_trees@.len(),
            out@ == mid + buf_trees(st.token_trees@.subrange(0, i as int)),
        decreases st.token_trees@.len() - i,
    {
        let ghost before = out@;
        proof {
            assert(decreases_to!(st => st.token_trees@[i as int]));
        }
        flatten_tree(out, &st.token_trees[i]);
        proof {
            let s = st.token_trees@;
            assert(s.subrange(0, i + 1).drop_last() =~= s.subrange(0, i as int));
        }
        i += 1;
    }
    proof {
        assert(st.token_trees@.subrange(0, i as int) =~= st.token_trees@);
    }
    if visible {
        out.push(BufItem::Close(st.delimiter.kind, st.delimiter.close));
    }
    proof {
        assert(final(out)@ =~= old(out)@ + buf_tree(TokenTree::Subtree(*st)));
    }
}

/// A deep copy of a token tree.
pub fn copy_tree<S: Copy>(t: &TokenTree<S>) -> (r: TokenTree<S>)
    ensures
        tree_view(r) == tree_view(*t),
    decreases t,
{
    match t {
        TokenTree::Leaf(l) => TokenTree::Leaf(copy_leaf(l)),
        TokenTree::Subtree(st) => TokenTree::Subtree(copy_subtree(st)),
    }
}

/// A deep copy of a subtree.
pub fn copy_subtree<S: Copy>(st: &Subtree<S>) -> (r: Subtree<S>)
    ensures
        r.delimiter == st.delimiter,
        trees_view(r.token_trees@) == trees_view(st.token_trees@),
    decreases st,
{
    let mut ts: Vec<TokenTree<S>> = Vec::new();
    let mut i: usize = 0;
    while i < st.token_trees.len()
        invariant
            i <= st.token_trees@.len(),
            trees_view(ts@) == trees_view(st.token_trees@.subrange(0, i as int)),
        decreases st.token_trees@.len() - i,
    {
        proof {
            assert(decreases_to!(st => st.token_trees@[i as int]));
        }
        let ghost before = ts@;
        let c = copy_tree(&st.token_trees[i]);
        ts.push(c);
        proof {
            let s = st.token_trees@;
            lemma_trees_view_push(before, c);
            lemma_trees_view_push(s.subrange(0, i as int), s[i as int]);
            assert(s.subrange(0, i + 1) =~= s.subrange(0, i as int).push(s[i as int]));
        }
        i += 1;
    }
    proof {
        assert(st.token_trees@.subrange(0, i as int) =~= st.token_trees@);
    }
    Subtree { delimiter: st.delimiter, token_trees: ts }
}

/// The text a piece of the flat reading stands for.
pub open spec fn piece_text<S>(p: Piece<S>) -> Seq<char> {
    match p {
        Piece::Ident(t, _) => t,
        Piece::Literal(t, _) => t,
        Piece::Punct(c, _, _) => seq![c],
        Piece::Delim(c, _) => seq![c],
    }
}

/// The concatenated text of a sequence of pieces.
pub open spec fn pieces_text<S>(ps: Seq<Piece<S>>) -> Seq<char>
    decreases ps.len(),
{
    if ps.len() == 0 {
        seq![]
    } else {
        pieces_text(ps.drop_last()) + piece_text(ps.last())
    }
}

/// The concatenated text of a sequence of buffer entries.
pub open spec fn seq_text<S>(items: Seq<BufItem<S>>) -> Seq<char>
    decreases items.len(),
{
    if items.len() == 0 {
        seq![]
    } else {
        seq_text(items.drop_last()) + item_text(items.last())
    }
}

pub proof fn lemma_pieces_text_concat<S>(a: Seq<Piece<S>>, b: Seq<Piece<S>>)
    ensures
        pieces_text(a + b) == pieces_text(a) + pieces_text(b),
    decreases b.len(),
{
    if b.len() == 0 {
        assert(a + b =~= a);
    } else {
        lemma_pieces_text_concat(a, b.drop_last());
        assert((a + b).drop_last() =~= a + b.drop_last());
    }
    assert(pieces_text(a + b) =~= pieces_text(a) + pieces_text(b));
}

pub proof fn lemma_seq_text_concat<S>(a: Seq<BufItem<S>>, b: Seq<BufItem<S>>)
    ensures
        seq_text(a + b) == seq_text(a) + seq_text(b),
    decreases b.len(),
{
    if b.len() == 0 {
        assert(a + b =~= a);
    } else {
        lemma_seq_text_concat(a, b.drop_last());
        assert((a + b).drop_last() =~= a + b.drop_last());
    }
    assert(seq_text(a + b) =~= seq_text(a) + seq_text(b));
}

/// The entries `0..n` read as text are the first `n` entries' text.
pub proof fn lemma_items_text_prefix<S>(items: Seq<BufItem<S>>, n: int)
    requires
        0 <= n <= items.len(),
    ensures
        items_text(items, 0, n) == seq_text(items.subrange(0, n)),
    decreases n,
{
    if n > 0 {
        lemma_items_text_prefix(items, n - 1);
        assert(items.subrange(0, n).drop_last() =~= items.subrange(0, n - 1));
    }
}

/// The flat layout of a tree reads as the same text as its flat reading.
pub proof fn lemma_tree_text<S>(t: TokenTree<S>)
    ensures
        seq_text(buf_tree(t)) == pieces_text(tree_pieces(t)),
    decreases t,
{
    match t {
        TokenTree::Leaf(l) => {
            let b = seq![BufItem::Leaf(l)];
            let p = leaf_pieces(l);
            assert(b.drop_last() =~= Seq::<BufItem<S>>::empty());
            assert(p.drop_last() =~= Seq::<Piece<S>>::empty());
            assert(seq_text(b.drop_last()) =~= Seq::<char>::empty());
            assert(pieces_text(p.drop_last()) =~= Seq::<char>::empty());
            assert(seq_text(b) =~= item_text(BufItem::Leaf(l)));
            assert(pieces_text(p) =~= piece_text(p[0]));
            assert(piece_text(p[0]) =~= item_text(BufItem::Leaf(l)));
        },
        TokenTree::Subtree(st) => {
            lemma_trees_text(st.token_trees@);
            let inner_b = buf_trees(st.token_trees@);
            let inner_p = trees_pieces(st.token_trees@);
            if st.delimiter.kind != DelimiterKind::Invisible {
                let ob = seq![BufItem::Open(st.delimiter.kind, st.delimiter.open)];
                let cb = seq![BufItem::Close(st.delimiter.kind, st.delimiter.close)];
                let op = seq![Piece::Delim(open_char(st.delimiter.kind), st.delimiter.open)];
                let cp = seq![Piece::Delim(close_char(st.delimiter.kind), st.delimiter.close)];
                lemma_seq_text_concat(ob, inner_b);
                lemma_seq_text_concat(ob + inner_b, cb);
                lemma_pieces_text_concat(op, inner_p);
                lemma_pieces_text_concat(op + inner_p, cp);
                assert(ob.drop_last() =~= Seq::<BufItem<S>>::empty());
                assert(cb.drop_last() =~= Seq::<BufItem<S>>::empty());
                assert(op.drop_last() =~= Seq::<Piece<S>>::empty());
                assert(cp.drop_last() =~= Seq::<Piece<S>>::empty());
                assert(seq_text(ob.drop_last()) =~= Seq::<char>::empty());
                assert(seq_text(cb.drop_last()) =~= Seq::<char>::empty());
                assert(pieces_text(op.drop_last()) =~= Seq::<char>::empty());
                assert(pieces_text(cp.drop_last()) =~= Seq::<char>::empty());
            }
        },
    }
}

/// The flat layout of a sequence of trees reads as the same text as its flat reading.
pub proof fn lemma_trees_text<S>(ts: Seq<TokenTree<S>>)
    ensures
        seq_text(buf_trees(ts)) == pieces_text(trees_pieces(ts)),
    decreases ts,
{
    if ts.len() > 0 {
        lemma_trees_text(ts.drop_last());
        lemma_tree_text(ts.last());
        lemma_seq_text_concat(buf_trees(ts.drop_last()), buf_tree(ts.last()));
        lemma_pieces_text_concat(trees_pieces(ts.drop_last()), tree_pieces(ts.last()));
    }
}

/// The piece of the flat reading that an entry of the flat layout stands for.
pub open spec fn item_piece<S>(it: BufItem<S>) -> Piece<S> {
    match it {
        BufItem::Leaf(Leaf::Ident(i)) => Piece::Ident(i.text@, i.span),
        BufItem::Leaf(Leaf::Literal(l)) => Piece::Literal(l.text@, l.span),
        BufItem::Leaf(Leaf::Punct(p)) => Piece::Punct(p.char, p.spacing, p.span),
        BufItem::Open(k, s) => Piece::Delim(open_char(k), s),
        BufItem::Close(k, s) => Piece::Delim(close_char(k), s),
    }
}

/// The flat layout of a tree, entry by entry, is its flat reading.
pub proof fn lemma_tree_items<S>(t: TokenTree<S>)
    ensures
        buf_tree(t).map_values(|it: BufItem<S>| item_piece(it)) == tree_pieces(t),
    decreases t,
{
    match t {
        TokenTree::Leaf(l) => {
            assert(buf_tree(t).map_values(|it: BufItem<S>| item_piece(it)) =~= tree_pieces(t));
        },
        TokenTree::Subtree(st) => {
            lemma_trees_items(st.token_trees@);
            assert(buf_tree(t).map_values(|it: BufItem<S>| item_piece(it)) =~= tree_pieces(t));
        },
    }
}

/// The flat layout of a sequence of trees, entry by entry, is its flat reading.
pub proof fn lemma_trees_items<S>(ts: Seq<TokenTree<S>>)
    ensures
        buf_trees(ts).map_values(|it: BufItem<S>| item_piece(it)) == trees_pieces(ts),
    decreases ts,
{
    if ts.len() == 0 {
        assert(buf_trees(ts).map_values(|it: BufItem<S>| item_piece(it)) =~= trees_pieces(ts));
    } else {
        lemma_trees_items(ts.drop_last());
        lemma_tree_items(ts.last());
        assert(buf_trees(ts).map_values(|it: BufItem<S>| item_piece(it)) =~= trees_pieces(ts));
    }
}

} // verus!
