//! Doc comments, and their desugaring into `#[doc = "..."]` attribute tokens.
use vstd::prelude::*;
use crate::tt::{
    Delimiter, DelimiterKind, Ident, Leaf, Literal, Piece, Punct, Spacing, Subtree, TokenTree,
    all_visible, no_delim_leaves, trees_pieces,
};

verus! {

/// Whether a comment is a line comment or a block comment.
#[derive(Clone, Copy, Debug, PartialEq, Eq, Structural)]
pub enum CommentShape {
    Line,
    Block,
}

/// Whether a doc comment documents the enclosing item (`//!`) or the next one (`///`).
#[derive(Clone, Copy, Debug, PartialEq, Eq, Structural)]
pub enum CommentPlacement {
    Inner,
    Outer,
}

/// The shape of a comment, and its placement when it is a doc comment.
#[derive(Clone, Copy, Debug, PartialEq, Eq, Structural)]
pub struct CommentKind {
    pub shape: CommentShape,
    pub doc: Option<CommentPlacement>,
}

/// The text `t` has the character `c` at index `i`.
pub open spec fn char_at(t: Seq<char>, i: int, c: char) -> bool {
    0 <= i < t.len() && t[i] == c
}

/// The kind of the comment whose text is `t`, read from its first four characters:
/// `///` and `/**` are outer doc comments, `//!` and `/*!` inner ones, but `////`,
/// `/***` and `/**/` are plain comments.
pub open spec fn spec_comment_kind(t: Seq<char>) -> CommentKind {
    let block = char_at(t, 0, '/') && char_at(t, 1, '*');
    let third = if char_at(t, 2, '/') {
        '/'
    } else if char_at(t, 2, '*') {
        '*'
    } else if char_at(t, 2, '!') {
        '!'
    } else {
        ' '
    };
    let fourth_plain = if block {
        char_at(t, 3, '*') || char_at(t, 3, '/')
    } else {
        char_at(t, 3, '/')
    };
    let doc = if third == '!' {
        Some(CommentPlacement::Inner)
    } else if ((block && third == '*') || (!block && third == '/')) && !fourth_plain {
        Some(CommentPlacement::Outer)
    } else {
        None
    };
    CommentKind { shape: if block { CommentShape::Block } else { CommentShape::Line }, doc }
}

/// Relies on str::escape_debug: the escaped form depends on the characters alone.
pub uninterp spec fn escape_debug_of(s: Seq<char>) -> Seq<char>;

/// Relies on str::escape_debug, collected into a string.
#[verifier::external_body]
fn escape_debug(s: &str) -> (r: String)
    ensures
        r@ == escape_debug_of(s@),
{
    s.escape_debug().to_string()
}

/// The text of a doc comment without its three-character prefix and, for a
/// terminated block comment, without its closing `*/`.
pub open spec fn doc_body(t: Seq<char>) -> Seq<char> {
    if spec_comment_kind(t).shape == CommentShape::Block && t.len() >= 5 && t[t.len() - 2] == '*'
        && t[t.len() - 1] == '/' {
        t.subrange(3, t.len() - 2)
    } else {
        t.subrange(3, t.len() as int)
    }
}

/// The string literal that holds the text of a doc comment.
pub open spec fn doc_literal(t: Seq<char>) -> Seq<char> {
    seq!['"'] + escape_debug_of(doc_body(t)) + seq!['"']
}

/// The flat reading of the attribute that a doc comment desugars into:
/// `# [doc = "..."]`, with `!` after `#` for an inner doc comment.
pub open spec fn doc_pieces<S>(t: Seq<char>, span: S) -> Seq<Piece<S>> {
    match spec_comment_kind(t).doc {
        None => seq![],
        Some(placement) => {
            let bang: Seq<Piece<S>> = if placement == CommentPlacement::Inner {
                seq![Piece::Punct('!', Spacing::Alone, span)]
            } else {
                seq![]
            };
            seq![Piece::Punct('#', Spacing::Alone, span)] + bang + seq![
                Piece::Delim('[', span),
                Piece::Ident(seq!['d', 'o', 'c'], span),
                Piece::Punct('=', Spacing::Alone, span),
                Piece::Literal(doc_literal(t), span),
                Piece::Delim(']', span),
            ]
        },
    }
}

/// Classifies the comment whose text is `text`.
pub fn comment_kind(text: &str) -> (r: CommentKind)
    ensures
        r == spec_comment_kind(text@),
{
    let n = text.unicode_len();
    let c0 = if n > 0 { text.get_char(0) } else { ' ' };
    let c1 = if n > 1 { text.get_char(1) } else { ' ' };
    let c2 = if n > 2 { text.get_char(2) } else { ' ' };
    let c3 = if n > 3 { text.get_char(3) } else { ' ' };
    let block = c0 == '/' && c1 == '*';
    let third = if c2 == '/' || c2 == '*' || c2 == '!' { c2 } else { ' ' };
    let fourth_plain = if block { c3 == '*' || c3 == '/' } else { c3 == '/' };
    let doc = if third == '!' {
        Some(CommentPlacement::Inner)
    } else if ((block && third == '*') || (!block && third == '/')) && !fourth_plain {
        Some(CommentPlacement::Outer)
    } else {
        None
    };
    CommentKind { shape: if block { CommentShape::Block } else { CommentShape::Line }, doc }
}

/// The text of a doc comment as a quoted, escaped string literal: the prefix
/// (`///`, `/**`, ...) and a closing `*/` are removed.
pub fn doc_comment_text(text: &str) -> (r: String)
    requires
        spec_comment_kind(text@).doc is Some,
    ensures
        r@ == doc_literal(text@),
{
    let n = text.unicode_len();
    let kind = comment_kind(text);
    let terminated = n >= 5 && text.get_char(n - 2) == '*' && text.get_char(n - 1) == '/';
    let end = if kind.shape == CommentShape::Block && terminated { n - 2 } else { n };
    let body = text.substring_char(3, end);
    let escaped = escape_debug(body);
    let mut r = String::from_str("\"");
    r.append(escaped.as_str());
    r.append("\"");
    proof {
        reveal_strlit("\"");
    }
    r
}

/// Desugars a doc comment into the tokens of its attribute, all with `span`;
/// `None` for a comment that is not a doc comment.
pub fn convert_doc_comment<S: Copy>(text: &str, span: S) -> (r: Option<Vec<TokenTree<S>>>)
    ensures
        r is None <==> spec_comment_kind(text@).doc is None,
        r matches Some(v) ==> trees_pieces(v@) == doc_pieces(text@, span) && all_visible(v@)
            && no_delim_leaves(v@),
{
    let kind = comment_kind(text);
    let placement = match kind.doc {
        None => return None,
        Some(p) => p,
    };
    let meta = vec![
        TokenTree::Leaf(Leaf::Ident(Ident { text: String::from_str("doc"), span })),
        TokenTree::Leaf(Leaf::Punct(Punct { char: '=', spacing: Spacing::Alone, span })),
        TokenTree::Leaf(Leaf::Literal(Literal { text: doc_comment_text(text), span })),
    ];
    let mut out: Vec<TokenTree<S>> = Vec::new();
    out.push(TokenTree::Leaf(Leaf::Punct(Punct { char: '#', spacing: Spacing::Alone, span })));
    if placement == CommentPlacement::Inner {
        out.push(TokenTree::Leaf(Leaf::Punct(Punct { char: '!', spacing: Spacing::Alone, span })));
    }
    let attr = Subtree {
        delimiter: Delimiter { open: span, close: span, kind: DelimiterKind::Bracket },
        token_trees: meta,
    };
    proof {
        reveal_strlit("doc");
        assert("doc"@ =~= seq!['d', 'o', 'c']);
        reveal_with_fuel(trees_pieces, 4);
        let m = attr.token_trees@;
        assert(m.drop_last().drop_last().drop_last() =~= Seq::<TokenTree<S>>::empty());
        assert(trees_pieces(m) =~= seq![
            Piece::Ident(seq!['d', 'o', 'c'], span),
            Piece::Punct('=', Spacing::Alone, span),
            Piece::Literal(doc_literal(text@), span),
        ]);
    }
    out.push(TokenTree::Subtree(attr));
    proof {
        reveal_with_fuel(trees_pieces, 4);
        let o = out@;
        let m = attr.token_trees@;
        reveal_with_fuel(all_visible, 4);
        assert(all_visible(m));
        if placement == CommentPlacement::Inner {
            assert(o.drop_last().drop_last().drop_last() =~= Seq::<TokenTree<S>>::empty());
        } else {
            assert(o.drop_last().drop_last() =~= Seq::<TokenTree<S>>::empty());
        }
        assert(trees_pieces(o) =~= doc_pieces(text@, span));
        assert(all_visible(o));
        reveal_with_fuel(no_delim_leaves, 4);
        assert(no_delim_leaves(m));
        assert(no_delim_leaves(o));
    }
    Some(out)
}

} // verus!
