//! The round trip: converting lexed text to a token tree and rebuilding a
//! syntax tree from it gives back the source text, up to whitespace.
use vstd::prelude::*;
use crate::buffer::{
    BufItem, item_piece, lemma_items_text_prefix, lemma_pieces_text_concat, lemma_tree_items,
    lemma_tree_text, pieces_text,
};
use crate::convert::{ConvUnit, all_pieces, converted_pieces, unclosed, unit_pieces};
use crate::syntax_kind::SyntaxKind;
use crate::to_tt::{LexedStr, SrcToken, is_censored, node_units, raw_unit, raw_units, token_units};
use crate::tree_sink::{
    EventModel, Step, consume, consume_one, emitted_text, initial_model, input_items, lemma_run_text,
    no_whitespace_steps, run, spaced, steps_ok,
};
use crate::tt::{
    Leaf, Piece, Spacing, SpanData, Subtree, SyntaxContext, TextRange, TokenTree, subtree_pieces,
};

verus! {

/// The text a source token keeps through conversion: its own text for
/// identifiers, keywords, literals, lifetimes and punctuation; none for trivia.
pub open spec fn significant_text(t: SrcToken) -> Seq<char> {
    match t.kind {
        SyntaxKind::Ident | SyntaxKind::Underscore | SyntaxKind::Keyword | SyntaxKind::IntNumber
        | SyntaxKind::FloatNumber | SyntaxKind::Literal | SyntaxKind::LifetimeIdent
        | SyntaxKind::Punct => t.text@,
        _ => seq![],
    }
}

/// The significant text of a token sequence.
pub open spec fn source_text(ts: Seq<SrcToken>) -> Seq<char>
    decreases ts.len(),
{
    if ts.len() == 0 {
        seq![]
    } else {
        source_text(ts.drop_last()) + significant_text(ts.last())
    }
}

/// A token as a lexer hands it over for source code without comments:
/// punctuation is one character, and a lifetime starts with its quote.
pub open spec fn plain_token(t: SrcToken) -> bool {
    &&& t.kind != SyntaxKind::Comment
    &&& t.kind == SyntaxKind::Punct ==> t.text@.len() == 1
    &&& t.kind == SyntaxKind::LifetimeIdent ==> t.text@.len() > 0 && t.text@[0] == '\''
}

proof fn lemma_unit_text<A, C: SyntaxContext>(ts: Seq<SrcToken>, i: int, anchor: A, fo: Seq<int>)
    requires
        0 <= i < ts.len(),
        plain_token(ts[i]),
    ensures
        pieces_text(
            unit_pieces(raw_units(ts), i, anchor, Seq::<(TextRange, SpanData<A, C>)>::empty(), fo),
        ) == significant_text(ts[i]),
{
    let units = raw_units(ts);
    assert(units[i] == raw_unit(ts[i]));
    let p = unit_pieces(units, i, anchor, Seq::<(TextRange, SpanData<A, C>)>::empty(), fo);
    reveal_with_fuel(pieces_text, 3);
    if p.len() == 2 {
        assert(p.drop_last().drop_last() =~= Seq::<Piece<SpanData<A, C>>>::empty());
    } else if p.len() == 1 {
        assert(p.drop_last() =~= Seq::<Piece<SpanData<A, C>>>::empty());
    }
    assert(pieces_text(p) =~= significant_text(ts[i]));
}

proof fn lemma_units_text<A, C: SyntaxContext>(ts: Seq<SrcToken>, k: int, anchor: A, fo: Seq<int>)
    requires
        0 <= k <= ts.len(),
        forall|i: int| 0 <= i < ts.len() ==> #[trigger] plain_token(ts[i]),
    ensures
        pieces_text(
            all_pieces(raw_units(ts), k, anchor, Seq::<(TextRange, SpanData<A, C>)>::empty(), fo),
        ) == source_text(ts.subrange(0, k)),
    decreases k,
{
    let e = Seq::<(TextRange, SpanData<A, C>)>::empty();
    if k == 0 {
        assert(ts.subrange(0, 0) =~= Seq::<SrcToken>::empty());
    } else {
        lemma_units_text::<A, C>(ts, k - 1, anchor, fo);
        lemma_unit_text::<A, C>(ts, k - 1, anchor, fo);
        lemma_pieces_text_concat(
            all_pieces(raw_units(ts), k - 1, anchor, e, fo),
            unit_pieces(raw_units(ts), k - 1, anchor, e, fo),
        );
        assert(ts.subrange(0, k).drop_last() =~= ts.subrange(0, k - 1));
    }
}

/// Round trip: convert lexed source text to a token tree, let the parser's
/// steps over it consume every token, and the rebuilt tokens, whitespace left
/// out, spell the source text with its whitespace left out.
pub proof fn lemma_round_trip<A, C: SyntaxContext>(
    lexed: LexedStr,
    anchor: A,
    tt: Subtree<SpanData<A, C>>,
    steps: Seq<Step>,
)
    requires
        forall|i: int| 0 <= i < lexed.tokens@.len() ==> #[trigger] plain_token(lexed.tokens@[i]),
        subtree_pieces(tt) == converted_pieces(
            raw_units(lexed.tokens@),
            anchor,
            Seq::<(TextRange, SpanData<A, C>)>::empty(),
        ),
        steps_ok(input_items(tt), steps, steps.len() as int),
        no_whitespace_steps(steps),
        run(input_items(tt), steps, steps.len() as int).cursor == input_items(tt).len(),
    ensures
        emitted_text(run(input_items(tt), steps, steps.len() as int).events) == source_text(
            lexed.tokens@,
        ),
{
    let items = input_items(tt);
    let ts = lexed.tokens@;
    lemma_run_text(items, steps, steps.len() as int);
    lemma_items_text_prefix(items, items.len() as int);
    assert(items.subrange(0, items.len() as int) =~= items);
    lemma_tree_text(TokenTree::Subtree(tt));
    assert(raw_units(ts).len() == ts.len());
    lemma_units_text::<A, C>(ts, ts.len() as int, anchor, unclosed(raw_units(ts)));
    assert(ts.subrange(0, ts.len() as int) =~= ts);
}

/// Lifetime round trip: a lifetime token converts to two leaves, its quote as
/// `Joint` punctuation and its name as an identifier; one lifetime token step
/// over those two leaves rebuilds the single token, with the lifetime's text.
pub proof fn lemma_lifetime_round_trip<A, C: SyntaxContext>(
    t: SrcToken,
    anchor: A,
    tt: Subtree<SpanData<A, C>>,
)
    requires
        t.kind == SyntaxKind::LifetimeIdent,
        t.text@.len() > 0,
        t.text@[0] == '\'',
        subtree_pieces(tt) == converted_pieces(
            raw_units(seq![t]),
            anchor,
            Seq::<(TextRange, SpanData<A, C>)>::empty(),
        ),
    ensures
        input_items(tt).len() == 2,
        input_items(tt)[0] matches BufItem::Leaf(Leaf::Punct(p)) && p.char == '\'' && p.spacing
            == Spacing::Joint,
        input_items(tt)[1] matches BufItem::Leaf(Leaf::Ident(i)) && i.text@ == t.text@.subrange(
            1,
            t.text@.len() as int,
        ),
        run(
            input_items(tt),
            seq![Step::Token { kind: SyntaxKind::LifetimeIdent, n_input_tokens: 1 }],
            1,
        ).events == seq![EventModel::Token(SyntaxKind::LifetimeIdent, t.text@)],
{
    let items = input_items(tt);
    let e = Seq::<(TextRange, SpanData<A, C>)>::empty();
    let units = raw_units(seq![t]);
    assert(units[0] == raw_unit(t));
    let fo = unclosed(units);
    assert(all_pieces(units, 0, anchor, e, fo) =~= Seq::<Piece<SpanData<A, C>>>::empty());
    let ps = unit_pieces(units, 0, anchor, e, fo);
    assert(subtree_pieces(tt) =~= ps);
    lemma_tree_items(TokenTree::Subtree(tt));
    let mapped = items.map_values(|it: BufItem<SpanData<A, C>>| item_piece(it));
    assert(mapped.len() == 2);
    assert(item_piece(items[0]) == ps[0]);
    assert(item_piece(items[1]) == ps[1]);
    let steps = seq![Step::Token { kind: SyntaxKind::LifetimeIdent, n_input_tokens: 1 }];
    let m0 = initial_model::<SpanData<A, C>>();
    assert(run(items, steps, 0) == m0);
    let m1 = consume_one(items, m0);
    let m2 = consume_one(items, m1);
    reveal_with_fuel(consume, 3);
    assert(consume(items, m0, 2) == m2);
    assert(m2.buf =~= t.text@);
    assert(!spaced(items, 1));
}

/// The text a conversion unit keeps: its character for punctuation, its text
/// for identifiers, keywords, literals and lifetimes, none for trivia.
pub open spec fn unit_text(u: ConvUnit) -> Seq<char> {
    match u.kind {
        SyntaxKind::Punct => seq![u.ch],
        SyntaxKind::Ident | SyntaxKind::Underscore | SyntaxKind::Keyword | SyntaxKind::IntNumber
        | SyntaxKind::FloatNumber | SyntaxKind::Literal | SyntaxKind::LifetimeIdent => u.text@,
        _ => seq![],
    }
}

/// The concatenated text of a sequence of units.
pub open spec fn units_text(us: Seq<ConvUnit>) -> Seq<char>
    decreases us.len(),
{
    if us.len() == 0 {
        seq![]
    } else {
        units_text(us.drop_last()) + unit_text(us.last())
    }
}

/// A unit that is no comment, and a lifetime unit that starts with its quote.
pub open spec fn plain_unit(u: ConvUnit) -> bool {
    &&& u.kind != SyntaxKind::Comment
    &&& u.kind == SyntaxKind::LifetimeIdent ==> u.text@.len() > 0 && u.text@[0] == '\''
}

/// A syntax-tree token of source code without comments: a lifetime starts with its quote.
pub open spec fn plain_node_token(t: SrcToken) -> bool {
    &&& t.kind != SyntaxKind::Comment
    &&& t.kind == SyntaxKind::LifetimeIdent ==> t.text@.len() > 0 && t.text@[0] == '\''
}

/// The significant text of the first `k` tokens that lie outside the censored ranges.
pub open spec fn kept_text(ts: Seq<SrcToken>, k: int, censored: Seq<TextRange>) -> Seq<char>
    decreases k,
{
    if k <= 0 {
        seq![]
    } else if is_censored(censored, ts[k - 1].range) {
        kept_text(ts, k - 1, censored)
    } else {
        kept_text(ts, k - 1, censored) + significant_text(ts[k - 1])
    }
}

proof fn lemma_units_text_concat(a: Seq<ConvUnit>, b: Seq<ConvUnit>)
    ensures
        units_text(a + b) == units_text(a) + units_text(b),
    decreases b.len(),
{
    if b.len() == 0 {
        assert(a + b =~= a);
    } else {
        lemma_units_text_concat(a, b.drop_last());
        assert((a + b).drop_last() =~= a + b.drop_last());
    }
    assert(units_text(a + b) =~= units_text(a) + units_text(b));
}

proof fn lemma_unit_pieces_text<A, C: SyntaxContext>(
    units: Seq<ConvUnit>,
    i: int,
    anchor: A,
    map: Seq<(TextRange, SpanData<A, C>)>,
    fo: Seq<int>,
)
    requires
        0 <= i < units.len(),
        plain_unit(units[i]),
    ensures
        pieces_text(unit_pieces(units, i, anchor, map, fo)) == unit_text(units[i]),
{
    let p = unit_pieces(units, i, anchor, map, fo);
    reveal_with_fuel(pieces_text, 3);
    if p.len() == 2 {
        assert(p.drop_last().drop_last() =~= Seq::<Piece<SpanData<A, C>>>::empty());
    } else if p.len() == 1 {
        assert(p.drop_last() =~= Seq::<Piece<SpanData<A, C>>>::empty());
    }
    assert(pieces_text(p) =~= unit_text(units[i]));
}

proof fn lemma_all_pieces_text<A, C: SyntaxContext>(
    units: Seq<ConvUnit>,
    k: int,
    anchor: A,
    map: Seq<(TextRange, SpanData<A, C>)>,
    fo: Seq<int>,
)
    requires
        0 <= k <= units.len(),
        forall|i: int| 0 <= i < units.len() ==> #[trigger] plain_unit(units[i]),
    ensures
        pieces_text(all_pieces(units, k, anchor, map, fo)) == units_text(units.subrange(0, k)),
    decreases k,
{
    if k > 0 {
        lemma_all_pieces_text(units, k - 1, anchor, map, fo);
        lemma_unit_pieces_text(units, k - 1, anchor, map, fo);
        lemma_pieces_text_concat(
            all_pieces(units, k - 1, anchor, map, fo),
            unit_pieces(units, k - 1, anchor, map, fo),
        );
        assert(units.subrange(0, k).drop_last() =~= units.subrange(0, k - 1));
    } else {
        assert(units.subrange(0, 0) =~= Seq::<ConvUnit>::empty());
    }
}

proof fn lemma_token_units_text(t: SrcToken, offset: u32)
    requires
        plain_node_token(t),
    ensures
        units_text(token_units(t, offset)) == significant_text(t),
        forall|i: int|
            0 <= i < token_units(t, offset).len() ==> #[trigger] plain_unit(
                token_units(t, offset)[i],
            ),
{
    let tu = token_units(t, offset);
    if t.kind == SyntaxKind::Punct {
        assert forall|m: int| 0 <= m <= tu.len() implies units_text(tu.subrange(0, m))
            == t.text@.subrange(0, m) by {
            lemma_punct_prefix(t, offset, m);
        }
        assert(tu.subrange(0, tu.len() as int) =~= tu);
        assert(t.text@.subrange(0, t.text@.len() as int) =~= t.text@);
    } else {
        assert(tu.drop_last() =~= Seq::<ConvUnit>::empty());
        assert(units_text(tu.drop_last()) =~= Seq::<char>::empty());
        assert(units_text(tu) =~= significant_text(t));
    }
}

proof fn lemma_punct_prefix(t: SrcToken, offset: u32, m: int)
    requires
        t.kind == SyntaxKind::Punct,
        0 <= m <= t.text@.len(),
    ensures
        units_text(token_units(t, offset).subrange(0, m)) == t.text@.subrange(0, m),
    decreases m,
{
    let tu = token_units(t, offset);
    if m > 0 {
        lemma_punct_prefix(t, offset, m - 1);
        assert(tu.subrange(0, m).drop_last() =~= tu.subrange(0, m - 1));
        assert(t.text@.subrange(0, m) =~= t.text@.subrange(0, m - 1) + seq![t.text@[m - 1]]);
    } else {
        assert(tu.subrange(0, 0) =~= Seq::<ConvUnit>::empty());
        assert(t.text@.subrange(0, 0) =~= Seq::<char>::empty());
    }
}

proof fn lemma_node_units_text(ts: Seq<SrcToken>, k: int, offset: u32, censored: Seq<TextRange>)
    requires
        0 <= k <= ts.len(),
        forall|i: int| 0 <= i < ts.len() ==> #[trigger] plain_node_token(ts[i]),
    ensures
        units_text(node_units(ts, k, offset, censored)) == kept_text(ts, k, censored),
        forall|i: int|
            0 <= i < node_units(ts, k, offset, censored).len() ==> #[trigger] plain_unit(
                node_units(ts, k, offset, censored)[i],
            ),
    decreases k,
{
    if k > 0 {
        lemma_node_units_text(ts, k - 1, offset, censored);
        if !is_censored(censored, ts[k - 1].range) {
            let a = node_units(ts, k - 1, offset, censored);
            let b = token_units(ts[k - 1], offset);
            lemma_token_units_text(ts[k - 1], offset);
            lemma_units_text_concat(a, b);
            assert forall|i: int| 0 <= i < (a + b).len() implies #[trigger] plain_unit((a + b)[i]) by {
                if i < a.len() {
                    assert((a + b)[i] == a[i]);
                } else {
                    assert((a + b)[i] == b[i - a.len()]);
                }
            }
        }
    }
}

/// Round trip from a syntax node: convert the tokens of a node without
/// comments (leaving out censored ones), let the parser's steps over the tree
/// consume every token, and the rebuilt tokens, whitespace left out, spell the
/// significant text of the tokens that were kept.
pub proof fn lemma_node_round_trip<A, C: SyntaxContext>(
    tokens: Seq<SrcToken>,
    anchor_offset: u32,
    censored: Seq<TextRange>,
    anchor: A,
    map: Seq<(TextRange, SpanData<A, C>)>,
    tt: Subtree<SpanData<A, C>>,
    steps: Seq<Step>,
)
    requires
        forall|i: int| 0 <= i < tokens.len() ==> #[trigger] plain_node_token(tokens[i]),
        subtree_pieces(tt) == converted_pieces(
            node_units(tokens, tokens.len() as int, anchor_offset, censored),
            anchor,
            map,
        ),
        steps_ok(input_items(tt), steps, steps.len() as int),
        no_whitespace_steps(steps),
        run(input_items(tt), steps, steps.len() as int).cursor == input_items(tt).len(),
    ensures
        emitted_text(run(input_items(tt), steps, steps.len() as int).events) == kept_text(
            tokens,
            tokens.len() as int,
            censored,
        ),
{
    let items = input_items(tt);
    let units = node_units(tokens, tokens.len() as int, anchor_offset, censored);
    lemma_run_text(items, steps, steps.len() as int);
    lemma_items_text_prefix(items, items.len() as int);
    assert(items.subrange(0, items.len() as int) =~= items);
    lemma_tree_text(TokenTree::Subtree(tt));
    lemma_node_units_text(tokens, tokens.len() as int, anchor_offset, censored);
    lemma_all_pieces_text(units, units.len() as int, anchor, map, unclosed(units));
    assert(units.subrange(0, units.len() as int) =~= units);
}

} // verus!
