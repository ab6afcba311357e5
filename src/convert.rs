//! The core of forward conversion: from conversion units to a token tree.
use vstd::prelude::*;
use crate::doc_comment::{convert_doc_comment, doc_pieces};
use crate::span_map::{SpanMap, lookup};
use crate::syntax_kind::{SyntaxKind, is_single_token_op, spec_is_single_token_op};
use crate::tt::{
    Delimiter, DelimiterKind, Ident, Leaf, Literal, Piece, Punct, Spacing, SpanData, Subtree,
    SyntaxContext, TextRange, TokenTree, all_visible, close_char,
    lemma_trees_pieces_concat, lemma_trees_pieces_push, nested_visible, no_delim_leaf,
    no_delim_leaves, open_char, subtree_pieces,
    tree_pieces, trees_pieces,
};

verus! {

/// One step of conversion: a whole token, or one character of a punctuation token.
/// `rel` is the range relative to the anchor, `abs` the absolute one.
#[derive(Clone, Debug, PartialEq, Eq)]
pub struct ConvUnit {
    pub kind: SyntaxKind,
    pub ch: char,
    pub text: String,
    pub rel: TextRange,
    pub abs: TextRange,
}

/// The span recorded in `map` for `abs`, or else a span without hygiene over `fallback`.
pub open spec fn span_or<A, C: SyntaxContext>(
    map: Seq<(TextRange, SpanData<A, C>)>,
    abs: TextRange,
    fallback: TextRange,
    anchor: A,
) -> SpanData<A, C> {
    match lookup(map, abs) {
        Some(s) => s,
        None => SpanData { range: fallback, anchor, ctx: C::spec_dummy() },
    }
}

/// The spacing of a punctuation unit: `Joint` when the next unit is a
/// single-character operator or a lifetime.
pub open spec fn spacing_after(units: Seq<ConvUnit>, i: int) -> Spacing {
    if i + 1 < units.len() && spec_is_single_token_op(units[i + 1].kind, units[i + 1].ch) {
        Spacing::Joint
    } else {
        Spacing::Alone
    }
}

/// The part of a lifetime's range that its quote covers.
pub open spec fn quote_range(r: TextRange) -> TextRange {
    if r.start < r.end {
        TextRange { start: r.start, end: (r.start + 1) as u32 }
    } else {
        r
    }
}

/// The part of a lifetime's range that its name covers.
pub open spec fn name_range(r: TextRange) -> TextRange {
    if r.start < r.end {
        TextRange { start: (r.start + 1) as u32, end: r.end }
    } else {
        r
    }
}

/// A text without its first character.
pub open spec fn tail(t: Seq<char>) -> Seq<char> {
    if t.len() > 0 {
        t.subrange(1, t.len() as int)
    } else {
        t
    }
}

/// The delimiter kind that `c` opens, if any.
pub open spec fn opened_kind(c: char) -> Option<DelimiterKind> {
    if c == '(' {
        Some(DelimiterKind::Parenthesis)
    } else if c == '{' {
        Some(DelimiterKind::Brace)
    } else if c == '[' {
        Some(DelimiterKind::Bracket)
    } else {
        None
    }
}

/// The unit is an opening delimiter.
pub open spec fn is_opener(u: ConvUnit) -> bool {
    u.kind == SyntaxKind::Punct && opened_kind(u.ch) is Some
}

/// `c` closes the innermost of the open delimiters `opens` (indices of units).
pub open spec fn closes_top(units: Seq<ConvUnit>, opens: Seq<int>, c: char) -> bool {
    opens.len() > 0 && match opened_kind(units[opens.last()].ch) {
        Some(k) => close_char(k) == c,
        None => false,
    }
}

/// The opening delimiters still open after the first `n` units, outermost
/// first: an opening delimiter is pushed, and a punctuation character that
/// closes the innermost one pops it; any other closing character matches nothing.
pub open spec fn opens_after(units: Seq<ConvUnit>, n: int) -> Seq<int>
    decreases n,
{
    if n <= 0 {
        seq![]
    } else {
        let st = opens_after(units, n - 1);
        let u = units[n - 1];
        if is_opener(u) {
            st.push(n - 1)
        } else if u.kind == SyntaxKind::Punct && closes_top(units, st, u.ch) {
            st.drop_last()
        } else {
            st
        }
    }
}

/// The opening delimiters that no unit closes.
pub open spec fn unclosed(units: Seq<ConvUnit>) -> Seq<int> {
    opens_after(units, units.len() as int)
}

/// What the `i`-th unit contributes to the flat reading of the result, where
/// `folded` lists the opening delimiters that stand as punctuation: a matched
/// delimiter bounds a subtree; an unclosed opening delimiter is `Alone`
/// punctuation; a closing character that matches nothing is punctuation
/// spaced like any other.
pub open spec fn unit_pieces<A, C: SyntaxContext>(
    units: Seq<ConvUnit>,
    i: int,
    anchor: A,
    map: Seq<(TextRange, SpanData<A, C>)>,
    folded: Seq<int>,
) -> Seq<Piece<SpanData<A, C>>> {
    let u = units[i];
    let span = span_or(map, u.abs, u.rel, anchor);
    match u.kind {
        SyntaxKind::Comment => doc_pieces(u.text@, span),
        SyntaxKind::Punct => if opened_kind(u.ch) is Some {
            if folded.contains(i) {
                seq![Piece::Punct(u.ch, Spacing::Alone, span)]
            } else {
                seq![Piece::Delim(u.ch, span)]
            }
        } else if closes_top(units, opens_after(units, i), u.ch) {
            seq![Piece::Delim(u.ch, span)]
        } else {
            seq![Piece::Punct(u.ch, spacing_after(units, i), span)]
        },
        SyntaxKind::Ident | SyntaxKind::Underscore | SyntaxKind::Keyword => seq![
            Piece::Ident(u.text@, span),
        ],
        SyntaxKind::IntNumber | SyntaxKind::FloatNumber | SyntaxKind::Literal => seq![
            Piece::Literal(u.text@, span),
        ],
        SyntaxKind::LifetimeIdent => seq![
            Piece::Punct('\'', Spacing::Joint, span_or(map, u.abs, quote_range(u.rel), anchor)),
            Piece::Ident(tail(u.text@), span_or(map, u.abs, name_range(u.rel), anchor)),
        ],
        _ => seq![],
    }
}

/// The flat reading contributed by the first `n` units.
pub open spec fn all_pieces<A, C: SyntaxContext>(
    units: Seq<ConvUnit>,
    n: int,
    anchor: A,
    map: Seq<(TextRange, SpanData<A, C>)>,
    folded: Seq<int>,
) -> Seq<Piece<SpanData<A, C>>>
    decreases n,
{
    if n <= 0 {
        seq![]
    } else {
        all_pieces(units, n - 1, anchor, map, folded) + unit_pieces(
            units,
            n - 1,
            anchor,
            map,
            folded,
        )
    }
}

/// The flat reading of a subtree still being built: its opening delimiter and
/// the children so far.
pub open spec fn frame_pieces<S>(f: Subtree<S>) -> Seq<Piece<S>> {
    if f.delimiter.kind == DelimiterKind::Invisible {
        trees_pieces(f.token_trees@)
    } else {
        seq![Piece::Delim(open_char(f.delimiter.kind), f.delimiter.open)] + trees_pieces(
            f.token_trees@,
        )
    }
}

/// The flat reading of a stack of subtrees being built, outermost first.
pub open spec fn stack_pieces<S>(s: Seq<Subtree<S>>) -> Seq<Piece<S>>
    decreases s.len(),
{
    if s.len() == 0 {
        seq![]
    } else {
        stack_pieces(s.drop_last()) + frame_pieces(s.last())
    }
}

/// Frame `k` of the frames under construction (`stack`, then `cur`) was
/// opened by the unit `opens[k - 1]`: it has that unit's kind and span, and its
/// reading starts where that unit's piece does.
pub open spec fn frame_tracks<A, C: SyntaxContext>(
    stack: Seq<Subtree<SpanData<A, C>>>,
    cur: Subtree<SpanData<A, C>>,
    opens: Seq<int>,
    units: Seq<ConvUnit>,
    anchor: A,
    map: Seq<(TextRange, SpanData<A, C>)>,
    k: int,
) -> bool {
    let f = stack.push(cur)[k];
    let j = opens[k - 1];
    &&& 0 <= j < units.len()
    &&& is_opener(units[j])
    &&& opened_kind(units[j].ch) == Some(f.delimiter.kind)
    &&& f.delimiter.open == span_or(map, units[j].abs, units[j].rel, anchor)
    &&& stack_pieces(stack.subrange(0, k)).len() == all_pieces(
        units,
        j,
        anchor,
        map,
        Seq::<int>::empty(),
    ).len()
}

/// Each unfinished delimited frame was opened by the matching unit of `opens`.
pub open spec fn frames_track<A, C: SyntaxContext>(
    stack: Seq<Subtree<SpanData<A, C>>>,
    cur: Subtree<SpanData<A, C>>,
    opens: Seq<int>,
    units: Seq<ConvUnit>,
    anchor: A,
    map: Seq<(TextRange, SpanData<A, C>)>,
) -> bool {
    &&& stack.len() == opens.len()
    &&& forall|k: int|
        1 <= k <= stack.len() ==> #[trigger] frame_tracks(stack, cur, opens, units, anchor, map, k)
}

proof fn lemma_unit_pieces_len<A, C: SyntaxContext>(
    units: Seq<ConvUnit>,
    i: int,
    anchor: A,
    map: Seq<(TextRange, SpanData<A, C>)>,
    f1: Seq<int>,
    f2: Seq<int>,
)
    ensures
        unit_pieces(units, i, anchor, map, f1).len() == unit_pieces(units, i, anchor, map, f2).len(),
        (f1.contains(i) <==> f2.contains(i)) ==> unit_pieces(units, i, anchor, map, f1)
            == unit_pieces(units, i, anchor, map, f2),
{
}

proof fn lemma_same_folded<A, C: SyntaxContext>(
    units: Seq<ConvUnit>,
    m: int,
    anchor: A,
    map: Seq<(TextRange, SpanData<A, C>)>,
    f1: Seq<int>,
    f2: Seq<int>,
)
    requires
        forall|i: int| 0 <= i < m ==> (f1.contains(i) <==> f2.contains(i)),
    ensures
        all_pieces(units, m, anchor, map, f1) == all_pieces(units, m, anchor, map, f2),
    decreases m,
{
    if m > 0 {
        lemma_same_folded(units, m - 1, anchor, map, f1, f2);
        lemma_unit_pieces_len(units, m - 1, anchor, map, f1, f2);
    }
}

proof fn lemma_all_pieces_len<A, C: SyntaxContext>(
    units: Seq<ConvUnit>,
    m: int,
    anchor: A,
    map: Seq<(TextRange, SpanData<A, C>)>,
    f1: Seq<int>,
    f2: Seq<int>,
)
    ensures
        all_pieces(units, m, anchor, map, f1).len() == all_pieces(units, m, anchor, map, f2).len(),
    decreases m,
{
    if m > 0 {
        lemma_all_pieces_len(units, m - 1, anchor, map, f1, f2);
        lemma_unit_pieces_len(units, m - 1, anchor, map, f1, f2);
    }
}

/// Folding one more opening delimiter turns its piece, and only that, into
/// `Alone` punctuation.
proof fn lemma_fold<A, C: SyntaxContext>(
    units: Seq<ConvUnit>,
    n: int,
    anchor: A,
    map: Seq<(TextRange, SpanData<A, C>)>,
    f1: Seq<int>,
    f2: Seq<int>,
    j: int,
)
    requires
        0 <= j < n <= units.len(),
        is_opener(units[j]),
        f2.contains(j),
        !f1.contains(j),
        forall|i: int| i != j ==> (f1.contains(i) <==> f2.contains(i)),
    ensures
        all_pieces(units, n, anchor, map, f1).len() > all_pieces(units, j, anchor, map, f1).len(),
        all_pieces(units, n, anchor, map, f2) == all_pieces(units, n, anchor, map, f1).update(
            all_pieces(units, j, anchor, map, f1).len() as int,
            Piece::Punct(
                units[j].ch,
                Spacing::Alone,
                span_or(map, units[j].abs, units[j].rel, anchor),
            ),
        ),
    decreases n,
{
    let x = Piece::Punct(units[j].ch, Spacing::Alone, span_or(map, units[j].abs, units[j].rel, anchor));
    if n - 1 == j {
        lemma_same_folded(units, j, anchor, map, f1, f2);
        assert(all_pieces(units, n, anchor, map, f2) =~= all_pieces(units, n, anchor, map, f1).update(
            all_pieces(units, j, anchor, map, f1).len() as int,
            x,
        ));
    } else {
        lemma_fold(units, n - 1, anchor, map, f1, f2, j);
        lemma_unit_pieces_len(units, n - 1, anchor, map, f1, f2);
        assert(all_pieces(units, n, anchor, map, f2) =~= all_pieces(units, n, anchor, map, f1).update(
            all_pieces(units, j, anchor, map, f1).len() as int,
            x,
        ));
    }
}

/// The open delimiters are listed in the order they were opened, all before `n`.
proof fn lemma_opens_sorted(units: Seq<ConvUnit>, n: int)
    requires
        n <= units.len(),
    ensures
        forall|a: int, b: int|
            0 <= a < b < opens_after(units, n).len() ==> opens_after(units, n)[a] < opens_after(
                units,
                n,
            )[b],
        forall|a: int|
            0 <= a < opens_after(units, n).len() ==> 0 <= #[trigger] opens_after(units, n)[a] < n,
    decreases n,
{
    if n > 0 {
        lemma_opens_sorted(units, n - 1);
        let st = opens_after(units, n - 1);
        let r = opens_after(units, n);
        assert(forall|a: int| 0 <= a < st.len() ==> st[a] < n - 1);
        if is_opener(units[n - 1]) {
            assert(r == st.push(n - 1));
        } else if units[n - 1].kind == SyntaxKind::Punct && closes_top(units, st, units[n - 1].ch) {
            assert(r == st.drop_last());
        } else {
            assert(r == st);
        }
    }
}

/// The well-formedness of a stack of frames under construction: only the
/// outermost is invisible, and every child subtree is visible throughout.
pub open spec fn frames_wf<S>(stack: Seq<Subtree<S>>, cur: Subtree<S>) -> bool {
    &&& (stack.len() == 0 <==> cur.delimiter.kind == DelimiterKind::Invisible)
    &&& forall|k: int|
        0 <= k < stack.len() ==> (#[trigger] stack[k].delimiter.kind == DelimiterKind::Invisible
            <==> k == 0)
    &&& forall|k: int| 0 <= k < stack.len() ==> all_visible(#[trigger] stack[k].token_trees@)
    &&& all_visible(cur.token_trees@)
}

fn span_for<A: Copy, C: SyntaxContext>(
    map: &SpanMap<SpanData<A, C>>,
    abs: &TextRange,
    fallback: TextRange,
    anchor: A,
) -> (r: SpanData<A, C>)
    ensures
        r == span_or(map@, *abs, fallback, anchor),
{
    match map.span_for_range(abs) {
        Some(s) => s,
        None => SpanData { range: fallback, anchor, ctx: C::dummy() },
    }
}

fn delim_kind_of(c: char) -> (r: Option<DelimiterKind>)
    ensures
        r matches Some(k) ==> k != DelimiterKind::Invisible && open_char(k) == c,
        r == opened_kind(c),
        r is None ==> c != '(' && c != '{' && c != '[',
{
    if c == '(' {
        Some(DelimiterKind::Parenthesis)
    } else if c == '{' {
        Some(DelimiterKind::Brace)
    } else if c == '[' {
        Some(DelimiterKind::Bracket)
    } else {
        None
    }
}

fn closer_of(k: DelimiterKind) -> (r: Option<char>)
    ensures
        k == DelimiterKind::Invisible <==> r is None,
        r matches Some(c) ==> c == close_char(k),
{
    match k {
        DelimiterKind::Parenthesis => Some(')'),
        DelimiterKind::Brace => Some('}'),
        DelimiterKind::Bracket => Some(']'),
        DelimiterKind::Invisible => None,
    }
}

fn opener_of(k: DelimiterKind) -> (r: char)
    ensures
        r == open_char(k),
{
    match k {
        DelimiterKind::Parenthesis => '(',
        DelimiterKind::Brace => '{',
        DelimiterKind::Bracket => '[',
        DelimiterKind::Invisible => '$',
    }
}

proof fn lemma_frame_push<S>(f: Subtree<S>, g: Subtree<S>, t: TokenTree<S>)
    requires
        g.delimiter == f.delimiter,
        g.token_trees@ == f.token_trees@.push(t),
    ensures
        frame_pieces(g) == frame_pieces(f) + tree_pieces(t),
        t is Leaf ==> (all_visible(g.token_trees@) == all_visible(f.token_trees@)),
{
    lemma_trees_pieces_push(f.token_trees@, t);
}

/// The flat reading of everything built so far.
pub open spec fn built<S>(stack: Seq<Subtree<S>>, cur: Subtree<S>) -> Seq<Piece<S>> {
    stack_pieces(stack) + frame_pieces(cur)
}

fn push_leaf<S>(cur: &mut Subtree<S>, t: TokenTree<S>)
    requires
        t is Leaf,
    ensures
        final(cur).delimiter == old(cur).delimiter,
        frame_pieces(*final(cur)) == frame_pieces(*old(cur)) + tree_pieces(t),
        all_visible(final(cur).token_trees@) == all_visible(old(cur).token_trees@),
        no_delim_leaves(final(cur).token_trees@) == (no_delim_leaves(old(cur).token_trees@)
            && no_delim_leaf(t)),
{
    let ghost before = *cur;
    cur.token_trees.push(t);
    proof {
        lemma_frame_push(before, *cur, t);
        lemma_trees_pieces_push(before.token_trees@, t);
    }
}

fn append_trees<S>(cur: &mut Subtree<S>, ts: &mut Vec<TokenTree<S>>)
    requires
        all_visible(old(ts)@),
    ensures
        final(cur).delimiter == old(cur).delimiter,
        frame_pieces(*final(cur)) == frame_pieces(*old(cur)) + trees_pieces(old(ts)@),
        all_visible(final(cur).token_trees@) == all_visible(old(cur).token_trees@),
        no_delim_leaves(final(cur).token_trees@) == (no_delim_leaves(old(cur).token_trees@)
            && no_delim_leaves(old(ts)@)),
{
    let ghost before = cur.token_trees@;
    let ghost added = ts@;
    cur.token_trees.append(ts);
    proof {
        lemma_trees_pieces_concat(before, added);
        assert(frame_pieces(*cur) =~= frame_pieces(*old(cur)) + trees_pieces(added));
    }
}

fn open_frame<S: Copy>(stack: &mut Vec<Subtree<S>>, cur: &mut Subtree<S>, kind: DelimiterKind, span: S)
    requires
        frames_wf(old(stack)@, *old(cur)),
        kind != DelimiterKind::Invisible,
    ensures
        frames_wf(final(stack)@, *final(cur)),
        built(final(stack)@, *final(cur)) == built(old(stack)@, *old(cur)) + seq![
            Piece::Delim(open_char(kind), span),
        ],
        final(stack)@ == old(stack)@.push(*old(cur)),
        final(cur).delimiter == (Delimiter { open: span, close: span, kind }),
{
    let ghost old_stack = stack@;
    let ghost old_cur = *cur;
    let fresh = Subtree { delimiter: Delimiter { open: span, close: span, kind }, token_trees: Vec::new() };
    let mut prev = fresh;
    core::mem::swap(cur, &mut prev);
    stack.push(prev);
    proof {
        assert(stack@.drop_last() =~= old_stack);
        assert(frame_pieces(*cur) =~= seq![Piece::Delim(open_char(kind), span)]);
        assert(all_visible(cur.token_trees@));
        assert(forall|k: int| 0 <= k < old_stack.len() ==> stack@[k] == old_stack[k]);
        assert(built(stack@, *cur) =~= built(old_stack, old_cur) + seq![
            Piece::Delim(open_char(kind), span),
        ]);
    }
}

fn close_frame<S: Copy>(stack: &mut Vec<Subtree<S>>, cur: &mut Subtree<S>, span: S)
    requires
        frames_wf(old(stack)@, *old(cur)),
        old(cur).delimiter.kind != DelimiterKind::Invisible,
    ensures
        frames_wf(final(stack)@, *final(cur)),
        built(final(stack)@, *final(cur)) == built(old(stack)@, *old(cur)) + seq![
            Piece::Delim(close_char(old(cur).delimiter.kind), span),
        ],
        final(stack)@ == old(stack)@.drop_last(),
        final(cur).delimiter == old(stack)@.last().delimiter,
{
    let ghost old_stack = stack@;
    let ghost old_cur = *cur;
    let mut done = stack.pop().unwrap();
    let ghost old_parent = done;
    proof {
        assert(old_parent == old_stack[old_stack.len() - 1]);
        assert(all_visible(old_stack[old_stack.len() - 1].token_trees@));
        assert(nested_visible(TokenTree::Subtree(old_cur)));
    }
    core::mem::swap(cur, &mut done);
    done.delimiter.close = span;
    let ghost closed = done;
    cur.token_trees.push(TokenTree::Subtree(done));
    proof {
        lemma_frame_push(old_parent, *cur, TokenTree::Subtree(closed));
        lemma_trees_pieces_push(old_parent.token_trees@, TokenTree::Subtree(closed));
        assert(old_stack.drop_last() =~= stack@);
        assert(tree_pieces(TokenTree::Subtree(closed)) =~= frame_pieces(old_cur) + seq![
            Piece::Delim(close_char(old_cur.delimiter.kind), span),
        ]);
        assert(built(stack@, *cur) =~= built(old_stack, old_cur) + seq![
            Piece::Delim(close_char(old_cur.delimiter.kind), span),
        ]);
        assert(forall|k: int| 0 <= k < stack@.len() ==> stack@[k] == old_stack[k]);
    }
}

/// Folds the innermost unfinished frame into its parent: its opening delimiter
/// becomes a punctuation leaf, followed by the trees it collected.
fn merge_frame<S: Copy>(stack: &mut Vec<Subtree<S>>, cur: &mut Subtree<S>)
    requires
        frames_wf(old(stack)@, *old(cur)),
        old(stack)@.len() > 0,
    ensures
        frames_wf(final(stack)@, *final(cur)),
        final(stack)@ == old(stack)@.drop_last(),
        final(cur).delimiter == old(stack)@.last().delimiter,
        built(final(stack)@, *final(cur)) == built(old(stack)@, *old(cur)).update(
            stack_pieces(old(stack)@).len() as int,
            Piece::Punct(open_char(old(cur).delimiter.kind), Spacing::Alone, old(cur).delimiter.open),
        ),
{
    let ghost old_stack = stack@;
    let ghost old_cur = *cur;
    let mut done = stack.pop().unwrap();
    let ghost old_parent = done;
    proof {
        assert(old_parent == old_stack[old_stack.len() - 1]);
        assert(all_visible(old_stack[old_stack.len() - 1].token_trees@));
    }
    core::mem::swap(cur, &mut done);
    let c = opener_of(done.delimiter.kind);
    let leaf = TokenTree::Leaf(
        Leaf::Punct(Punct { char: c, spacing: Spacing::Alone, span: done.delimiter.open }),
    );
    push_leaf(cur, leaf);
    append_trees(cur, &mut done.token_trees);
    proof {
        assert(old_stack.drop_last() =~= stack@);
        assert(stack_pieces(old_stack) == stack_pieces(stack@) + frame_pieces(old_parent));
        assert(built(stack@, *cur) =~= built(old_stack, old_cur).update(
            stack_pieces(old_stack).len() as int,
            Piece::Punct(open_char(old_cur.delimiter.kind), Spacing::Alone, old_cur.delimiter.open),
        ));
        assert(forall|k: int| 0 <= k < stack@.len() ==> stack@[k] == old_stack[k]);
    }
}

proof fn lemma_track_keep<A, C: SyntaxContext>(
    stack: Seq<Subtree<SpanData<A, C>>>,
    cur: Subtree<SpanData<A, C>>,
    cur2: Subtree<SpanData<A, C>>,
    opens: Seq<int>,
    units: Seq<ConvUnit>,
    anchor: A,
    map: Seq<(TextRange, SpanData<A, C>)>,
)
    requires
        frames_track(stack, cur, opens, units, anchor, map),
        cur2.delimiter == cur.delimiter,
    ensures
        frames_track(stack, cur2, opens, units, anchor, map),
{
    assert forall|k: int| 1 <= k <= stack.len() implies #[trigger] frame_tracks(
        stack,
        cur2,
        opens,
        units,
        anchor,
        map,
        k,
    ) by {
        assert(frame_tracks(stack, cur, opens, units, anchor, map, k));
        assert(stack.push(cur2)[k].delimiter == stack.push(cur)[k].delimiter);
    }
}

proof fn lemma_track_open<A, C: SyntaxContext>(
    stack: Seq<Subtree<SpanData<A, C>>>,
    cur: Subtree<SpanData<A, C>>,
    cur2: Subtree<SpanData<A, C>>,
    opens: Seq<int>,
    i: int,
    units: Seq<ConvUnit>,
    anchor: A,
    map: Seq<(TextRange, SpanData<A, C>)>,
)
    requires
        frames_track(stack, cur, opens, units, anchor, map),
        0 <= i < units.len(),
        is_opener(units[i]),
        opened_kind(units[i].ch) == Some(cur2.delimiter.kind),
        cur2.delimiter.open == span_or(map, units[i].abs, units[i].rel, anchor),
        built(stack, cur).len() == all_pieces(units, i, anchor, map, Seq::<int>::empty()).len(),
    ensures
        frames_track(stack.push(cur), cur2, opens.push(i), units, anchor, map),
{
    let s2 = stack.push(cur);
    assert(s2.drop_last() =~= stack);
    assert forall|k: int| 1 <= k <= s2.len() implies #[trigger] frame_tracks(
        s2,
        cur2,
        opens.push(i),
        units,
        anchor,
        map,
        k,
    ) by {
        if k <= stack.len() {
            assert(frame_tracks(stack, cur, opens, units, anchor, map, k));
            assert(s2.subrange(0, k) =~= stack.subrange(0, k));
            assert(s2.push(cur2)[k] == stack.push(cur)[k]);
        } else {
            assert(s2.subrange(0, k) =~= s2);
        }
    }
}

proof fn lemma_track_close<A, C: SyntaxContext>(
    stack: Seq<Subtree<SpanData<A, C>>>,
    cur: Subtree<SpanData<A, C>>,
    cur2: Subtree<SpanData<A, C>>,
    opens: Seq<int>,
    units: Seq<ConvUnit>,
    anchor: A,
    map: Seq<(TextRange, SpanData<A, C>)>,
)
    requires
        frames_track(stack, cur, opens, units, anchor, map),
        stack.len() > 0,
        cur2.delimiter == stack.last().delimiter,
    ensures
        frames_track(stack.drop_last(), cur2, opens.drop_last(), units, anchor, map),
{
    let s2 = stack.drop_last();
    assert forall|k: int| 1 <= k <= s2.len() implies #[trigger] frame_tracks(
        s2,
        cur2,
        opens.drop_last(),
        units,
        anchor,
        map,
        k,
    ) by {
        assert(frame_tracks(stack, cur, opens, units, anchor, map, k));
        assert(s2.subrange(0, k) =~= stack.subrange(0, k));
        assert(s2.push(cur2)[k].delimiter == stack.push(cur)[k].delimiter);
    }
}

/// Builds a token tree from conversion units.
///
/// Delimiters that match build subtrees; an opening delimiter left unmatched
/// at the end becomes an `Alone` punctuation leaf followed by what it enclosed,
/// and a closing character that matches nothing stays punctuation. When the
/// result would be an invisible subtree around exactly one subtree, that subtree
/// is returned instead. The flat reading of the result, in which only subtree
/// boundaries read as delimiters, is exactly the concatenation of what each
/// unit contributes; every nested subtree is a delimited one.
pub fn convert_tokens<A: Copy, C: SyntaxContext>(
    units: &Vec<ConvUnit>,
    anchor: A,
    map: &SpanMap<SpanData<A, C>>,
) -> (r: Subtree<SpanData<A, C>>)
    ensures
        subtree_pieces(r) == converted_pieces(units@, anchor, map@),
        all_visible(r.token_trees@),
        root_shape(r, anchor),
{
    let root_span = SpanData { range: TextRange { start: 0, end: 0 }, anchor, ctx: C::dummy() };
    let mut cur: Subtree<SpanData<A, C>> = Subtree {
        delimiter: Delimiter { open: root_span, close: root_span, kind: DelimiterKind::Invisible },
        token_trees: Vec::new(),
    };
    let ghost root_delim = cur.delimiter;
    let mut stack: Vec<Subtree<SpanData<A, C>>> = Vec::new();
    let n = units.len();
    let mut i: usize = 0;
    while i < n
        invariant
            n == units@.len(),
            i <= n,
            built(stack@, cur) == all_pieces(units@, i as int, anchor, map@, Seq::<int>::empty()),
            frames_wf(stack@, cur),
            frames_track(stack@, cur, opens_after(units@, i as int), units@, anchor, map@),
            stack@.len() > 0 ==> stack@[0].delimiter == root_delim,
            stack@.len() == 0 ==> cur.delimiter == root_delim,
        decreases n - i,
    {
        let u = &units[i];
        let span = span_for(map, &u.abs, u.rel, anchor);
        let ghost before = built(stack@, cur);
        let ghost up = unit_pieces(units@, i as int, anchor, map@, Seq::<int>::empty());
        let ghost old_stack = stack@;
        let ghost old_cur = cur;
        let ghost opens = opens_after(units@, i as int);
        proof {
            if stack@.len() > 0 {
                assert(frame_tracks(stack@, cur, opens, units@, anchor, map@, stack@.len() as int));
                assert(stack@.push(cur)[stack@.len() as int] == cur);
            }
        }
        match u.kind {
            SyntaxKind::Comment => {
                if let Some(mut tokens) = convert_doc_comment(u.text.as_str(), span) {
                    append_trees(&mut cur, &mut tokens);
                }
            },
            SyntaxKind::Punct => {
                let c = u.ch;
                let closes = match closer_of(cur.delimiter.kind) {
                    Some(e) => e == c,
                    None => false,
                };
                assert(closes == closes_top(units@, opens, c));
                if closes {
                    close_frame(&mut stack, &mut cur, span);
                    proof {
                        lemma_track_close(old_stack, old_cur, cur, opens, units@, anchor, map@);
                    }
                } else {
                    match delim_kind_of(c) {
                        Some(kind) => {
                            open_frame(&mut stack, &mut cur, kind, span);
                            proof {
                                lemma_track_open(
                                    old_stack,
                                    old_cur,
                                    cur,
                                    opens,
                                    i as int,
                                    units@,
                                    anchor,
                                    map@,
                                );
                            }
                        },
                        None => {
                            let spacing = if i + 1 < n && is_single_token_op(
                                units[i + 1].kind,
                                units[i + 1].ch,
                            ) {
                                Spacing::Joint
                            } else {
                                Spacing::Alone
                            };
                            let leaf = TokenTree::Leaf(Leaf::Punct(Punct { char: c, spacing, span }));
                            push_leaf(&mut cur, leaf);
                        },
                    }
                }
            },
            SyntaxKind::Ident | SyntaxKind::Underscore | SyntaxKind::Keyword => {
                let leaf = TokenTree::Leaf(Leaf::Ident(Ident { text: u.text.clone(), span }));
                push_leaf(&mut cur, leaf);
            },
            SyntaxKind::IntNumber | SyntaxKind::FloatNumber | SyntaxKind::Literal => {
                let leaf = TokenTree::Leaf(Leaf::Literal(Literal { text: u.text.clone(), span }));
                push_leaf(&mut cur, leaf);
            },
            SyntaxKind::LifetimeIdent => {
                let len = u.text.unicode_len();
                let (quote_r, name_r) = if u.rel.start < u.rel.end {
                    (
                        TextRange { start: u.rel.start, end: u.rel.start + 1 },
                        TextRange { start: u.rel.start + 1, end: u.rel.end },
                    )
                } else {
                    (u.rel, u.rel)
                };
                let name = if len > 0 {
                    String::from_str(u.text.as_str().substring_char(1, len))
                } else {
                    u.text.clone()
                };
                let quote = TokenTree::Leaf(
                    Leaf::Punct(
                        Punct {
                            char: '\'',
                            spacing: Spacing::Joint,
                            span: span_for(map, &u.abs, quote_r, anchor),
                        },
                    ),
                );
                let ident = TokenTree::Leaf(
                    Leaf::Ident(Ident { text: name, span: span_for(map, &u.abs, name_r, anchor) }),
                );
                push_leaf(&mut cur, quote);
                push_leaf(&mut cur, ident);
            },
            _ => {},
        }
        proof {
            assert(built(stack@, cur) =~= before + up);
            if stack@ == old_stack {
                lemma_track_keep(old_stack, old_cur, cur, opens, units@, anchor, map@);
            }
        }
        i += 1;
    }
    let ghost f = unclosed(units@);
    proof {
        lemma_opens_sorted(units@, n as int);
        assert(f.subrange(0, stack@.len() as int) =~= f);
        assert(f.subrange(stack@.len() as int, f.len() as int) =~= Seq::<int>::empty());
    }
    while stack.len() > 0
        invariant
            f == unclosed(units@),
            stack@.len() <= f.len(),
            n == units@.len(),
            forall|a: int, b: int| 0 <= a < b < f.len() ==> f[a] < f[b],
            forall|a: int| 0 <= a < f.len() ==> 0 <= #[trigger] f[a] < n,
            built(stack@, cur) == all_pieces(
                units@,
                n as int,
                anchor,
                map@,
                f.subrange(stack@.len() as int, f.len() as int),
            ),
            frames_track(stack@, cur, f.subrange(0, stack@.len() as int), units@, anchor, map@),
            frames_wf(stack@, cur),
            stack@.len() > 0 ==> stack@[0].delimiter == root_delim,
            stack@.len() == 0 ==> cur.delimiter == root_delim,
        decreases stack@.len(),
    {
        let ghost old_stack = stack@;
        let ghost old_cur = cur;
        let ghost k = stack@.len() as int;
        let ghost opens = f.subrange(0, k);
        let ghost j = f[k - 1];
        let ghost f1 = f.subrange(k, f.len() as int);
        let ghost f2 = f.subrange(k - 1, f.len() as int);
        proof {
            assert(frame_tracks(old_stack, old_cur, opens, units@, anchor, map@, k));
            assert(old_stack.push(old_cur)[k] == old_cur);
            assert(old_stack.subrange(0, k) =~= old_stack);
            assert(f2[0] == j);
            assert(!f1.contains(j)) by {
                if f1.contains(j) {
                    let a = choose|a: int| 0 <= a < f1.len() && f1[a] == j;
                    assert(f[k + a] == j);
                }
            }
            assert forall|x: int| x != j implies (f1.contains(x) <==> f2.contains(x)) by {
                if f1.contains(x) {
                    let a = choose|a: int| 0 <= a < f1.len() && f1[a] == x;
                    assert(f2[a + 1] == x);
                }
                if f2.contains(x) {
                    let a = choose|a: int| 0 <= a < f2.len() && f2[a] == x;
                    assert(a > 0);
                    assert(f1[a - 1] == x);
                }
            }
            lemma_fold(units@, n as int, anchor, map@, f1, f2, j);
            lemma_all_pieces_len(units@, j, anchor, map@, f1, Seq::<int>::empty());
        }
        merge_frame(&mut stack, &mut cur);
        proof {
            lemma_track_close(old_stack, old_cur, cur, opens, units@, anchor, map@);
            assert(opens.drop_last() =~= f.subrange(0, stack@.len() as int));
            assert(built(stack@, cur) =~= all_pieces(
                units@,
                n as int,
                anchor,
                map@,
                f.subrange(stack@.len() as int, f.len() as int),
            ));
        }
    }
    proof {
        assert(f.subrange(0, f.len() as int) =~= f);
        assert(stack_pieces(stack@) =~= seq![]);
        assert(frame_pieces(cur) =~= subtree_pieces(cur));
    }
    collapse(cur)
}

/// The outer subtree of a conversion: either a delimited subtree, or an
/// invisible one with empty spans at the start of the anchor that does not
/// hold just one subtree (that subtree would stand for itself).
pub open spec fn root_shape<A, C: SyntaxContext>(r: Subtree<SpanData<A, C>>, anchor: A) -> bool {
    r.delimiter.kind == DelimiterKind::Invisible ==> !lone_subtree(r.token_trees@)
        && r.delimiter.open == r.delimiter.close && r.delimiter.open == (SpanData {
        range: TextRange { start: 0, end: 0 },
        anchor,
        ctx: C::spec_dummy(),
    })
}

/// The sequence is exactly one subtree.
pub open spec fn lone_subtree<S>(ts: Seq<TokenTree<S>>) -> bool {
    ts.len() == 1 && ts[0] is Subtree
}

/// An invisible subtree that holds exactly one subtree stands for that subtree.
fn collapse<S>(cur: Subtree<S>) -> (r: Subtree<S>)
    requires
        cur.delimiter.kind == DelimiterKind::Invisible,
        all_visible(cur.token_trees@),
    ensures
        subtree_pieces(r) == subtree_pieces(cur),
        all_visible(r.token_trees@),
        no_delim_leaves(cur.token_trees@) ==> no_delim_leaves(r.token_trees@),
        r.delimiter.kind == DelimiterKind::Invisible ==> r.delimiter == cur.delimiter && !lone_subtree(
            r.token_trees@,
        ),
{
    let mut cur = cur;
    if cur.token_trees.len() == 1 && matches!(cur.token_trees[0], TokenTree::Subtree(_)) {
        let ghost before = cur.token_trees@;
        match cur.token_trees.pop() {
            Some(TokenTree::Subtree(first)) => {
                proof {
                    assert(before.drop_last() =~= Seq::<TokenTree<S>>::empty());
                    assert(before.last() == TokenTree::Subtree(first));
                    assert(trees_pieces(before.drop_last()) =~= Seq::<Piece<S>>::empty());
                    assert(all_visible(before.drop_last()));
                    assert(trees_pieces(before) =~= tree_pieces(TokenTree::Subtree(first)));
                    assert(nested_visible(TokenTree::Subtree(first)));
                    assert(no_delim_leaves(before.drop_last()));
                    assert(no_delim_leaves(before) ==> no_delim_leaf(TokenTree::Subtree(first)));
                }
                first
            },
            _ => {
                proof {
                    assert(false);
                }
                cur
            },
        }
    } else {
        cur
    }
}

/// The flat reading of the whole unit sequence.
pub open spec fn converted_pieces<A, C: SyntaxContext>(
    units: Seq<ConvUnit>,
    anchor: A,
    map: Seq<(TextRange, SpanData<A, C>)>,
) -> Seq<Piece<SpanData<A, C>>> {
    all_pieces(units, units.len() as int, anchor, map, unclosed(units))
}

} // verus!
