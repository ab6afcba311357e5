//! Forward conversion entry points: from a syntax node's tokens, or from lexed text.
use vstd::prelude::*;
use crate::convert::{ConvUnit, converted_pieces, convert_tokens, root_shape};
use crate::span_map::SpanMap;
use crate::syntax_kind::SyntaxKind;
use crate::tt::{
    SpanData, Subtree, SyntaxContext, TextRange, all_visible, subtree_pieces,
};

verus! {

/// A token as a lexer or a syntax tree hands it over: its kind, its text, and
/// the absolute range of that text.
#[derive(Clone, Debug, PartialEq, Eq)]
pub struct SrcToken {
    pub kind: SyntaxKind,
    pub text: String,
    pub range: TextRange,
}

impl SrcToken {
    /// The range is well formed, and the text has at most one character per byte of it.
    pub open spec fn wf(self) -> bool {
        self.range.wf() && self.text@.len() <= self.range.spec_len()
    }
}

/// What a lexer made of a text: its tokens, and the lexical errors it found.
#[derive(Clone, Debug, PartialEq, Eq)]
pub struct LexedStr {
    pub tokens: Vec<SrcToken>,
    pub errors: Vec<String>,
}

/// The first character of a text, or a space for an empty one.
pub open spec fn first_char(t: Seq<char>) -> char {
    if t.len() > 0 {
        t[0]
    } else {
        ' '
    }
}


/// A lexer token as one unit: its range serves as both relative and absolute range.
pub open spec fn raw_unit(t: SrcToken) -> ConvUnit {
    ConvUnit { kind: t.kind, ch: first_char(t.text@), text: t.text, rel: t.range, abs: t.range }
}

pub open spec fn raw_units(ts: Seq<SrcToken>) -> Seq<ConvUnit> {
    ts.map_values(|t: SrcToken| raw_unit(t))
}

/// `r` moved back by `offset`.
pub open spec fn relative(r: TextRange, offset: u32) -> TextRange {
    TextRange { start: (r.start - offset) as u32, end: (r.end - offset) as u32 }
}

/// The unit of the `j`-th character of a punctuation token.
pub open spec fn punct_unit(t: SrcToken, offset: u32, j: int) -> ConvUnit {
    let abs = TextRange { start: (t.range.start + j) as u32, end: (t.range.start + j + 1) as u32 };
    ConvUnit { kind: SyntaxKind::Punct, ch: t.text@[j], text: t.text, rel: relative(abs, offset), abs }
}

/// The units of a syntax-tree token: one per character for punctuation, else the token whole.
pub open spec fn token_units(t: SrcToken, offset: u32) -> Seq<ConvUnit> {
    if t.kind == SyntaxKind::Punct {
        Seq::new(t.text@.len(), |j: int| punct_unit(t, offset, j))
    } else {
        seq![
            ConvUnit {
                kind: t.kind,
                ch: first_char(t.text@),
                text: t.text,
                rel: relative(t.range, offset),
                abs: t.range,
            },
        ]
    }
}

/// `r` lies inside one of the `censored` ranges.
pub open spec fn is_censored(censored: Seq<TextRange>, r: TextRange) -> bool {
    exists|k: int|
        0 <= k < censored.len() && #[trigger] censored[k].start <= r.start && r.end
            <= censored[k].end
}

/// The units of the first `n` tokens of a syntax node, leaving out censored tokens.
pub open spec fn node_units(
    ts: Seq<SrcToken>,
    n: int,
    offset: u32,
    censored: Seq<TextRange>,
) -> Seq<ConvUnit>
    decreases n,
{
    if n <= 0 {
        seq![]
    } else if is_censored(censored, ts[n - 1].range) {
        node_units(ts, n - 1, offset, censored)
    } else {
        node_units(ts, n - 1, offset, censored) + token_units(ts[n - 1], offset)
    }
}

/// The tokens of a node are well formed and start at or after `offset`.
pub open spec fn node_tokens_wf(ts: Seq<SrcToken>, offset: u32) -> bool {
    forall|i: int| 0 <= i < ts.len() ==> #[trigger] node_token_wf(ts[i], offset)
}

/// A node's token is well formed and starts at or after `offset`.
pub open spec fn node_token_wf(t: SrcToken, offset: u32) -> bool {
    t.wf() && offset <= t.range.start
}

fn censored_by(censored: &Vec<TextRange>, r: &TextRange) -> (b: bool)
    ensures
        b == is_censored(censored@, *r),
{
    let mut k: usize = 0;
    while k < censored.len()
        invariant
            k <= censored@.len(),
            forall|j: int|
                0 <= j < k ==> !(#[trigger] censored@[j].start <= r.start && r.end
                    <= censored@[j].end),
        decreases censored@.len() - k,
    {
        if censored[k].contains_range(r) {
            return true;
        }
        k += 1;
    }
    false
}

fn push_token_units(out: &mut Vec<ConvUnit>, t: &SrcToken, offset: u32)
    requires
        t.wf(),
        offset <= t.range.start,
    ensures
        final(out)@ == old(out)@ + token_units(*t, offset),
{
    if t.kind == SyntaxKind::Punct {
        let len = t.text.unicode_len();
        let ghost base = out@;
        let ghost tu = token_units(*t, offset);
        assert(tu.len() == len);
        let mut j: usize = 0;
        while j < len
            invariant
                len == t.text@.len(),
                j <= len,
                t.wf(),
                offset <= t.range.start,
                tu == token_units(*t, offset),
                t.kind == SyntaxKind::Punct,
                tu.len() == len,
                out@ == base + tu.subrange(0, j as int),
            decreases len - j,
        {
            let ghost prev = out@;
            let start = t.range.start + j as u32;
            let abs = TextRange { start, end: start + 1 };
            out.push(
                ConvUnit {
                    kind: SyntaxKind::Punct,
                    ch: t.text.as_str().get_char(j),
                    text: t.text.clone(),
                    rel: TextRange { start: abs.start - offset, end: abs.end - offset },
                    abs,
                },
            );
            proof {
                assert(t.range.start + j + 1 <= t.range.end);
                assert(out@.last() == tu[j as int]);
                assert(tu.subrange(0, j + 1) =~= tu.subrange(0, j as int).push(tu[j as int]));
                assert(out@ =~= prev.push(tu[j as int]));
            }
            j += 1;
        }
        proof {
            assert(tu.subrange(0, j as int) =~= tu);
        }
    } else {
        let len = t.text.unicode_len();
        let ch = if len > 0 { t.text.as_str().get_char(0) } else { ' ' };
        out.push(
            ConvUnit {
                kind: t.kind,
                ch,
                text: t.text.clone(),
                rel: TextRange { start: t.range.start - offset, end: t.range.end - offset },
                abs: t.range,
            },
        );
        proof {
            assert(out@ =~= old(out)@ + token_units(*t, offset));
        }
    }
}

/// The conversion units of a syntax node's tokens.
pub fn node_to_units(tokens: &Vec<SrcToken>, offset: u32, censored: &Vec<TextRange>) -> (r: Vec<
    ConvUnit,
>)
    requires
        node_tokens_wf(tokens@, offset),
    ensures
        r@ == node_units(tokens@, tokens@.len() as int, offset, censored@),
{
    let mut out: Vec<ConvUnit> = Vec::new();
    let mut i: usize = 0;
    while i < tokens.len()
        invariant
            i <= tokens@.len(),
            node_tokens_wf(tokens@, offset),
            out@ == node_units(tokens@, i as int, offset, censored@),
        decreases tokens@.len() - i,
    {
        let t = &tokens[i];
        assert(node_token_wf(*t, offset));
        if !censored_by(censored, &t.range) {
            push_token_units(&mut out, t, offset);
        }
        i += 1;
    }
    out
}

/// The conversion units of a lexer's tokens, one per token.
pub fn lexed_to_units(tokens: &Vec<SrcToken>) -> (r: Vec<ConvUnit>)
    ensures
        r@ == raw_units(tokens@),
{
    let mut out: Vec<ConvUnit> = Vec::new();
    let mut i: usize = 0;
    while i < tokens.len()
        invariant
            i <= tokens@.len(),
            out@ == raw_units(tokens@).subrange(0, i as int),
        decreases tokens@.len() - i,
    {
        let t = &tokens[i];
        let len = t.text.unicode_len();
        let ch = if len > 0 { t.text.as_str().get_char(0) } else { ' ' };
        out.push(ConvUnit { kind: t.kind, ch, text: t.text.clone(), rel: t.range, abs: t.range });
        i += 1;
        proof {
            assert(out@ =~= raw_units(tokens@).subrange(0, i as int));
        }
    }
    proof {
        assert(raw_units(tokens@).subrange(0, i as int) =~= raw_units(tokens@));
    }
    out
}

/// Converts the tokens of a syntax node to a token tree whose spans are
/// relative to `anchor_offset`, taking spans recorded in `map` where it has them.
pub fn syntax_node_to_token_tree<A: Copy, C: SyntaxContext>(
    tokens: &Vec<SrcToken>,
    anchor: A,
    anchor_offset: u32,
    map: &SpanMap<SpanData<A, C>>,
) -> (r: Subtree<SpanData<A, C>>)
    requires
        node_tokens_wf(tokens@, anchor_offset),
    ensures
        subtree_pieces(r) == converted_pieces(
            node_units(tokens@, tokens@.len() as int, anchor_offset, seq![]),
            anchor,
            map@,
        ),
        all_visible(r.token_trees@),
        root_shape(r, anchor),
{
    let none: Vec<TextRange> = Vec::new();
    let units = node_to_units(tokens, anchor_offset, &none);
    proof {
        assert(none@ =~= seq![]);
    }
    convert_tokens(&units, anchor, map)
}

/// As `syntax_node_to_token_tree`, leaving out the tokens that lie inside any
/// of the `censored` node ranges.
pub fn syntax_node_to_token_tree_censored<A: Copy, C: SyntaxContext>(
    tokens: &Vec<SrcToken>,
    anchor: A,
    anchor_offset: u32,
    map: &SpanMap<SpanData<A, C>>,
    censored: Vec<TextRange>,
) -> (r: Subtree<SpanData<A, C>>)
    requires
        node_tokens_wf(tokens@, anchor_offset),
    ensures
        subtree_pieces(r) == converted_pieces(
            node_units(tokens@, tokens@.len() as int, anchor_offset, censored@),
            anchor,
            map@,
        ),
        all_visible(r.token_trees@),
        root_shape(r, anchor),
{
    let units = node_to_units(tokens, anchor_offset, &censored);
    convert_tokens(&units, anchor, map)
}

/// Converts lexed text to a token tree; `None` when the lexer reported any error.
pub fn parse_to_token_tree<A: Copy, C: SyntaxContext>(lexed: &LexedStr, anchor: A) -> (r: Option<
    Subtree<SpanData<A, C>>,
>)
    ensures
        r is None <==> lexed.errors@.len() > 0,
        r matches Some(t) ==> subtree_pieces(t) == converted_pieces(
            raw_units(lexed.tokens@),
            anchor,
            Seq::<(TextRange, SpanData<A, C>)>::empty(),
        ) && all_visible(t.token_trees@) && root_shape(t, anchor),
{
    if lexed.errors.len() > 0 {
        return None;
    }
    let units = lexed_to_units(&lexed.tokens);
    let map: SpanMap<SpanData<A, C>> = SpanMap::new();
    Some(convert_tokens(&units, anchor, &map))
}

/// The span without hygiene that a node's token gets relative to `offset`.
pub open spec fn plain_span<A, C: SyntaxContext>(t: SrcToken, anchor: A, offset: u32) -> (
    TextRange,
    SpanData<A, C>,
) {
    (t.range, SpanData { range: relative(t.range, offset), anchor, ctx: C::spec_dummy() })
}

/// A span map that gives every token of a node a span without hygiene,
/// relative to `anchor_offset`.
pub fn map_from_syntax_node<A: Copy, C: SyntaxContext>(
    tokens: &Vec<SrcToken>,
    anchor: A,
    anchor_offset: u32,
) -> (r: SpanMap<SpanData<A, C>>)
    requires
        node_tokens_wf(tokens@, anchor_offset),
    ensures
        r@ == tokens@.map_values(|t: SrcToken| plain_span::<A, C>(t, anchor, anchor_offset)),
{
    let mut map: SpanMap<SpanData<A, C>> = SpanMap::new();
    let mut i: usize = 0;
    while i < tokens.len()
        invariant
            i <= tokens@.len(),
            node_tokens_wf(tokens@, anchor_offset),
            map@ == tokens@.map_values(|t: SrcToken| plain_span::<A, C>(t, anchor, anchor_offset)).subrange(0, i as int),
        decreases tokens@.len() - i,
    {
        let r = tokens[i].range;
        assert(node_token_wf(tokens@[i as int], anchor_offset));
        map.insert(
            r,
            SpanData {
                range: TextRange { start: r.start - anchor_offset, end: r.end - anchor_offset },
                anchor,
                ctx: C::dummy(),
            },
        );
        i += 1;
        proof {
            assert(map@ =~= tokens@.map_values(|t: SrcToken| plain_span::<A, C>(t, anchor, anchor_offset)).subrange(0, i as int));
        }
    }
    proof {
        assert(tokens@.map_values(|t: SrcToken| plain_span::<A, C>(t, anchor, anchor_offset)).subrange(0, i as int) =~= tokens@.map_values(|t: SrcToken| plain_span::<A, C>(t, anchor, anchor_offset)));
    }
    map
}

} // verus!
