//! Splitting a macro repetition `$($e:expr)SEP*` into its expression fragments.
use vstd::prelude::*;
use crate::buffer::copy_tree;
use crate::tt::{
    Delimiter, DelimiterKind, Leaf, Span, Subtree, TokenTree, lemma_trees_view_push, subtree_view,
    tree_view, trees_view,
};

verus! {

/// What the expression parser answers for the trees from `p` on: how many of
/// them one expression takes (`0` when none parses).
pub open spec fn parser_answer<S, F: Fn(&Vec<TokenTree<S>>, usize) -> usize>(
    f: F,
    ts: &Vec<TokenTree<S>>,
    p: int,
) -> int {
    (choose|n: usize| #[trigger] f.ensures((ts, p as usize), n)) as int
}

/// The expression parser gives one answer for each position.
pub open spec fn deterministic<S, F: Fn(&Vec<TokenTree<S>>, usize) -> usize>(
    f: F,
    ts: &Vec<TokenTree<S>>,
) -> bool {
    forall|p: usize, a: usize, b: usize|
        #[trigger] f.ensures((ts, p), a) && #[trigger] f.ensures((ts, p), b) ==> a == b
}

/// `t` is the separator `sep`.
pub open spec fn is_sep<S>(t: TokenTree<S>, sep: char) -> bool {
    match t {
        TokenTree::Leaf(Leaf::Punct(p)) => p.char == sep,
        _ => false,
    }
}

/// The ranges of the fragments parsed from position `p` on, and where parsing stopped:
/// an expression is taken, then a separator if one follows, and so on while
/// trees remain.
pub open spec fn split_from<S, F: Fn(&Vec<TokenTree<S>>, usize) -> usize>(
    ts: &Vec<TokenTree<S>>,
    sep: char,
    f: F,
    p: int,
) -> (Seq<(int, int)>, int)
    decreases ts@.len() - p,
{
    if p < 0 || p >= ts@.len() {
        (seq![], p)
    } else {
        let a = parser_answer(f, ts, p);
        let n = if a > ts@.len() - p {
            ts@.len() - p
        } else {
            a
        };
        if n <= 0 {
            (seq![], p)
        } else {
            let q = p + n;
            if q < ts@.len() && is_sep(ts@[q], sep) {
                (seq![(p, q)] + split_from(ts, sep, f, q + 1).0, split_from(ts, sep, f, q + 1).1)
            } else {
                (seq![(p, q)], q)
            }
        }
    }
}

/// `fr` holds the trees `a..b` of `ts`: a lone subtree stands for itself,
/// anything else is wrapped in an unspecified delimiter.
pub open spec fn is_fragment<S: Span>(fr: Subtree<S>, ts: Seq<TokenTree<S>>, a: int, b: int) -> bool {
    if b == a + 1 && ts[a] is Subtree {
        subtree_view(fr) == tree_view(ts[a])
    } else {
        is_wrapped(fr, ts, a, b)
    }
}

/// `fr` is the trees `a..b` of `ts` inside an invisible delimiter whose spans
/// point nowhere.
pub open spec fn is_wrapped<S: Span>(fr: Subtree<S>, ts: Seq<TokenTree<S>>, a: int, b: int) -> bool {
    &&& fr.delimiter == Delimiter {
        open: S::spec_dummy(),
        close: S::spec_dummy(),
        kind: DelimiterKind::Invisible,
    }
    &&& trees_view(fr.token_trees@) == trees_view(ts.subrange(a, b))
}

fn copy_range<S: Copy>(ts: &Vec<TokenTree<S>>, a: usize, b: usize) -> (r: Vec<TokenTree<S>>)
    requires
        a <= b <= ts@.len(),
    ensures
        trees_view(r@) == trees_view(ts@.subrange(a as int, b as int)),
{
    let mut out: Vec<TokenTree<S>> = Vec::new();
    let mut i: usize = a;
    proof {
        assert(ts@.subrange(a as int, a as int) =~= Seq::<TokenTree<S>>::empty());
    }
    while i < b
        invariant
            a <= i <= b,
            b <= ts@.len(),
            trees_view(out@) == trees_view(ts@.subrange(a as int, i as int)),
        decreases b - i,
    {
        let ghost before = out@;
        let c = copy_tree(&ts[i]);
        out.push(c);
        proof {
            lemma_trees_view_push(before, c);
            lemma_trees_view_push(ts@.subrange(a as int, i as int), ts@[i as int]);
            assert(ts@.subrange(a as int, i + 1) =~= ts@.subrange(a as int, i as int).push(
                ts@[i as int],
            ));
        }
        i += 1;
    }
    out
}

fn wrap<S: Span>(ts: &Vec<TokenTree<S>>, a: usize, b: usize) -> (r: Subtree<S>)
    requires
        a <= b <= ts@.len(),
    ensures
        is_wrapped(r, ts@, a as int, b as int),
{
    let d = S::dummy();
    Subtree {
        delimiter: Delimiter { open: d, close: d, kind: DelimiterKind::Invisible },
        token_trees: copy_range(ts, a, b),
    }
}

fn fragment<S: Span>(ts: &Vec<TokenTree<S>>, a: usize, b: usize) -> (r: Subtree<S>)
    requires
        a < b <= ts@.len(),
    ensures
        is_fragment(r, ts@, a as int, b as int),
{
    if b == a + 1 {
        if let TokenTree::Subtree(st) = &ts[a] {
            let c = copy_tree(&ts[a]);
            return match c {
                TokenTree::Subtree(s) => s,
                TokenTree::Leaf(_) => {
                    proof {
                        assert(false);
                    }
                    wrap(ts, a, b)
                },
            };
        }
    }
    wrap(ts, a, b)
}

/// Splits the trees of `tt` into expression fragments separated by `sep`.
///
/// `parse_expr(trees, p)` is the expression parser: how many trees from
/// position `p` on one expression takes, `0` when none parses. Fragments are
/// taken while trees remain, each followed by one separator; whatever is left
/// when no separator follows, or when no expression parses, is kept as one
/// last fragment in an unspecified delimiter rather than dropped.
pub fn parse_exprs_with_sep<S: Span, F: Fn(&Vec<TokenTree<S>>, usize) -> usize>(
    tt: &Subtree<S>,
    sep: char,
    parse_expr: F,
) -> (r: Vec<Subtree<S>>)
    requires
        forall|p: usize| #[trigger] parse_expr.requires((&tt.token_trees, p)),
        deterministic(parse_expr, &tt.token_trees),
    ensures
        ({
            let ts = tt.token_trees@;
            let (ranges, end) = split_from(&tt.token_trees, sep, parse_expr, 0);
            &&& r@.len() == ranges.len() + (if end < ts.len() {
                1int
            } else {
                0int
            })
            &&& forall|i: int|
                0 <= i < ranges.len() ==> is_fragment(
                    #[trigger] r@[i],
                    ts,
                    ranges[i].0,
                    ranges[i].1,
                )
            &&& end < ts.len() ==> is_wrapped(r@.last(), ts, end, ts.len() as int)
        }),
{
    let ts = &tt.token_trees;
    let len = ts.len();
    let mut res: Vec<Subtree<S>> = Vec::new();
    let ghost whole = split_from(ts, sep, parse_expr, 0);
    let ghost ranges: Seq<(int, int)> = seq![];
    let mut pos: usize = 0;
    let mut go = true;
    proof {
        assert(ranges + split_from(ts, sep, parse_expr, 0).0 =~= whole.0);
    }
    while go && pos < len
        invariant
            len == ts@.len(),
            pos <= len,
            forall|p: usize| #[trigger] parse_expr.requires((ts, p)),
            deterministic(parse_expr, ts),
            go ==> whole.0 == ranges + split_from(ts, sep, parse_expr, pos as int).0,
            go ==> whole.1 == split_from(ts, sep, parse_expr, pos as int).1,
            !go ==> whole.0 == ranges && whole.1 == pos,
            res@.len() == ranges.len(),
            forall|i: int|
                0 <= i < ranges.len() ==> 0 <= #[trigger] ranges[i].0 < ranges[i].1 <= len,
            forall|i: int|
                0 <= i < ranges.len() ==> is_fragment(
                    #[trigger] res@[i],
                    ts@,
                    ranges[i].0,
                    ranges[i].1,
                ),
        decreases len - pos, (if go { 1int } else { 0int }),
    {
        let answer = parse_expr(ts, pos);
        proof {
            assert(parser_answer(parse_expr, ts, pos as int) == answer as int);
        }
        let n = if answer > len - pos { len - pos } else { answer };
        if n == 0 {
            go = false;
        } else {
            let q = pos + n;
            let fr = fragment(ts, pos, q);
            let ghost old_res = res@;
            res.push(fr);
            let ghost old_ranges = ranges;
            proof {
                ranges = ranges.push((pos as int, q as int));
                assert(res@[res@.len() - 1] == fr);
                assert(ranges[ranges.len() - 1] == (pos as int, q as int));
                assert(forall|i: int|
                    0 <= i < old_ranges.len() ==> res@[i] == old_res[i] && ranges[i]
                        == old_ranges[i]);
            }
            let sep_follows = q < len && match &ts[q] {
                TokenTree::Leaf(Leaf::Punct(p)) => p.char == sep,
                _ => false,
            };
            if sep_follows {
                proof {
                    assert(ranges =~= old_ranges + seq![(pos as int, q as int)]);
                    assert(whole.0 =~= ranges + split_from(ts, sep, parse_expr, q + 1).0);
                }
                pos = q + 1;
            } else {
                proof {
                    assert(whole.0 =~= ranges);
                }
                pos = q;
                go = false;
            }
        }
    }
    if go {
        proof {
            assert(whole.0 =~= ranges);
        }
    }
    if pos < len {
        res.push(wrap(ts, pos, len));
    }
    res
}

/// Splitting loses no tree: from position `p`, the fragments follow one
/// another in order with exactly one separator between neighbours, and parsing
/// stops at the end of the last fragment or just after a separator that
/// follows it; whatever lies beyond is the last, catch-all fragment.
pub proof fn lemma_split_covers<S, F: Fn(&Vec<TokenTree<S>>, usize) -> usize>(
    ts: &Vec<TokenTree<S>>,
    sep: char,
    f: F,
    p: int,
)
    requires
        0 <= p <= ts@.len(),
    ensures
        ({
            let (rs, e) = split_from(ts, sep, f, p);
            &&& p <= e <= ts@.len()
            &&& rs.len() == 0 ==> e == p
            &&& rs.len() > 0 ==> rs[0].0 == p
            &&& forall|i: int| 0 <= i < rs.len() ==> p <= #[trigger] rs[i].0 < rs[i].1 <= e
            &&& forall|i: int|
                0 <= i < rs.len() - 1 ==> is_sep(ts@[#[trigger] rs[i].1], sep) && rs[i + 1].0
                    == rs[i].1 + 1
            &&& rs.len() > 0 ==> (e == rs.last().1 || (e == rs.last().1 + 1 && is_sep(
                ts@[rs.last().1],
                sep,
            )))
        }),
    decreases ts@.len() - p,
{
    if p < ts@.len() {
        let a = parser_answer(f, ts, p);
        let n = if a > ts@.len() - p {
            ts@.len() - p
        } else {
            a
        };
        if n > 0 {
            let q = p + n;
            if q < ts@.len() && is_sep(ts@[q], sep) {
                lemma_split_covers(ts, sep, f, q + 1);
                let (rest, e) = split_from(ts, sep, f, q + 1);
                let rs = seq![(p, q)] + rest;
                assert(split_from(ts, sep, f, p) == (rs, e));
                assert(forall|i: int| 0 < i < rs.len() ==> rs[i] == rest[i - 1]);
                if rest.len() > 0 {
                    assert(rs.last() == rest.last());
                }
            }
        }
    }
}

} // verus!
