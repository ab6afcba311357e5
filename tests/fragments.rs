use tt_bridge::buffer::copy_subtree;
use tt_bridge::fragments::parse_exprs_with_sep;
use tt_bridge::tt::{
    Delimiter, DelimiterKind, Leaf, Literal, Punct, Spacing, SpanData, Subtree, SyntaxContextId,
    TextRange, TokenTree,
};

type Sp = SpanData<u32, SyntaxContextId>;

fn sp(start: u32) -> Sp {
    SpanData { range: TextRange { start, end: start + 1 }, anchor: 0, ctx: SyntaxContextId(0) }
}

fn lit(t: &str, s: u32) -> TokenTree<Sp> {
    TokenTree::Leaf(Leaf::Literal(Literal { text: t.to_string(), span: sp(s) }))
}

fn punct(c: char, s: u32) -> TokenTree<Sp> {
    TokenTree::Leaf(Leaf::Punct(Punct { char: c, spacing: Spacing::Alone, span: sp(s) }))
}

fn group(token_trees: Vec<TokenTree<Sp>>) -> Subtree<Sp> {
    Subtree {
        delimiter: Delimiter { open: sp(100), close: sp(200), kind: DelimiterKind::Invisible },
        token_trees,
    }
}

/// A toy expression parser: an expression runs up to the next `,` and cannot
/// start with a delimiter character.
fn toy_expr(ts: &Vec<TokenTree<Sp>>, p: usize) -> usize {
    let mut n = 0;
    while p + n < ts.len() {
        match &ts[p + n] {
            TokenTree::Leaf(Leaf::Punct(q)) if q.char == ',' => break,
            TokenTree::Leaf(Leaf::Punct(q)) if n == 0 && "()".contains(q.char) => return 0,
            _ => n += 1,
        }
    }
    n
}

fn texts(st: &Subtree<Sp>) -> Vec<String> {
    st.token_trees
        .iter()
        .map(|t| match t {
            TokenTree::Leaf(Leaf::Literal(l)) => l.text.clone(),
            TokenTree::Leaf(Leaf::Punct(p)) => p.char.to_string(),
            TokenTree::Leaf(Leaf::Ident(i)) => i.text.clone(),
            TokenTree::Subtree(_) => "<group>".to_string(),
        })
        .collect()
}

#[test]
fn splits_on_separator() {
    let tt = group(vec![
        lit("1", 0),
        punct('+', 2),
        lit("1", 4),
        punct(',', 5),
        lit("2", 7),
        punct(',', 8),
        lit("3", 10),
    ]);
    let r = parse_exprs_with_sep(&tt, ',', toy_expr);
    assert_eq!(r.len(), 3);
    assert_eq!(texts(&r[0]), vec!["1", "+", "1"]);
    assert_eq!(texts(&r[1]), vec!["2"]);
    assert_eq!(texts(&r[2]), vec!["3"]);
    let nowhere = SpanData { range: TextRange { start: 0, end: 0 }, anchor: u32::MAX, ctx: SyntaxContextId(0) };
    for f in &r {
        assert_eq!(f.delimiter, Delimiter { open: nowhere, close: nowhere, kind: DelimiterKind::Invisible });
    }
}

#[test]
fn trailing_separator_adds_nothing() {
    let tt = group(vec![lit("1", 0), punct(',', 1)]);
    let r = parse_exprs_with_sep(&tt, ',', toy_expr);
    assert_eq!(r.len(), 1);
    assert_eq!(texts(&r[0]), vec!["1"]);
}

#[test]
fn malformed_rest_is_kept() {
    let tt = group(vec![lit("1", 0), punct(',', 1), punct(')', 3), punct('(', 4)]);
    let r = parse_exprs_with_sep(&tt, ',', toy_expr);
    assert_eq!(r.len(), 2);
    assert_eq!(texts(&r[0]), vec!["1"]);
    assert_eq!(texts(&r[1]), vec![")", "("]);
    assert_eq!(r[1].delimiter.kind, DelimiterKind::Invisible);
}

#[test]
fn empty_input_gives_no_fragments() {
    let tt = group(vec![]);
    assert!(parse_exprs_with_sep(&tt, ',', toy_expr).is_empty());
}

#[test]
fn lone_group_is_its_own_fragment() {
    let inner = Subtree {
        delimiter: Delimiter { open: sp(0), close: sp(2), kind: DelimiterKind::Parenthesis },
        token_trees: vec![lit("7", 1)],
    };
    let tt = group(vec![TokenTree::Subtree(copy_subtree(&inner)), punct(';', 3), lit("8", 4)]);
    let r = parse_exprs_with_sep(&tt, ';', |ts: &Vec<TokenTree<Sp>>, p: usize| if p < ts.len() { 1 } else { 0 });
    assert_eq!(r.len(), 2);
    assert_eq!(r[0], inner);
    assert_eq!(texts(&r[1]), vec!["8"]);
}

#[test]
fn missing_separator_keeps_the_rest_whole() {
    let tt = group(vec![lit("1", 0), lit("2", 2), lit("3", 4)]);
    let r = parse_exprs_with_sep(&tt, ',', |_: &Vec<TokenTree<Sp>>, _: usize| 1);
    assert_eq!(r.len(), 2);
    assert_eq!(texts(&r[0]), vec!["1"]);
    assert_eq!(texts(&r[1]), vec!["2", "3"]);
}
