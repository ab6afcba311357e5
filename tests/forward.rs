use tt_bridge::span_map::SpanMap;
use tt_bridge::syntax_kind::SyntaxKind;
use tt_bridge::to_tt::{
    map_from_syntax_node, parse_to_token_tree, syntax_node_to_token_tree,
    syntax_node_to_token_tree_censored, LexedStr, SrcToken,
};
use tt_bridge::tt::{
    Delimiter, DelimiterKind, Ident, Leaf, Literal, Punct, Spacing, SpanData, Subtree,
    SyntaxContextId, TextRange, TokenTree,
};

type Sp = SpanData<u32, SyntaxContextId>;

fn tok(kind: SyntaxKind, text: &str, start: u32) -> SrcToken {
    SrcToken { kind, text: text.to_string(), range: TextRange { start, end: start + text.len() as u32 } }
}

fn sp(start: u32, end: u32) -> Sp {
    SpanData { range: TextRange { start, end }, anchor: 0, ctx: SyntaxContextId(0) }
}

fn lex(tokens: Vec<SrcToken>) -> LexedStr {
    LexedStr { tokens, errors: vec![] }
}

fn ident(t: &str, s: Sp) -> TokenTree<Sp> {
    TokenTree::Leaf(Leaf::Ident(Ident { text: t.to_string(), span: s }))
}

fn lit(t: &str, s: Sp) -> TokenTree<Sp> {
    TokenTree::Leaf(Leaf::Literal(Literal { text: t.to_string(), span: s }))
}

fn punct(c: char, spacing: Spacing, s: Sp) -> TokenTree<Sp> {
    TokenTree::Leaf(Leaf::Punct(Punct { char: c, spacing, span: s }))
}

fn convert(tokens: Vec<SrcToken>) -> Subtree<Sp> {
    parse_to_token_tree::<u32, SyntaxContextId>(&lex(tokens), 0).expect("no lexical errors")
}

#[test]
fn joint_spacing_between_operators() {
    let t = convert(vec![
        tok(SyntaxKind::Ident, "a", 0),
        tok(SyntaxKind::Punct, "+", 1),
        tok(SyntaxKind::Punct, "-", 2),
        tok(SyntaxKind::Ident, "b", 3),
    ]);
    assert_eq!(t.delimiter.kind, DelimiterKind::Invisible);
    assert_eq!(
        t.token_trees,
        vec![
            ident("a", sp(0, 1)),
            punct('+', Spacing::Joint, sp(1, 2)),
            punct('-', Spacing::Alone, sp(2, 3)),
            ident("b", sp(3, 4)),
        ]
    );
}

#[test]
fn lifetime_splits_into_quote_and_name() {
    let t = convert(vec![tok(SyntaxKind::LifetimeIdent, "'a", 0)]);
    assert_eq!(
        t.token_trees,
        vec![punct('\'', Spacing::Joint, sp(0, 1)), ident("a", sp(1, 2))]
    );
}

#[test]
fn outer_doc_comment_desugars_to_attribute() {
    let t = convert(vec![tok(SyntaxKind::Comment, "/// hi", 0)]);
    let s = sp(0, 6);
    assert_eq!(
        t.token_trees,
        vec![
            punct('#', Spacing::Alone, s),
            TokenTree::Subtree(Subtree {
                delimiter: Delimiter { open: s, close: s, kind: DelimiterKind::Bracket },
                token_trees: vec![
                    ident("doc", s),
                    punct('=', Spacing::Alone, s),
                    lit("\" hi\"", s),
                ],
            }),
        ]
    );
}

#[test]
fn inner_doc_comment_desugars_to_inner_attribute() {
    let t = convert(vec![tok(SyntaxKind::Comment, "//! hi", 0)]);
    assert_eq!(t.token_trees.len(), 3);
    assert_eq!(t.token_trees[1], punct('!', Spacing::Alone, sp(0, 6)));
}

#[test]
fn plain_comments_and_whitespace_vanish() {
    let t = convert(vec![
        tok(SyntaxKind::Comment, "// note", 0),
        tok(SyntaxKind::Whitespace, " ", 7),
        tok(SyntaxKind::Comment, "//// rule", 8),
        tok(SyntaxKind::Comment, "/**/", 17),
    ]);
    assert!(t.token_trees.is_empty());
}

#[test]
fn block_doc_comment_loses_its_terminator() {
    let t = convert(vec![tok(SyntaxKind::Comment, "/** x */", 0)]);
    match &t.token_trees[1] {
        TokenTree::Subtree(st) => assert_eq!(st.token_trees[2], lit("\" x \"", sp(0, 8))),
        other => panic!("expected the attribute's brackets, got {other:?}"),
    }
}

#[test]
fn doc_text_is_escaped() {
    let t = convert(vec![tok(SyntaxKind::Comment, "/// say \"x\"", 0)]);
    match &t.token_trees[1] {
        TokenTree::Subtree(st) => {
            assert_eq!(st.token_trees[2], lit("\" say \\\"x\\\"\"", sp(0, 11)))
        }
        other => panic!("expected the attribute's brackets, got {other:?}"),
    }
}

#[test]
fn single_group_is_returned_directly() {
    let t = convert(vec![
        tok(SyntaxKind::Punct, "(", 0),
        tok(SyntaxKind::Ident, "x", 1),
        tok(SyntaxKind::Punct, ")", 2),
    ]);
    assert_eq!(t.delimiter, Delimiter { open: sp(0, 1), close: sp(2, 3), kind: DelimiterKind::Parenthesis });
    assert_eq!(t.token_trees, vec![ident("x", sp(1, 2))]);
}

#[test]
fn nested_groups() {
    let t = convert(vec![
        tok(SyntaxKind::Ident, "f", 0),
        tok(SyntaxKind::Punct, "(", 1),
        tok(SyntaxKind::Punct, "[", 2),
        tok(SyntaxKind::IntNumber, "1", 3),
        tok(SyntaxKind::Punct, "]", 4),
        tok(SyntaxKind::Punct, ")", 5),
    ]);
    assert_eq!(t.delimiter.kind, DelimiterKind::Invisible);
    assert_eq!(t.token_trees.len(), 2);
    match &t.token_trees[1] {
        TokenTree::Subtree(paren) => {
            assert_eq!(paren.delimiter.kind, DelimiterKind::Parenthesis);
            assert_eq!(paren.delimiter.close, sp(5, 6));
            match &paren.token_trees[0] {
                TokenTree::Subtree(br) => {
                    assert_eq!(br.delimiter.kind, DelimiterKind::Bracket);
                    assert_eq!(br.token_trees, vec![lit("1", sp(3, 4))]);
                }
                other => panic!("expected brackets, got {other:?}"),
            }
        }
        other => panic!("expected parentheses, got {other:?}"),
    }
}

#[test]
fn unclosed_delimiter_becomes_punct() {
    let t = convert(vec![
        tok(SyntaxKind::Ident, "a", 0),
        tok(SyntaxKind::Punct, "(", 1),
        tok(SyntaxKind::Ident, "b", 2),
    ]);
    assert_eq!(t.delimiter.kind, DelimiterKind::Invisible);
    assert_eq!(
        t.token_trees,
        vec![ident("a", sp(0, 1)), punct('(', Spacing::Alone, sp(1, 2)), ident("b", sp(2, 3))]
    );
}

#[test]
fn stray_closer_stays_a_punct() {
    let t = convert(vec![tok(SyntaxKind::Punct, ")", 0), tok(SyntaxKind::Ident, "a", 1)]);
    assert_eq!(t.token_trees, vec![punct(')', Spacing::Alone, sp(0, 1)), ident("a", sp(1, 2))]);
}

#[test]
fn mismatched_closer_inside_group() {
    let t = convert(vec![
        tok(SyntaxKind::Punct, "(", 0),
        tok(SyntaxKind::Punct, "]", 1),
        tok(SyntaxKind::Punct, ")", 2),
    ]);
    assert_eq!(t.delimiter.kind, DelimiterKind::Parenthesis);
    assert_eq!(t.token_trees, vec![punct(']', Spacing::Alone, sp(1, 2))]);
}

#[test]
fn empty_input_gives_empty_root() {
    let t = convert(vec![]);
    assert_eq!(t.delimiter.kind, DelimiterKind::Invisible);
    assert_eq!(t.delimiter.open, sp(0, 0));
    assert_eq!(t.delimiter.close, sp(0, 0));
    assert!(t.token_trees.is_empty());
}

#[test]
fn lexical_errors_give_nothing() {
    let lexed = LexedStr {
        tokens: vec![tok(SyntaxKind::Error, "\"", 0)],
        errors: vec!["unterminated string".to_string()],
    };
    assert!(parse_to_token_tree::<u32, SyntaxContextId>(&lexed, 0).is_none());
}

#[test]
fn syntax_tree_punct_is_split_per_character() {
    let map: SpanMap<Sp> = SpanMap::new();
    let tokens = vec![
        tok(SyntaxKind::Ident, "a", 10),
        tok(SyntaxKind::Punct, "+=", 11),
        tok(SyntaxKind::IntNumber, "1", 13),
    ];
    let t = syntax_node_to_token_tree(&tokens, 0u32, 10, &map);
    assert_eq!(
        t.token_trees,
        vec![
            ident("a", sp(0, 1)),
            punct('+', Spacing::Joint, sp(1, 2)),
            punct('=', Spacing::Alone, sp(2, 3)),
            lit("1", sp(3, 4)),
        ]
    );
}

#[test]
fn recorded_spans_take_precedence() {
    let mut map: SpanMap<Sp> = SpanMap::new();
    let hyg = SpanData { range: TextRange { start: 40, end: 41 }, anchor: 7, ctx: SyntaxContextId(3) };
    map.insert(TextRange { start: 5, end: 6 }, hyg);
    let tokens = vec![tok(SyntaxKind::Ident, "x", 5), tok(SyntaxKind::Ident, "y", 6)];
    let t = syntax_node_to_token_tree(&tokens, 0u32, 5, &map);
    assert_eq!(t.token_trees, vec![ident("x", hyg), ident("y", sp(1, 2))]);
}

#[test]
fn censored_nodes_are_left_out() {
    let map: SpanMap<Sp> = SpanMap::new();
    let tokens = vec![
        tok(SyntaxKind::Ident, "a", 0),
        tok(SyntaxKind::Ident, "hidden", 1),
        tok(SyntaxKind::Ident, "b", 7),
    ];
    let t = syntax_node_to_token_tree_censored(
        &tokens,
        0u32,
        0,
        &map,
        vec![TextRange { start: 1, end: 7 }],
    );
    assert_eq!(t.token_trees, vec![ident("a", sp(0, 1)), ident("b", sp(7, 8))]);
}

#[test]
fn map_covers_every_token() {
    let tokens = vec![tok(SyntaxKind::Ident, "ab", 4), tok(SyntaxKind::Whitespace, " ", 6)];
    let m = map_from_syntax_node::<u32, SyntaxContextId>(&tokens, 9, 4);
    assert_eq!(m.len(), 2);
    let s = m.span_for_range(&TextRange { start: 6, end: 7 }).unwrap();
    assert_eq!(s, SpanData { range: TextRange { start: 2, end: 3 }, anchor: 9, ctx: SyntaxContextId(0) });
    assert!(m.span_for_range(&TextRange { start: 0, end: 1 }).is_none());
}

#[test]
fn mismatched_closer_inside_unclosed_bracket() {
    let t = convert(vec![
        tok(SyntaxKind::Punct, "[", 0),
        tok(SyntaxKind::Punct, "(", 1),
        tok(SyntaxKind::Punct, "]", 2),
        tok(SyntaxKind::Punct, ")", 3),
    ]);
    assert_eq!(t.delimiter.kind, DelimiterKind::Invisible);
    assert_eq!(
        t.token_trees,
        vec![
            punct('[', Spacing::Alone, sp(0, 1)),
            TokenTree::Subtree(Subtree {
                delimiter: Delimiter { open: sp(1, 2), close: sp(3, 4), kind: DelimiterKind::Parenthesis },
                token_trees: vec![punct(']', Spacing::Alone, sp(2, 3))],
            }),
        ]
    );
}

#[test]
fn nested_unclosed_groups_flatten_in_order() {
    let t = convert(vec![
        tok(SyntaxKind::Ident, "a", 0),
        tok(SyntaxKind::Punct, "{", 1),
        tok(SyntaxKind::Ident, "b", 2),
        tok(SyntaxKind::Punct, "(", 3),
        tok(SyntaxKind::Punct, "+", 4),
    ]);
    assert_eq!(
        t.token_trees,
        vec![
            ident("a", sp(0, 1)),
            punct('{', Spacing::Alone, sp(1, 2)),
            ident("b", sp(2, 3)),
            punct('(', Spacing::Alone, sp(3, 4)),
            punct('+', Spacing::Alone, sp(4, 5)),
        ]
    );
}

#[test]
fn stray_closer_before_operator_is_joint() {
    let t = convert(vec![tok(SyntaxKind::Punct, ")", 0), tok(SyntaxKind::Punct, ";", 1)]);
    assert_eq!(
        t.token_trees,
        vec![punct(')', Spacing::Joint, sp(0, 1)), punct(';', Spacing::Alone, sp(1, 2))]
    );
}

#[test]
fn unterminated_block_doc_comment_keeps_its_text() {
    let t = convert(vec![tok(SyntaxKind::Comment, "/** abc", 0)]);
    match &t.token_trees[1] {
        TokenTree::Subtree(st) => assert_eq!(st.token_trees[2], lit("\" abc\"", sp(0, 7))),
        other => panic!("expected the attribute's brackets, got {other:?}"),
    }
}
