use tt_bridge::syntax_kind::SyntaxKind;
use tt_bridge::to_tt::{parse_to_token_tree, LexedStr, SrcToken};
use tt_bridge::tree_sink::{delim_to_str, token_tree_to_syntax_node, Step, TreeEvent};
use tt_bridge::tt::{
    Delimiter, DelimiterKind, Ident, Leaf, Literal, Punct, Spacing, SpanData, Subtree,
    SyntaxContextId, TextRange, TokenTree,
};

type Sp = SpanData<u32, SyntaxContextId>;

fn sp(start: u32, end: u32) -> Sp {
    SpanData { range: TextRange { start, end }, anchor: 0, ctx: SyntaxContextId(0) }
}

fn ident(t: &str, s: Sp) -> TokenTree<Sp> {
    TokenTree::Leaf(Leaf::Ident(Ident { text: t.to_string(), span: s }))
}

fn lit(t: &str, s: Sp) -> TokenTree<Sp> {
    TokenTree::Leaf(Leaf::Literal(Literal { text: t.to_string(), span: s }))
}

fn punct(c: char, spacing: Spacing, s: Sp) -> TokenTree<Sp> {
    TokenTree::Leaf(Leaf::Punct(Punct { char: c, spacing, span: s }))
}

fn root(token_trees: Vec<TokenTree<Sp>>) -> Subtree<Sp> {
    Subtree {
        delimiter: Delimiter { open: sp(0, 0), close: sp(0, 0), kind: DelimiterKind::Invisible },
        token_trees,
    }
}

fn tokens_of(events: &[TreeEvent]) -> Vec<(SyntaxKind, String)> {
    events
        .iter()
        .filter_map(|e| match e {
            TreeEvent::Token(k, t) => Some((*k, t.clone())),
            _ => None,
        })
        .collect()
}

fn text_of(events: &[TreeEvent]) -> String {
    tokens_of(events).into_iter().map(|(_, t)| t).collect()
}

fn tok(kind: SyntaxKind, text: &str, start: u32) -> SrcToken {
    SrcToken { kind, text: text.to_string(), range: TextRange { start, end: start + text.len() as u32 } }
}

fn one(kind: SyntaxKind) -> Step {
    Step::Token { kind, n_input_tokens: 1 }
}

#[test]
fn lifetime_pair_rejoins() {
    let tt = root(vec![punct('\'', Spacing::Joint, sp(0, 1)), ident("a", sp(1, 2))]);
    let (events, map) = token_tree_to_syntax_node(&tt, &vec![one(SyntaxKind::LifetimeIdent)]);
    assert_eq!(events, vec![TreeEvent::Token(SyntaxKind::LifetimeIdent, "'a".to_string())]);
    assert_eq!(map.len(), 2);
    assert_eq!(map.entry(0), (TextRange { start: 0, end: 1 }, sp(0, 1)));
    assert_eq!(map.entry(1), (TextRange { start: 1, end: 2 }, sp(1, 2)));
}

#[test]
fn lifetime_round_trip() {
    let lexed = LexedStr { tokens: vec![tok(SyntaxKind::LifetimeIdent, "'a", 0)], errors: vec![] };
    let tt = parse_to_token_tree::<u32, SyntaxContextId>(&lexed, 0).unwrap();
    let (events, _) = token_tree_to_syntax_node(&tt, &vec![one(SyntaxKind::LifetimeIdent)]);
    assert_eq!(tokens_of(&events), vec![(SyntaxKind::LifetimeIdent, "'a".to_string())]);
}

#[test]
fn alone_punct_before_punct_gets_a_space() {
    let tt = root(vec![punct('+', Spacing::Alone, sp(0, 1)), punct('-', Spacing::Alone, sp(2, 3))]);
    let steps = vec![one(SyntaxKind::Punct), one(SyntaxKind::Punct)];
    let (events, map) = token_tree_to_syntax_node(&tt, &steps);
    assert_eq!(
        tokens_of(&events),
        vec![
            (SyntaxKind::Punct, "+".to_string()),
            (SyntaxKind::Whitespace, " ".to_string()),
            (SyntaxKind::Punct, "-".to_string()),
        ]
    );
    assert_eq!(map.entry(1), (TextRange { start: 2, end: 3 }, sp(2, 3)));
}

#[test]
fn joint_punct_gets_no_space() {
    let tt = root(vec![punct('+', Spacing::Joint, sp(0, 1)), punct('=', Spacing::Alone, sp(1, 2))]);
    let steps = vec![Step::Token { kind: SyntaxKind::Other(7), n_input_tokens: 2 }];
    let (events, _) = token_tree_to_syntax_node(&tt, &steps);
    assert_eq!(events, vec![TreeEvent::Token(SyntaxKind::Other(7), "+=".to_string())]);
}

#[test]
fn semicolon_gets_no_space() {
    let tt = root(vec![punct(';', Spacing::Alone, sp(0, 1)), punct('#', Spacing::Alone, sp(1, 2))]);
    let steps = vec![one(SyntaxKind::Punct), one(SyntaxKind::Punct)];
    let (events, _) = token_tree_to_syntax_node(&tt, &steps);
    assert_eq!(text_of(&events), ";#");
}

#[test]
fn spacing_round_trip() {
    let lexed = LexedStr {
        tokens: vec![
            tok(SyntaxKind::Ident, "a", 0),
            tok(SyntaxKind::Punct, "+", 1),
            tok(SyntaxKind::Punct, "-", 2),
            tok(SyntaxKind::Ident, "b", 3),
        ],
        errors: vec![],
    };
    let tt = parse_to_token_tree::<u32, SyntaxContextId>(&lexed, 0).unwrap();
    let steps = vec![
        one(SyntaxKind::Ident),
        one(SyntaxKind::Punct),
        one(SyntaxKind::Punct),
        one(SyntaxKind::Ident),
    ];
    let (events, _) = token_tree_to_syntax_node(&tt, &steps);
    assert_eq!(text_of(&events), "a+-b");
}

#[test]
fn delimiters_are_written_out() {
    let tt = Subtree {
        delimiter: Delimiter { open: sp(0, 1), close: sp(3, 4), kind: DelimiterKind::Brace },
        token_trees: vec![ident("x", sp(1, 2)), punct(',', Spacing::Alone, sp(2, 3))],
    };
    let steps = vec![
        Step::Enter { kind: SyntaxKind::Other(1) },
        one(SyntaxKind::Punct),
        one(SyntaxKind::Ident),
        one(SyntaxKind::Punct),
        one(SyntaxKind::Punct),
        Step::Exit,
    ];
    let (events, map) = token_tree_to_syntax_node(&tt, &steps);
    assert_eq!(text_of(&events), "{x,}");
    assert_eq!(events[0], TreeEvent::Start(SyntaxKind::Other(1)));
    assert_eq!(events[events.len() - 1], TreeEvent::Finish);
    assert_eq!(map.entry(3), (TextRange { start: 3, end: 4 }, sp(3, 4)));
}

#[test]
fn delimiter_text() {
    assert_eq!(delim_to_str(DelimiterKind::Parenthesis, false).as_deref(), Some("("));
    assert_eq!(delim_to_str(DelimiterKind::Brace, true).as_deref(), Some("}"));
    assert_eq!(delim_to_str(DelimiterKind::Bracket, true).as_deref(), Some("]"));
    assert_eq!(delim_to_str(DelimiterKind::Invisible, false), None);
}

#[test]
fn float_literal_splits_into_field_names() {
    let tt = root(vec![
        ident("a", sp(0, 1)),
        punct('.', Spacing::Alone, sp(1, 2)),
        lit("0.1", sp(2, 5)),
    ]);
    let steps = vec![
        Step::Enter { kind: SyntaxKind::Other(30) },
        Step::Enter { kind: SyntaxKind::Other(30) },
        one(SyntaxKind::Ident),
        one(SyntaxKind::Punct),
        Step::FloatSplit { ends_in_dot: false },
    ];
    let (events, _) = token_tree_to_syntax_node(&tt, &steps);
    assert_eq!(
        events[4..].to_vec(),
        vec![
            TreeEvent::Start(SyntaxKind::NameRef),
            TreeEvent::Token(SyntaxKind::IntNumber, "0".to_string()),
            TreeEvent::Finish,
            TreeEvent::Finish,
            TreeEvent::Token(SyntaxKind::Punct, ".".to_string()),
            TreeEvent::Start(SyntaxKind::NameRef),
            TreeEvent::Token(SyntaxKind::IntNumber, "1".to_string()),
            TreeEvent::Finish,
            TreeEvent::Finish,
        ]
    );
    assert!(!tokens_of(&events).iter().any(|(k, _)| *k == SyntaxKind::FloatNumber));
}

#[test]
fn float_literal_ending_in_dot() {
    let tt = root(vec![lit("0.", sp(0, 2))]);
    let (events, _) = token_tree_to_syntax_node(&tt, &vec![Step::FloatSplit { ends_in_dot: true }]);
    assert_eq!(
        events,
        vec![
            TreeEvent::Start(SyntaxKind::NameRef),
            TreeEvent::Token(SyntaxKind::IntNumber, "0".to_string()),
            TreeEvent::Finish,
            TreeEvent::Finish,
            TreeEvent::Token(SyntaxKind::Punct, ".".to_string()),
        ]
    );
}

#[test]
fn errors_are_recorded_at_the_text_position() {
    let tt = root(vec![ident("ab", sp(0, 2))]);
    let steps = vec![one(SyntaxKind::Ident), Step::Error { msg: "expected `;`".to_string() }];
    let (events, _) = token_tree_to_syntax_node(&tt, &steps);
    assert_eq!(events[1], TreeEvent::Error("expected `;`".to_string(), 2));
}

#[test]
fn consuming_past_the_end_stops() {
    let tt = root(vec![ident("x", sp(0, 1))]);
    let (events, map) = token_tree_to_syntax_node(&tt, &vec![Step::Token { kind: SyntaxKind::Ident, n_input_tokens: 5 }]);
    assert_eq!(events, vec![TreeEvent::Token(SyntaxKind::Ident, "x".to_string())]);
    assert_eq!(map.len(), 1);
}

#[test]
fn float_split_advances_text_position() {
    let tt = root(vec![lit("0.1", sp(0, 3)), punct('+', Spacing::Alone, sp(3, 4))]);
    let steps = vec![
        Step::FloatSplit { ends_in_dot: false },
        one(SyntaxKind::Punct),
        Step::Error { msg: "oops".to_string() },
    ];
    let (events, map) = token_tree_to_syntax_node(&tt, &steps);
    assert_eq!(text_of(&events), "0.1+");
    assert_eq!(map.len(), 4);
    assert_eq!(map.entry(0), (TextRange { start: 0, end: 1 }, sp(0, 3)));
    assert_eq!(map.entry(1), (TextRange { start: 1, end: 2 }, sp(0, 3)));
    assert_eq!(map.entry(2), (TextRange { start: 2, end: 3 }, sp(0, 3)));
    assert_eq!(map.entry(3), (TextRange { start: 3, end: 4 }, sp(3, 4)));
    assert_eq!(events[events.len() - 1], TreeEvent::Error("oops".to_string(), 4));
}
