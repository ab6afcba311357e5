//! Reverse conversion: rebuilding a syntax tree from a token tree and the
//! parser's events over it.
use vstd::prelude::*;
use vstd::utf8::encode_utf8;
use crate::buffer::{BufItem, buf_tree, flatten_subtree, item_span, item_text, items_text};
use crate::span_map::SpanMap;
use crate::syntax_kind::SyntaxKind;
use crate::tt::{DelimiterKind, Leaf, Spacing, Subtree, TextRange, TokenTree};

verus! {

/// One event of the parser's output over a token stream.
#[derive(Clone, Debug, PartialEq, Eq)]
pub enum Step {
    /// Glue the next `n_input_tokens` input tokens into one token of `kind`.
    Token { kind: SyntaxKind, n_input_tokens: u8 },
    /// The next input token is a float literal that stands for a field access
    /// such as `0.1`; `ends_in_dot` when nothing follows its dot.
    FloatSplit { ends_in_dot: bool },
    Enter { kind: SyntaxKind },
    Exit,
    Error { msg: String },
}

/// One event of building a syntax tree.
#[derive(Clone, Debug, PartialEq, Eq)]
pub enum TreeEvent {
    Start(SyntaxKind),
    Token(SyntaxKind, String),
    Finish,
    /// A parse error, at a text offset.
    Error(String, u32),
}

/// A tree-building event, with texts as character sequences.
pub enum EventModel {
    Start(SyntaxKind),
    Token(SyntaxKind, Seq<char>),
    Finish,
    Error(Seq<char>, u32),
}

impl View for TreeEvent {
    type V = EventModel;

    open spec fn view(&self) -> EventModel {
        match self {
            TreeEvent::Start(k) => EventModel::Start(*k),
            TreeEvent::Token(k, t) => EventModel::Token(*k, t@),
            TreeEvent::Finish => EventModel::Finish,
            TreeEvent::Error(m, p) => EventModel::Error(m@, *p),
        }
    }
}

pub open spec fn events_view(es: Seq<TreeEvent>) -> Seq<EventModel> {
    es.map_values(|e: TreeEvent| e@)
}

/// The state of reconstruction: the position in the flat buffer, the length of
/// the text emitted so far, the text gathered for the token being built, the
/// tree events, and the span recorded for each emitted piece of text.
pub struct SinkModel<S> {
    pub cursor: int,
    pub text_pos: u32,
    pub buf: Seq<char>,
    pub events: Seq<EventModel>,
    pub map: Seq<(TextRange, S)>,
}

/// The number of bytes that `t` takes in UTF-8.
pub open spec fn byte_len(t: Seq<char>) -> int {
    encode_utf8(t).len() as usize as int
}

/// `a + b`, held at `u32::MAX`.
pub open spec fn sat_add(a: u32, b: int) -> u32 {
    if a + b > u32::MAX {
        u32::MAX
    } else {
        (a + b) as u32
    }
}

/// Emits the entry under the cursor: its text joins the token being built,
/// and its span is recorded for the range that text takes.
pub open spec fn consume_one<S>(items: Seq<BufItem<S>>, m: SinkModel<S>) -> SinkModel<S> {
    let it = items[m.cursor];
    let t = item_text(it);
    let end = sat_add(m.text_pos, byte_len(t));
    SinkModel {
        cursor: m.cursor + 1,
        text_pos: end,
        buf: m.buf + t,
        events: m.events,
        map: m.map.push((TextRange { start: m.text_pos, end }, item_span(it))),
    }
}

/// Emits up to `k` entries, stopping at the end of the buffer.
pub open spec fn consume<S>(items: Seq<BufItem<S>>, m: SinkModel<S>, k: nat) -> SinkModel<S>
    decreases k,
{
    if k == 0 || m.cursor < 0 || m.cursor >= items.len() {
        m
    } else {
        consume(items, consume_one(items, m), (k - 1) as nat)
    }
}

/// A space goes after the entry at `last`: it and the next entry are both
/// punctuation, the first `Alone` and not `;`, the second not a lifetime's quote.
pub open spec fn spaced<S>(items: Seq<BufItem<S>>, last: int) -> bool {
    0 <= last && last + 1 < items.len() && match (items[last], items[last + 1]) {
        (BufItem::Leaf(Leaf::Punct(p)), BufItem::Leaf(Leaf::Punct(q))) => p.spacing
            == Spacing::Alone && p.char != ';' && q.char != '\'',
        _ => false,
    }
}

/// A token step: a lifetime always takes two entries (its quote and its name).
pub open spec fn token_model<S>(
    items: Seq<BufItem<S>>,
    m: SinkModel<S>,
    kind: SyntaxKind,
    n: nat,
) -> SinkModel<S> {
    let k: nat = if kind == SyntaxKind::LifetimeIdent {
        2
    } else {
        n
    };
    let c = consume(items, m, k);
    let last = if c.cursor > m.cursor {
        c.cursor - 1
    } else {
        m.cursor
    };
    let evs = c.events.push(EventModel::Token(kind, c.buf));
    if spaced(items, last) {
        SinkModel {
            cursor: c.cursor,
            text_pos: sat_add(c.text_pos, 1),
            buf: seq![],
            events: evs.push(EventModel::Token(SyntaxKind::Whitespace, seq![' '])),
            map: c.map,
        }
    } else {
        SinkModel { cursor: c.cursor, text_pos: c.text_pos, buf: seq![], events: evs, map: c.map }
    }
}

/// The index of the first `.` in `t`.
pub open spec fn first_dot(t: Seq<char>, d: int) -> bool {
    0 <= d < t.len() && t[d] == '.' && forall|j: int| 0 <= j < d ==> t[j] != '.'
}

/// A float split is owed a literal under the cursor with a dot after a nonempty
/// integer part, and text after the dot exactly when `ends_in_dot` is false.
pub open spec fn float_ok<S>(items: Seq<BufItem<S>>, cursor: int, ends_in_dot: bool) -> bool {
    0 <= cursor < items.len() && match items[cursor] {
        BufItem::Leaf(Leaf::Literal(l)) => exists|d: int|
            first_dot(l.text@, d) && d > 0 && (ends_in_dot <==> d == l.text@.len() - 1),
        _ => false,
    }
}

/// A float split emits the text of the literal: each part and the dot gets a
/// span-map entry with the literal's span, at the position where it is written.
///
/// The events of a float split: `NAME_REF` of the integer before the dot, the
/// dot, and unless the literal ends in its dot, `NAME_REF` of the integer
/// after it. Each `NAME_REF` also closes the node the parser opened for the
/// literal.
pub open spec fn float_events(t: Seq<char>, d: int, ends_in_dot: bool) -> Seq<EventModel> {
    let head = seq![
        EventModel::Start(SyntaxKind::NameRef),
        EventModel::Token(SyntaxKind::IntNumber, t.subrange(0, d)),
        EventModel::Finish,
        EventModel::Finish,
        EventModel::Token(SyntaxKind::Punct, seq!['.']),
    ];
    if ends_in_dot {
        head
    } else {
        head + seq![
            EventModel::Start(SyntaxKind::NameRef),
            EventModel::Token(SyntaxKind::IntNumber, t.subrange(d + 1, t.len() as int)),
            EventModel::Finish,
            EventModel::Finish,
        ]
    }
}

pub open spec fn float_model<S>(items: Seq<BufItem<S>>, m: SinkModel<S>, ends_in_dot: bool) -> SinkModel<S> {
    match items[m.cursor] {
        BufItem::Leaf(Leaf::Literal(l)) => {
            let t = l.text@;
            let d = choose|d: int| first_dot(t, d);
            let p1 = sat_add(m.text_pos, byte_len(t.subrange(0, d)));
            let p2 = sat_add(p1, 1);
            let p3 = sat_add(p2, byte_len(t.subrange(d + 1, t.len() as int)));
            let head = m.map.push((TextRange { start: m.text_pos, end: p1 }, l.span)).push(
                (TextRange { start: p1, end: p2 }, l.span),
            );
            SinkModel {
                cursor: m.cursor + 1,
                text_pos: if ends_in_dot {
                    p2
                } else {
                    p3
                },
                buf: m.buf,
                events: m.events + float_events(t, d, ends_in_dot),
                map: if ends_in_dot {
                    head
                } else {
                    head.push((TextRange { start: p2, end: p3 }, l.span))
                },
            }
        },
        _ => m,
    }
}

/// The effect of one parser step.
pub open spec fn step_model<S>(items: Seq<BufItem<S>>, m: SinkModel<S>, s: Step) -> SinkModel<S> {
    match s {
        Step::Token { kind, n_input_tokens } => token_model(items, m, kind, n_input_tokens as nat),
        Step::FloatSplit { ends_in_dot } => float_model(items, m, ends_in_dot),
        Step::Enter { kind } => SinkModel { events: m.events.push(EventModel::Start(kind)), ..m },
        Step::Exit => SinkModel { events: m.events.push(EventModel::Finish), ..m },
        Step::Error { msg } => SinkModel {
            events: m.events.push(EventModel::Error(msg@, m.text_pos)),
            ..m
        },
    }
}

/// The state before any step.
pub open spec fn initial_model<S>() -> SinkModel<S> {
    SinkModel { cursor: 0, text_pos: 0, buf: seq![], events: seq![], map: seq![] }
}

/// The state after the first `n` steps.
pub open spec fn run<S>(items: Seq<BufItem<S>>, steps: Seq<Step>, n: int) -> SinkModel<S>
    decreases n,
{
    if n <= 0 {
        initial_model()
    } else {
        step_model(items, run(items, steps, n - 1), steps[n - 1])
    }
}

/// Every float split among the first `n` steps meets a literal it can split.
pub open spec fn steps_ok<S>(items: Seq<BufItem<S>>, steps: Seq<Step>, n: int) -> bool
    decreases n,
{
    n <= 0 || (steps_ok(items, steps, n - 1) && match steps[n - 1] {
        Step::FloatSplit { ends_in_dot } => float_ok(
            items,
            run(items, steps, n - 1).cursor,
            ends_in_dot,
        ),
        _ => true,
    })
}

/// The flat buffer that the parser reads for a token tree.
pub open spec fn input_items<S>(tt: Subtree<S>) -> Seq<BufItem<S>> {
    buf_tree(TokenTree::Subtree(tt))
}

/// Relies on char::to_string: the string of one character.
#[verifier::external_body]
fn char_string(c: char) -> (r: String)
    ensures
        r@ == seq![c],
{
    c.to_string()
}

/// The text of a delimiter: its opening or closing character; `None` for an invisible one.
pub fn delim_to_str(d: DelimiterKind, closing: bool) -> (r: Option<String>)
    ensures
        d == DelimiterKind::Invisible <==> r is None,
        r matches Some(s) ==> s@ == (if closing {
            seq![crate::tt::close_char(d)]
        } else {
            seq![crate::tt::open_char(d)]
        }),
{
    let (open, close) = match d {
        DelimiterKind::Parenthesis => ('(', ')'),
        DelimiterKind::Brace => ('{', '}'),
        DelimiterKind::Bracket => ('[', ']'),
        DelimiterKind::Invisible => return None,
    };
    Some(char_string(if closing { close } else { open }))
}

fn item_string<S: Copy>(it: &BufItem<S>) -> (r: (String, S))
    ensures
        r.0@ == item_text(*it),
        r.1 == item_span(*it),
{
    match it {
        BufItem::Leaf(Leaf::Ident(i)) => (i.text.clone(), i.span),
        BufItem::Leaf(Leaf::Literal(l)) => (l.text.clone(), l.span),
        BufItem::Leaf(Leaf::Punct(p)) => (char_string(p.char), p.span),
        BufItem::Open(k, sp) => {
            let c = match k {
                DelimiterKind::Parenthesis => '(',
                DelimiterKind::Brace => '{',
                DelimiterKind::Bracket => '[',
                DelimiterKind::Invisible => '$',
            };
            (char_string(c), *sp)
        },
        BufItem::Close(k, sp) => {
            let c = match k {
                DelimiterKind::Parenthesis => ')',
                DelimiterKind::Brace => '}',
                DelimiterKind::Bracket => ']',
                DelimiterKind::Invisible => '$',
            };
            (char_string(c), *sp)
        },
    }
}

fn add_sat(a: u32, b: usize) -> (r: u32)
    ensures
        r == sat_add(a, b as int),
{
    if b > (u32::MAX - a) as usize {
        u32::MAX
    } else {
        a + b as u32
    }
}

proof fn lemma_first_dot_unique(t: Seq<char>, a: int, b: int)
    requires
        first_dot(t, a),
        first_dot(t, b),
    ensures
        a == b,
{
    if a < b {
        assert(t[a] == '.');
    } else if b < a {
        assert(t[b] == '.');
    }
}

/// Rebuilds a syntax tree from a flat token buffer as the parser's steps come in.
pub struct TtTreeSink<S> {
    items: Vec<BufItem<S>>,
    cursor: usize,
    text_pos: u32,
    buf: String,
    events: Vec<TreeEvent>,
    token_map: SpanMap<S>,
}

impl<S: Copy> TtTreeSink<S> {
    /// The buffer being read.
    pub closed spec fn items(&self) -> Seq<BufItem<S>> {
        self.items@
    }

    /// The state of reconstruction.
    pub closed spec fn model(&self) -> SinkModel<S> {
        SinkModel {
            cursor: self.cursor as int,
            text_pos: self.text_pos,
            buf: self.buf@,
            events: events_view(self.events@),
            map: self.token_map@,
        }
    }

    pub closed spec fn wf(&self) -> bool {
        self.cursor <= self.items@.len()
    }

    /// A sink at the start of the flat layout of `tt`.
    pub fn new(tt: &Subtree<S>) -> (r: Self)
        ensures
            r.wf(),
            r.items() == input_items(*tt),
            r.model() == initial_model::<S>(),
    {
        let mut items: Vec<BufItem<S>> = Vec::new();
        flatten_subtree(&mut items, tt);
        proof {
            assert(items@ =~= input_items(*tt));
        }
        let r = TtTreeSink {
            items,
            cursor: 0,
            text_pos: 0,
            buf: String::new(),
            events: Vec::new(),
            token_map: SpanMap::new(),
        };
        proof {
            assert(events_view(r.events@) =~= Seq::<EventModel>::empty());
            assert(r.model() =~= initial_model::<S>());
        }
        r
    }

    fn push_event(&mut self, e: TreeEvent)
        ensures
            final(self).items() == old(self).items(),
            final(self).cursor == old(self).cursor,
            final(self).text_pos == old(self).text_pos,
            final(self).buf == old(self).buf,
            final(self).token_map == old(self).token_map,
            events_view(final(self).events@) == events_view(old(self).events@).push(e@),
    {
        self.events.push(e);
        proof {
            assert(events_view(self.events@) =~= events_view(old(self).events@).push(e@));
        }
    }

    fn consume_one(&mut self)
        requires
            old(self).wf(),
            old(self).cursor < old(self).items@.len(),
        ensures
            final(self).wf(),
            final(self).items() == old(self).items(),
            final(self).model() == consume_one(old(self).items(), old(self).model()),
    {
        let c = self.cursor;
        let _n = self.items.len();
        let (text, span) = item_string(&self.items[c]);
        let end = add_sat(self.text_pos, text.as_str().len());
        self.token_map.insert(TextRange { start: self.text_pos, end }, span);
        self.buf.append(text.as_str());
        self.text_pos = end;
        self.cursor = c + 1;
        proof {
            assert(self.model() =~= consume_one(old(self).items(), old(self).model()));
        }
    }

    /// Emits one token of `kind` glued from the next `n_tokens` entries (two for
    /// a lifetime), recording a span for each, and a space after it where two
    /// punctuation characters would otherwise run together.
    pub fn token(&mut self, kind: SyntaxKind, n_tokens: u8)
        requires
            old(self).wf(),
        ensures
            final(self).wf(),
            final(self).items() == old(self).items(),
            final(self).model() == token_model(old(self).items(), old(self).model(), kind, n_tokens as nat),
    {
        let k: usize = if kind == SyntaxKind::LifetimeIdent { 2 } else { n_tokens as usize };
        let ghost m0 = self.model();
        let start = self.cursor;
        let mut j: usize = 0;
        while j < k && self.cursor < self.items.len()
            invariant
                self.wf(),
                j <= k,
                self.items() == old(self).items(),
                self.model().events == m0.events,
                start <= self.cursor,
                self.cursor == start + j,
                consume(self.items(), self.model(), (k - j) as nat) == consume(self.items(), m0, k as nat),
            decreases k - j,
        {
            self.consume_one();
            j += 1;
        }
        let ghost c = self.model();
        proof {
            assert(consume(self.items(), c, (k - j) as nat) == c);
        }
        let last = if self.cursor > start { self.cursor - 1 } else { start };
        let mut tok = String::new();
        core::mem::swap(&mut tok, &mut self.buf);
        self.push_event(TreeEvent::Token(kind, tok));
        let n = self.items.len();
        let space = if n > 0 && last < n - 1 {
            match (&self.items[last], &self.items[last + 1]) {
                (BufItem::Leaf(Leaf::Punct(p)), BufItem::Leaf(Leaf::Punct(q))) => p.spacing
                    == Spacing::Alone && p.char != ';' && q.char != '\'',
                _ => false,
            }
        } else {
            false
        };
        proof {
            assert(space == spaced(self.items(), last as int));
            assert(tok@ == c.buf);
        }
        if space {
            proof {
                reveal_strlit(" ");
                assert(" "@ =~= seq![' ']);
            }
            self.push_event(TreeEvent::Token(SyntaxKind::Whitespace, String::from_str(" ")));
            self.text_pos = add_sat(self.text_pos, 1);
        }
        proof {
            assert(self.model() =~= token_model(old(self).items(), old(self).model(), kind, n_tokens as nat));
        }
    }

    /// Splits the float literal under the cursor into field names around its dot.
    pub fn float_split(&mut self, ends_in_dot: bool)
        requires
            old(self).wf(),
            float_ok(old(self).items(), old(self).model().cursor, ends_in_dot),
        ensures
            final(self).wf(),
            final(self).items() == old(self).items(),
            final(self).model() == float_model(old(self).items(), old(self).model(), ends_in_dot),
    {
        let c = self.cursor;
        let _n = self.items.len();
        let (text, span) = match &self.items[c] {
            BufItem::Leaf(Leaf::Literal(l)) => (l.text.as_str(), l.span),
            _ => {
                proof {
                    assert(false);
                }
                return;
            },
        };
        let len = text.unicode_len();
        let mut d: usize = 0;
        while d < len && text.get_char(d) != '.'
            invariant
                d <= len,
                len == text@.len(),
                forall|j: int| 0 <= j < d ==> text@[j] != '.',
                exists|e: int| first_dot(text@, e),
            decreases len - d,
        {
            d += 1;
        }
        proof {
            let e = choose|e: int| first_dot(text@, e);
            if d >= len {
                assert(text@[e] == '.');
            }
            assert(first_dot(text@, d as int));
            lemma_first_dot_unique(text@, d as int, choose|e: int| first_dot(text@, e));
        }
        let left = String::from_str(text.substring_char(0, d));
        let right = String::from_str(text.substring_char(d + 1, len));
        let ghost m0 = self.model();
        let p0 = self.text_pos;
        let p1 = add_sat(p0, left.as_str().len());
        let p2 = add_sat(p1, 1);
        let p3 = add_sat(p2, right.as_str().len());
        self.token_map.insert(TextRange { start: p0, end: p1 }, span);
        self.token_map.insert(TextRange { start: p1, end: p2 }, span);
        if ends_in_dot {
            self.text_pos = p2;
        } else {
            self.token_map.insert(TextRange { start: p2, end: p3 }, span);
            self.text_pos = p3;
        }
        self.push_event(TreeEvent::Start(SyntaxKind::NameRef));
        self.push_event(TreeEvent::Token(SyntaxKind::IntNumber, left));
        self.push_event(TreeEvent::Finish);
        self.push_event(TreeEvent::Finish);
        self.push_event(TreeEvent::Token(SyntaxKind::Punct, char_string('.')));
        if !ends_in_dot {
            self.push_event(TreeEvent::Start(SyntaxKind::NameRef));
            self.push_event(TreeEvent::Token(SyntaxKind::IntNumber, right));
            self.push_event(TreeEvent::Finish);
            self.push_event(TreeEvent::Finish);
        }
        self.cursor = c + 1;
        proof {
            assert(self.model().events =~= m0.events + float_events(text@, d as int, ends_in_dot));
            assert(self.model() =~= float_model(old(self).items(), old(self).model(), ends_in_dot));
        }
    }

    /// Opens a node of `kind`.
    pub fn start_node(&mut self, kind: SyntaxKind)
        requires
            old(self).wf(),
        ensures
            final(self).wf(),
            final(self).items() == old(self).items(),
            final(self).model() == step_model(old(self).items(), old(self).model(), Step::Enter { kind }),
    {
        self.push_event(TreeEvent::Start(kind));
        proof {
            assert(self.model() =~= step_model(old(self).items(), old(self).model(), Step::Enter { kind }));
        }
    }

    /// Closes the innermost open node.
    pub fn finish_node(&mut self)
        requires
            old(self).wf(),
        ensures
            final(self).wf(),
            final(self).items() == old(self).items(),
            final(self).model() == step_model(old(self).items(), old(self).model(), Step::Exit),
    {
        self.push_event(TreeEvent::Finish);
        proof {
            assert(self.model() =~= step_model(old(self).items(), old(self).model(), Step::Exit));
        }
    }

    /// Records a parse error at the current text offset; building goes on.
    pub fn error(&mut self, msg: String)
        requires
            old(self).wf(),
        ensures
            final(self).wf(),
            final(self).items() == old(self).items(),
            final(self).model() == step_model(old(self).items(), old(self).model(), Step::Error { msg }),
    {
        let ghost g = msg;
        let pos = self.text_pos;
        self.push_event(TreeEvent::Error(msg, pos));
        proof {
            assert(self.model() =~= step_model(old(self).items(), old(self).model(), Step::Error { msg: g }));
        }
    }

    /// The tree events and the span map built so far.
    pub fn finish(self) -> (r: (Vec<TreeEvent>, SpanMap<S>))
        ensures
            events_view(r.0@) == self.model().events,
            r.1@ == self.model().map,
    {
        (self.events, self.token_map)
    }
}

/// Rebuilds a syntax tree from a token tree and the parser's steps over its
/// flat layout (an invisible outer delimiter is not part of it). Returns the
/// tree's building events and a map from ranges of the rebuilt text to the
/// spans of the tokens they came from.
pub fn token_tree_to_syntax_node<S: Copy>(tt: &Subtree<S>, steps: &Vec<Step>) -> (r: (
    Vec<TreeEvent>,
    SpanMap<S>,
))
    requires
        steps_ok(input_items(*tt), steps@, steps@.len() as int),
    ensures
        events_view(r.0@) == run(input_items(*tt), steps@, steps@.len() as int).events,
        r.1@ == run(input_items(*tt), steps@, steps@.len() as int).map,
{
    let mut sink = TtTreeSink::new(tt);
    let ghost items = input_items(*tt);
    let mut i: usize = 0;
    while i < steps.len()
        invariant
            i <= steps@.len(),
            sink.wf(),
            sink.items() == items,
            sink.model() == run(items, steps@, i as int),
            steps_ok(items, steps@, steps@.len() as int),
        decreases steps@.len() - i,
    {
        proof {
            lemma_steps_ok_prefix(items, steps@, steps@.len() as int, i + 1);
        }
        match &steps[i] {
            Step::Token { kind, n_input_tokens } => sink.token(*kind, *n_input_tokens),
            Step::FloatSplit { ends_in_dot } => sink.float_split(*ends_in_dot),
            Step::Enter { kind } => sink.start_node(*kind),
            Step::Exit => sink.finish_node(),
            Step::Error { msg } => sink.error(msg.clone()),
        }
        i += 1;
    }
    sink.finish()
}

proof fn lemma_steps_ok_prefix<S>(items: Seq<BufItem<S>>, steps: Seq<Step>, n: int, k: int)
    requires
        steps_ok(items, steps, n),
        0 <= k <= n,
    ensures
        steps_ok(items, steps, k),
    decreases n - k,
{
    if k < n {
        lemma_steps_ok_prefix(items, steps, n - 1, k);
    }
}

/// The text of an event: a token's text, except that whitespace counts as none.
pub open spec fn event_text(e: EventModel) -> Seq<char> {
    match e {
        EventModel::Token(k, t) => if k == SyntaxKind::Whitespace {
            seq![]
        } else {
            t
        },
        _ => seq![],
    }
}

/// The text of the rebuilt tree's tokens, leaving out whitespace.
pub open spec fn emitted_text(evs: Seq<EventModel>) -> Seq<char>
    decreases evs.len(),
{
    if evs.len() == 0 {
        seq![]
    } else {
        emitted_text(evs.drop_last()) + event_text(evs.last())
    }
}

/// No step asks for a whitespace token: whitespace is what the sink adds itself.
pub open spec fn no_whitespace_steps(steps: Seq<Step>) -> bool {
    forall|i: int|
        0 <= i < steps.len() ==> !(#[trigger] steps[i] matches Step::Token { kind, .. }
            && kind == SyntaxKind::Whitespace)
}

proof fn lemma_emitted_concat(a: Seq<EventModel>, b: Seq<EventModel>)
    ensures
        emitted_text(a + b) == emitted_text(a) + emitted_text(b),
    decreases b.len(),
{
    if b.len() == 0 {
        assert(a + b =~= a);
    } else {
        lemma_emitted_concat(a, b.drop_last());
        assert((a + b).drop_last() =~= a + b.drop_last());
    }
    assert(emitted_text(a + b) =~= emitted_text(a) + emitted_text(b));
}

proof fn lemma_items_text_split<S>(items: Seq<BufItem<S>>, a: int, b: int, c: int)
    requires
        a <= b <= c,
    ensures
        items_text(items, a, b) + items_text(items, b, c) == items_text(items, a, c),
    decreases c - b,
{
    if b < c {
        lemma_items_text_split(items, a, b, c - 1);
    }
    assert(items_text(items, a, b) + items_text(items, b, c) =~= items_text(items, a, c));
}

proof fn lemma_consume<S>(items: Seq<BufItem<S>>, m: SinkModel<S>, k: nat)
    requires
        0 <= m.cursor <= items.len(),
    ensures
        consume(items, m, k).events == m.events,
        m.cursor <= consume(items, m, k).cursor <= items.len(),
        consume(items, m, k).buf == m.buf + items_text(items, m.cursor, consume(items, m, k).cursor),
    decreases k,
{
    if k == 0 || m.cursor >= items.len() {
        assert(m.buf + items_text(items, m.cursor, m.cursor) =~= m.buf);
    } else {
        let m1 = consume_one(items, m);
        lemma_consume(items, m1, (k - 1) as nat);
        let c = consume(items, m1, (k - 1) as nat);
        lemma_items_text_split(items, m.cursor, m.cursor + 1, c.cursor);
        assert(items_text(items, m.cursor, m.cursor) =~= Seq::<char>::empty());
        assert(items_text(items, m.cursor, m.cursor + 1) =~= item_text(items[m.cursor]));
        assert(c.buf =~= m.buf + items_text(items, m.cursor, c.cursor));
    }
}

proof fn lemma_token_text<S>(items: Seq<BufItem<S>>, m: SinkModel<S>, kind: SyntaxKind, n: nat)
    requires
        0 <= m.cursor <= items.len(),
        m.buf == Seq::<char>::empty(),
        emitted_text(m.events) == items_text(items, 0, m.cursor),
        kind != SyntaxKind::Whitespace,
    ensures
        0 <= token_model(items, m, kind, n).cursor <= items.len(),
        token_model(items, m, kind, n).buf == Seq::<char>::empty(),
        emitted_text(token_model(items, m, kind, n).events) == items_text(
            items,
            0,
            token_model(items, m, kind, n).cursor,
        ),
{
    let k: nat = if kind == SyntaxKind::LifetimeIdent {
        2
    } else {
        n
    };
    lemma_consume(items, m, k);
    let c = consume(items, m, k);
    lemma_items_text_split(items, 0, m.cursor, c.cursor);
    let evs = c.events.push(EventModel::Token(kind, c.buf));
    assert(evs.drop_last() == c.events);
    assert(emitted_text(evs) =~= items_text(items, 0, c.cursor));
    let ws = evs.push(EventModel::Token(SyntaxKind::Whitespace, seq![' ']));
    assert(ws.drop_last() == evs);
    assert(emitted_text(ws) =~= emitted_text(evs));
}

proof fn lemma_float_text<S>(items: Seq<BufItem<S>>, m: SinkModel<S>, ends_in_dot: bool)
    requires
        0 <= m.cursor <= items.len(),
        m.buf == Seq::<char>::empty(),
        emitted_text(m.events) == items_text(items, 0, m.cursor),
        float_ok(items, m.cursor, ends_in_dot),
    ensures
        0 <= float_model(items, m, ends_in_dot).cursor <= items.len(),
        float_model(items, m, ends_in_dot).buf == Seq::<char>::empty(),
        emitted_text(float_model(items, m, ends_in_dot).events) == items_text(
            items,
            0,
            float_model(items, m, ends_in_dot).cursor,
        ),
{
    match items[m.cursor] {
        BufItem::Leaf(Leaf::Literal(l)) => {
            let t = l.text@;
            let w = choose|d: int| first_dot(t, d) && d > 0 && (ends_in_dot <==> d == t.len() - 1);
            let d = choose|d: int| first_dot(t, d);
            lemma_first_dot_unique(t, w, d);
            let fe = float_events(t, d, ends_in_dot);
            lemma_emitted_concat(m.events, fe);
            reveal_with_fuel(emitted_text, 10);
            assert(emitted_text(fe) =~= t);
            assert(items_text(items, 0, m.cursor + 1) =~= items_text(items, 0, m.cursor) + t);
        },
        _ => {},
    }
}

/// Until the parser's steps are spent, the text of the rebuilt tokens, without
/// whitespace, is exactly the text of the buffer entries consumed so far.
pub proof fn lemma_run_text<S>(items: Seq<BufItem<S>>, steps: Seq<Step>, n: int)
    requires
        0 <= n <= steps.len(),
        steps_ok(items, steps, n),
        no_whitespace_steps(steps),
    ensures
        0 <= run(items, steps, n).cursor <= items.len(),
        run(items, steps, n).buf == Seq::<char>::empty(),
        emitted_text(run(items, steps, n).events) == items_text(items, 0, run(items, steps, n).cursor),
    decreases n,
{
    if n > 0 {
        lemma_run_text(items, steps, n - 1);
        let m = run(items, steps, n - 1);
        assert(!(steps[n - 1] matches Step::Token { kind, .. } && kind == SyntaxKind::Whitespace));
        match steps[n - 1] {
            Step::Token { kind, n_input_tokens } => {
                lemma_token_text(items, m, kind, n_input_tokens as nat);
            },
            Step::FloatSplit { ends_in_dot } => {
                lemma_float_text(items, m, ends_in_dot);
            },
            Step::Enter { kind } => {
                assert(m.events.push(EventModel::Start(kind)).drop_last() == m.events);
            },
            Step::Exit => {
                assert(m.events.push(EventModel::Finish).drop_last() == m.events);
            },
            Step::Error { msg } => {
                assert(m.events.push(EventModel::Error(msg@, m.text_pos)).drop_last() == m.events);
            },
        }
    }
}

/// Spacing: one token step over an `Alone` punctuation character other than
/// `;`, followed by a punctuation character other than a quote, emits that
/// character's token and then exactly one whitespace token.
pub proof fn lemma_alone_punct_spacing<S>(items: Seq<BufItem<S>>, m: SinkModel<S>, kind: SyntaxKind)
    requires
        spaced(items, m.cursor),
        kind != SyntaxKind::LifetimeIdent,
    ensures
        token_model(items, m, kind, 1).events == m.events + seq![
            EventModel::Token(kind, m.buf + item_text(items[m.cursor])),
            EventModel::Token(SyntaxKind::Whitespace, seq![' ']),
        ],
        token_model(items, m, kind, 1).cursor == m.cursor + 1,
{
    let m1 = consume_one(items, m);
    reveal_with_fuel(consume, 2);
    assert(consume(items, m, 1) == m1);
    assert(token_model(items, m, kind, 1).events =~= m.events + seq![
        EventModel::Token(kind, m.buf + item_text(items[m.cursor])),
        EventModel::Token(SyntaxKind::Whitespace, seq![' ']),
    ]);
}

} // verus!
