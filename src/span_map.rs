//! A table from text ranges to spans, filled while converting in either direction.
use vstd::prelude::*;
use crate::tt::TextRange;

verus! {

/// The span recorded for `range`: the first entry with exactly that range.
pub open spec fn lookup<S>(entries: Seq<(TextRange, S)>, range: TextRange) -> Option<S>
    decreases entries.len(),
{
    if entries.len() == 0 {
        None
    } else if entries[0].0 == range {
        Some(entries[0].1)
    } else {
        lookup(entries.drop_first(), range)
    }
}

/// A mapping from text ranges to spans, in the order in which they were recorded.
#[derive(Clone, Debug, PartialEq, Eq)]
pub struct SpanMap<S> {
    entries: Vec<(TextRange, S)>,
}

impl<S> View for SpanMap<S> {
    type V = Seq<(TextRange, S)>;

    closed spec fn view(&self) -> Seq<(TextRange, S)> {
        self.entries@
    }
}

impl<S: Copy> SpanMap<S> {
    /// An empty map.
    pub fn new() -> (r: Self)
        ensures
            r@ == Seq::<(TextRange, S)>::empty(),
    {
        SpanMap { entries: Vec::new() }
    }

    /// Records that the text in `range` came from `span`.
    pub fn insert(&mut self, range: TextRange, span: S)
        ensures
            final(self)@ == old(self)@.push((range, span)),
    {
        self.entries.push((range, span));
    }

    /// The number of recorded entries.
    pub fn len(&self) -> (r: usize)
        ensures
            r == self@.len(),
    {
        self.entries.len()
    }

    /// The `i`-th recorded entry.
    pub fn entry(&self, i: usize) -> (r: (TextRange, S))
        requires
            i < self@.len(),
        ensures
            r == self@[i as int],
    {
        self.entries[i]
    }

    /// The span recorded for exactly `range`, if any.
    pub fn span_for_range(&self, range: &TextRange) -> (r: Option<S>)
        ensures
            r == lookup(self@, *range),
    {
        let mut i: usize = 0;
        assert(self.entries@.subrange(0, self.entries@.len() as int) =~= self.entries@);
        while i < self.entries.len()
            invariant
                i <= self.entries@.len(),
                lookup(self.entries@, *range) == lookup(self.entries@.subrange(i as int, self.entries@.len() as int), *range),
            decreases self.entries@.len() - i,
        {
            let e = self.entries[i];
            proof {
                let rest = self.entries@.subrange(i as int, self.entries@.len() as int);
                assert(rest.drop_first() =~= self.entries@.subrange(i + 1, self.entries@.len() as int));
            }
            if e.0 == *range {
                return Some(e.1);
            }
            i += 1;
        }
        None
    }
}

} // verus!
