//! A fixed list of queries, asked in turn.

use vstd::prelude::*;

use super::{
    drawn, entries_of, entry_at, entry_views, pair_views, pairs_of, parse_entries, QueryEntry,
    QuerySource,
};

verus! {

/// How many queries the corpus of the program lists.
pub const BUILTIN_DOMAINS: usize = 2000;

/// The queries of a corpus, in turn.
pub struct BuiltinQuerySource {
    pub entries: Vec<QueryEntry>,
    pub index: usize,
}

impl BuiltinQuerySource {
    /// The queries that a corpus lists.
    pub fn new(corpus: &str) -> (r: Self)
        ensures
            entry_views(r.entries@) == entries_of(corpus@),
            r.index == 0,
    {
        Self { entries: parse_entries(corpus), index: 0 }
    }

    /// The queries that the corpus of the program lists; a corpus of another size
    /// is none.
    pub fn full(corpus: &str) -> (r: Option<Self>)
        ensures
            r is Some <==> entries_of(corpus@).len() == BUILTIN_DOMAINS,
            r matches Some(s) ==> entry_views(s.entries@) == entries_of(corpus@) && s.index == 0
                && s.ready(),
    {
        let s = Self::new(corpus);
        assert(s.entries@.len() == entry_views(s.entries@).len());
        if s.entries.len() == BUILTIN_DOMAINS {
            Some(s)
        } else {
            None
        }
    }
}

proof fn lemma_index(
    trace: Seq<BuiltinQuerySource>,
    last: BuiltinQuerySource,
    entries: Seq<(Seq<char>, u16)>,
    k: int,
)
    requires
        drawn(trace, trace[0], last, entries),
        trace[0].index == 0,
        0 <= k < trace.len() <= usize::MAX,
    ensures
        trace[k].entries == trace[0].entries,
        trace[k].index == k,
    decreases k,
{
    if k > 0 {
        lemma_index(trace, last, entries, k - 1);
        assert(trace[k - 1].can_yield(entries[k - 1]));
        assert(trace[k - 1].moves_to(&trace[k]));
    }
}

/// A source made of the program's corpus lists all two thousand queries of it, and
/// gives them in turn: the k-th query drawn is the one at k modulo two thousand.
pub proof fn corpus_comes_round(
    corpus: Seq<char>,
    trace: Seq<BuiltinQuerySource>,
    last: BuiltinQuerySource,
    entries: Seq<(Seq<char>, u16)>,
    pairs: Seq<(Seq<char>, u16)>,
    k: int,
)
    requires
        entries_of(corpus).len() == BUILTIN_DOMAINS,
        drawn(trace, trace[0], last, entries),
        entry_views(trace[0].entries@) == entries_of(corpus),
        trace[0].index == 0,
        trace[0].can_list(pairs),
        0 <= k < entries.len() < usize::MAX,
    ensures
        pairs.len() == BUILTIN_DOMAINS,
        entries[k] == pairs[k % BUILTIN_DOMAINS as int],
        entries[k] == entries_of(corpus)[k % BUILTIN_DOMAINS as int],
{
    lemma_index(trace, last, entries, k);
    assert(entry_views(trace[0].entries@).len() == trace[0].entries@.len());
    assert(trace[k].can_yield(entries[k]));
}

impl QuerySource for BuiltinQuerySource {
    open spec fn ready(&self) -> bool {
        self.entries@.len() > 0
    }

    open spec fn can_yield(&self, e: (Seq<char>, u16)) -> bool {
        e == entry_views(self.entries@)[self.index as int % self.entries@.len() as int]
    }

    open spec fn moves_to(&self, after: &Self) -> bool {
        after.entries == self.entries && after.index == self.index.wrapping_add(1)
    }

    open spec fn can_list(&self, v: Seq<(Seq<char>, u16)>) -> bool {
        v == entry_views(self.entries@)
    }

    fn next(&mut self) -> (e: QueryEntry) {
        let i: usize = self.index;
        self.index = self.index.wrapping_add(1);
        entry_at(&self.entries, i)
    }

    fn all_wire_pairs(&self) -> (v: Vec<(String, u16)>) {
        let v = pairs_of(&self.entries);
        assert(pair_views(v@).len() == entry_views(self.entries@).len());
        v
    }
}

/// The corpus lists two thousand queries.
pub proof fn corpus_has_its_size()
    ensures
        BUILTIN_DOMAINS == 2000,
{
}

} // verus!
