//! The queries of a file, asked in turn.

use vstd::prelude::*;

use super::{
    entries_of, entry_at, entry_views, pair_views, pairs_of, parse_entries, QueryEntry, QuerySource,
};

verus! {

/// The queries of a file, in turn.
pub struct FileQuerySource {
    pub entries: Vec<QueryEntry>,
    pub index: usize,
}

/// Why a file gives no queries.
#[derive(Debug, Clone, Copy, PartialEq, Eq, Structural)]
pub enum LoadError {
    /// The file contains no valid entries.
    NoEntries,
}

impl FileQuerySource {
    /// The queries that the content of a file lists; there has to be one.
    pub fn load(content: &str) -> (r: Result<Self, LoadError>)
        ensures
            r is Err <==> entries_of(content@).len() == 0,
            r matches Ok(s) ==> entry_views(s.entries@) == entries_of(content@) && s.index == 0
                && s.ready(),
    {
        let entries = parse_entries(content);
        assert(entries@.len() == entry_views(entries@).len());
        if entries.len() == 0 {
            return Err(LoadError::NoEntries);
        }
        Ok(Self { entries, index: 0 })
    }
}

impl QuerySource for FileQuerySource {
    open spec fn ready(&self) -> bool {
        self.entries@.len() > 0
    }

    open spec fn can_yield(&self, e: (Seq<char>, u16)) -> bool {
        e == entry_views(self.entries@)[self.index as int % self.entries@.len() as int]
    }

    open spec fn moves_to(&self, after: &Self) -> bool {
        after.entries == self.entries && after.index == self.index.wrapping_add(1)
    }

    open spec fn can_list(&self, v: Seq<(Seq<char>, u16)>) -> bool {
        v == entry_views(self.entries@)
    }

    fn next(&mut self) -> (e: QueryEntry) {
        let i: usize = self.index;
        self.index = self.index.wrapping_add(1);
        entry_at(&self.entries, i)
    }

    fn all_wire_pairs(&self) -> (v: Vec<(String, u16)>) {
        let v = pairs_of(&self.entries);
        assert(pair_views(v@).len() == entry_views(self.entries@).len());
        v
    }
}

/// The queries of a file come in turn: after the last the first comes again, and a source
/// that has just been made begins with the first.
pub proof fn file_comes_round(s: FileQuerySource, after: FileQuerySource)
    requires
        s.ready(),
        s.moves_to(&after),
        s.index < usize::MAX,
    ensures
        s.index == 0 ==> s.can_yield(entry_views(s.entries@)[0]),
        forall|k: int|
            0 <= k < s.entries@.len() - 1 && s.can_yield(#[trigger] entry_views(s.entries@)[k])
                && s.index as int % s.entries@.len() as int == k ==> after.can_yield(
                entry_views(s.entries@)[k + 1],
            ),
        s.index as int % s.entries@.len() as int == s.entries@.len() - 1 ==> after.can_yield(
            entry_views(s.entries@)[0],
        ),
{
    let n = s.entries@.len() as int;
    let i = s.index as int;
    vstd::arithmetic::div_mod::lemma_fundamental_div_mod(i, n);
    vstd::arithmetic::div_mod::lemma_mod_bound(i, n);
    let (q, r) = (i / n, i % n);
    if i == 0 {
        vstd::arithmetic::div_mod::lemma_small_mod(0, n as nat);
    }
    if r < n - 1 {
        vstd::arithmetic::div_mod::lemma_fundamental_div_mod_converse(i + 1, n, q, r + 1);
    } else {
        assert(i + 1 == n * (q + 1)) by (nonlinear_arith)
            requires
                i == n * q + r,
                r == n - 1,
        ;
        vstd::arithmetic::div_mod::lemma_fundamental_div_mod_converse(i + 1, n, q + 1, 0);
    }
}

} // verus!
