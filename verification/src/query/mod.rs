//! Where queries come from.

use vstd::prelude::*;
use vstd::utf8::encode_utf8;

use crate::dns::{parse_record_type, query, record_type};
use crate::text::{
    chars_of, is_space, is_word, lacks, line_feeds_end_lines, lines, split_lines, split_words,
    string_of, views, white_space_ends_words, words,
};

pub use wire::{WireQueryPool, MAX_QUERY};

pub mod builtin;
pub mod file;
pub mod random;
pub mod wire;

verus! {

/// A name and the type of record that is asked for.
#[derive(Debug, Clone)]
pub struct QueryEntry {
    pub name: String,
    pub qtype: u16,
}

impl View for QueryEntry {
    type V = (Seq<char>, u16);

    open spec fn view(&self) -> (Seq<char>, u16) {
        (self.name@, self.qtype)
    }
}

/// The views of a list of entries.
pub open spec fn entry_views(v: Seq<QueryEntry>) -> Seq<(Seq<char>, u16)> {
    Seq::new(v.len(), |i: int| v[i]@)
}

/// The views of a list of names with their types.
pub open spec fn pair_views(v: Seq<(String, u16)>) -> Seq<(Seq<char>, u16)> {
    Seq::new(v.len(), |i: int| (v[i].0@, v[i].1))
}

/// The query for a name and type, as it goes on the wire.
pub open spec fn wire_of(id: int, pair: (Seq<char>, u16)) -> Seq<u8> {
    query(id, encode_utf8(pair.0), pair.1 as int)
}

/// A source of queries.
pub trait QuerySource {
    /// Whether there is anything to ask for.
    spec fn ready(&self) -> bool;

    /// Whether `e` can be what is asked for next.
    spec fn can_yield(&self, e: (Seq<char>, u16)) -> bool;

    /// Whether asking for one thing leads to `after`.
    spec fn moves_to(&self, after: &Self) -> bool;

    /// Whether `v` can be the list of what to ask for in turn.
    spec fn can_list(&self, v: Seq<(Seq<char>, u16)>) -> bool;

    /// What to ask for next.
    fn next(&mut self) -> (e: QueryEntry)
        requires
            old(self).ready(),
        ensures
            old(self).can_yield(e@),
            old(self).moves_to(final(self)),
            final(self).ready(),
    ;

    /// Everything to ask for in turn; a source without an end gives a sample.
    fn all_wire_pairs(&self) -> (v: Vec<(String, u16)>)
        requires
            self.ready(),
        ensures
            self.can_list(pair_views(v@)),
            v@.len() > 0,
    ;
}

/// Whether a source went from `first` to `last` through the states of `trace` and
/// gave `entries` on the way, one at each step.
pub open spec fn drawn<Q: QuerySource>(
    trace: Seq<Q>,
    first: Q,
    last: Q,
    entries: Seq<(Seq<char>, u16)>,
) -> bool {
    &&& trace.len() == entries.len() + 1
    &&& trace[0] == first
    &&& trace.last() == last
    &&& forall|i: int|
        0 <= i < entries.len() ==> trace[i].can_yield(#[trigger] entries[i]) && trace[i].moves_to(
            &trace[i + 1],
        )
}

/// Whether a line of a query list counts: it is not empty and no comment.
pub open spec fn line_counts(line: Seq<char>) -> bool {
    line.len() > 0 && line[0] != '#'
}

/// What a line asks for: its first word is the name, its second the type.
pub open spec fn line_entry(line: Seq<char>) -> (Seq<char>, u16) {
    let w = words(line);
    (
        if w.len() > 0 {
            w[0]
        } else {
            "example.com"@
        },
        if w.len() > 1 {
            record_type(w[1])
        } else {
            record_type("A"@)
        },
    )
}

/// The entries of the first `n` lines.
pub open spec fn entries_of_lines(ls: Seq<Seq<char>>, n: nat) -> Seq<(Seq<char>, u16)>
    decreases n,
{
    if n == 0 {
        Seq::empty()
    } else if line_counts(ls[n - 1]) {
        entries_of_lines(ls, (n - 1) as nat).push(line_entry(ls[n - 1]))
    } else {
        entries_of_lines(ls, (n - 1) as nat)
    }
}

/// The entries of a query list.
pub open spec fn entries_of(text: Seq<char>) -> Seq<(Seq<char>, u16)> {
    entries_of_lines(lines(text), lines(text).len())
}

/// Reads one line of a query list.
fn parse_line(line: &[char]) -> (e: QueryEntry)
    ensures
        e@ == line_entry(line@),
{
    let w = split_words(line);
    let ghost ws = words(line@);
    assert(views(w@) == ws);
    let name = if w.len() > 0 {
        assert(ws[0] == w@[0]@);
        string_of(w[0].as_slice())
    } else {
        "example.com".to_owned()
    };
    let qtype: u16 = if w.len() > 1 {
        assert(ws[1] == w@[1]@);
        parse_record_type(string_of(w[1].as_slice()).as_str())
    } else {
        parse_record_type("A")
    };
    QueryEntry { name, qtype }
}

/// Reads a query list.
pub fn parse_entries(text: &str) -> (v: Vec<QueryEntry>)
    ensures
        entry_views(v@) == entries_of(text@),
{
    let chars = chars_of(text);
    let ls = split_lines(chars.as_slice());
    let ghost lv = lines(text@);
    let mut out: Vec<QueryEntry> = Vec::new();
    let mut i: usize = 0;
    while i < ls.len()
        invariant
            i <= ls@.len(),
            views(ls@) == lv,
            entry_views(out@) == entries_of_lines(lv, i as nat),
        decreases ls@.len() - i,
    {
        let line = ls[i].as_slice();
        assert(lv[i as int] == line@);
        if line.len() > 0 && line[0] != '#' {
            let ghost before = out@;
            let e = parse_line(line);
            out.push(e);
            assert(entry_views(out@) =~= entry_views(before).push(e@));
        }
        i += 1;
    }
    out
}

/// Copies the entries of a list as pairs.
fn pairs_of(entries: &Vec<QueryEntry>) -> (v: Vec<(String, u16)>)
    ensures
        pair_views(v@) == entry_views(entries@),
{
    let mut out: Vec<(String, u16)> = Vec::new();
    let mut i: usize = 0;
    while i < entries.len()
        invariant
            i <= entries@.len(),
            pair_views(out@) == entry_views(entries@).take(i as int),
        decreases entries@.len() - i,
    {
        let ghost before = out@;
        let e = &entries[i];
        out.push((e.name.clone(), e.qtype));
        assert(pair_views(out@) =~= pair_views(before).push(e@));
        assert(entry_views(entries@).take(i + 1) =~= entry_views(entries@).take(i as int).push(e@));
        i += 1;
    }
    assert(entry_views(entries@).take(i as int) =~= entry_views(entries@));
    out
}

/// The entry whose turn it is.
fn entry_at(entries: &Vec<QueryEntry>, index: usize) -> (e: QueryEntry)
    requires
        entries@.len() > 0,
    ensures
        e@ == entry_views(entries@)[index as int % entries@.len() as int],
{
    let e = &entries[index % entries.len()];
    QueryEntry { name: e.name.clone(), qtype: e.qtype }
}

/// What a line of a query list adds: nothing where it is empty or begins with a number
/// sign, else what it asks for.
pub proof fn lines_add_entries(line: Seq<char>, rest: Seq<char>)
    requires
        lacks(line, '\n'),
        line.len() > 0 ==> line.last() != '\r',
    ensures
        line.len() == 0 || line[0] == '#' ==> entries_of(line + seq!['\n'] + rest) == entries_of(
            rest,
        ),
        line.len() > 0 && line[0] != '#' ==> entries_of(line + seq!['\n'] + rest) == seq![
            line_entry(line),
        ] + entries_of(rest),
        entries_of(Seq::<char>::empty()) == Seq::<(Seq<char>, u16)>::empty(),
        line.len() > 0 && line[0] != '#' ==> entries_of(line) == seq![line_entry(line)],
{
    line_feeds_end_lines(line, rest);
    lemma_first_line(line, lines(rest), lines(rest).len());
    let ls = lines(line);
    if line.len() > 0 {
        assert(ls == seq![line]);
        assert(entries_of_lines(ls, 0) =~= Seq::empty());
        if line[0] != '#' {
            assert(line_counts(ls[0]));
            assert(entries_of(line) =~= seq![line_entry(line)]);
        }
    }
}

proof fn lemma_first_line(line: Seq<char>, ls: Seq<Seq<char>>, n: nat)
    requires
        n <= ls.len(),
    ensures
        entries_of_lines(seq![line] + ls, (n + 1) as nat) == if line_counts(line) {
            seq![line_entry(line)] + entries_of_lines(ls, n)
        } else {
            entries_of_lines(ls, n)
        },
    decreases n,
{
    let all = seq![line] + ls;
    if n == 0 {
        assert(entries_of_lines(all, 0) =~= Seq::empty());
        assert(entries_of_lines(ls, 0) =~= Seq::empty());
        assert(all[0] == line);
        if line_counts(line) {
            assert(entries_of_lines(all, 1) =~= seq![line_entry(line)]);
            assert(seq![line_entry(line)] + entries_of_lines(ls, 0) =~= seq![line_entry(line)]);
        }
    } else {
        lemma_first_line(line, ls, (n - 1) as nat);
        assert(all[n as int] == ls[n - 1]);
        let before = entries_of_lines(ls, (n - 1) as nat);
        let e = line_entry(ls[n - 1]);
        assert((seq![line_entry(line)] + before).push(e) =~= seq![line_entry(line)] + before.push(
            e,
        ));
    }
}

/// What a line asks for: its first word is the name, its second the record type, and
/// addresses where there is no second; what follows does not count.
pub proof fn lines_name_and_type(name: Seq<char>, kind: Seq<char>, c: char, rest: Seq<char>)
    requires
        is_word(name),
        is_word(kind),
        is_space(c),
    ensures
        line_entry(name) == (name, 1u16),
        line_entry(name + seq![c] + kind) == (name, record_type(kind)),
        line_entry(name + seq![c] + kind + seq![c] + rest) == (name, record_type(kind)),
{
    let none = Seq::<char>::empty();
    white_space_ends_words(none, name, c, kind);
    white_space_ends_words(none, kind, c, rest);
    let a = words(name + seq![c] + kind);
    assert(a == seq![name] + words(kind));
    assert(words(kind) == seq![kind]);
    assert(a[0] == name && a[1] == kind);
    let more = kind + seq![c] + rest;
    white_space_ends_words(none, name, c, more);
    assert(name + seq![c] + kind + seq![c] + rest =~= name + seq![c] + more);
    let b = words(name + seq![c] + more);
    assert(b == seq![name] + (seq![kind] + words(rest)));
    assert(b[0] == name && b[1] == kind);
    assert(words(name)[0] == name);
    reveal_strlit("A");
    assert(crate::dns::upper_all("A"@) =~= "A"@);
}

} // verus!
