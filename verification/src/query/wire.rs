//! Queries built ahead of time, so that sending one is a copy and two bytes.

use vstd::prelude::*;
use vstd::utf8::encode_utf8;

use crate::dns::{be16, build_query, query};

use super::{pair_views, wire_of};

verus! {

/// The longest query that is sent.
pub const MAX_QUERY: usize = 512;

/// A pool of ready queries, used in turn. Their transaction ids are zero.
pub struct WireQueryPool {
    pub templates: Vec<Vec<u8>>,
    pub index: usize,
}

/// A query with its transaction id set.
pub open spec fn with_id(template: Seq<u8>, id: u16) -> Seq<u8> {
    be16(id as int) + template.skip(2)
}

/// A buffer after `bytes` were written to its start.
pub open spec fn written(buf: Seq<u8>, bytes: Seq<u8>) -> Seq<u8> {
    bytes + buf.skip(bytes.len() as int)
}

/// Setting the id of a ready query gives the query built for that id.
pub proof fn template_is_query(id: u16, name: Seq<u8>, qtype: u16)
    ensures
        with_id(query(0, name, qtype as int), id) == query(id as int, name, qtype as int),
{
    assert(with_id(query(0, name, qtype as int), id) =~= query(id as int, name, qtype as int));
}

/// Copies a ready query to the start of a buffer and sets its id.
fn copy_with_id(template: &Vec<u8>, id: u16, buf: &mut [u8]) -> (len: usize)
    requires
        2 <= template@.len() <= old(buf)@.len(),
    ensures
        len == template@.len(),
        final(buf)@ == written(old(buf)@, with_id(template@, id)),
{
    let len: usize = template.len();
    let ghost start = buf@;
    let mut i: usize = 0;
    while i < len
        invariant
            len == template@.len(),
            i <= len <= buf@.len(),
            buf@.len() == start.len(),
            forall|j: int| 0 <= j < i ==> buf@[j] == template@[j],
            forall|j: int| i <= j < buf@.len() ==> buf@[j] == start[j],
        decreases len - i,
    {
        buf[i] = template[i];
        i += 1;
    }
    buf[0] = (id / 256) as u8;
    buf[1] = (id % 256) as u8;
    assert(buf@ =~= written(start, with_id(template@, id)));
    len
}

/// Builds a query whose transaction id is zero.
fn build_wire_template(name: &str, qtype: u16) -> (t: Vec<u8>)
    ensures
        t@ == wire_of(0, (name@, qtype)),
{
    build_query(0, name, qtype)
}

impl WireQueryPool {
    /// The ready queries.
    pub open spec fn queries(self) -> Seq<Seq<u8>> {
        Seq::new(self.templates@.len(), |i: int| self.templates@[i]@)
    }

    /// The query whose turn it is at a running number.
    pub open spec fn at(self, index: usize) -> Seq<u8> {
        self.queries()[index as int % self.queries().len() as int]
    }

    /// There is a query, and each fits in what is sent.
    pub open spec fn wf(self) -> bool {
        &&& self.templates@.len() > 0
        &&& forall|i: int|
            0 <= i < self.templates@.len() ==> 12 <= (#[trigger] self.templates@[i])@.len()
                <= MAX_QUERY
    }

    /// Builds the queries of a list, which is not empty and asks for nothing
    /// that is too long.
    pub fn from_pairs(entries: &[(String, u16)]) -> (r: Self)
        requires
            entries@.len() > 0,
            forall|i: int|
                0 <= i < entries@.len() ==> wire_of(0, #[trigger] pair_views(entries@)[i]).len()
                    <= MAX_QUERY,
        ensures
            r.wf(),
            r.index == 0,
            r.queries() == Seq::new(
                entries@.len(),
                |i: int| wire_of(0, pair_views(entries@)[i]),
            ),
    {
        let mut templates: Vec<Vec<u8>> = Vec::new();
        let mut i: usize = 0;
        while i < entries.len()
            invariant
                i <= entries@.len(),
                templates@.len() == i,
                forall|j: int|
                    0 <= j < i ==> (#[trigger] templates@[j])@ == wire_of(
                        0,
                        pair_views(entries@)[j],
                    ),
            decreases entries@.len() - i,
        {
            let t = build_wire_template(entries[i].0.as_str(), entries[i].1);
            assert(t@ == wire_of(0, pair_views(entries@)[i as int]));
            templates.push(t);
            i += 1;
        }
        let r = Self { templates, index: 0 };
        assert forall|i: int| 0 <= i < r.templates@.len() implies 12 <= (
        #[trigger] r.templates@[i])@.len() <= MAX_QUERY by {
            assert(wire_of(0, pair_views(entries@)[i]).len() >= 12);
        }
        assert(r.queries() =~= Seq::new(
            entries@.len(),
            |i: int| wire_of(0, pair_views(entries@)[i]),
        ));
        r
    }

    /// Writes the next query in turn with the given id; the result is its length.
    pub fn write_next_with_id(&mut self, id: u16, buf: &mut [u8]) -> (len: usize)
        requires
            old(self).wf(),
            old(self).at(old(self).index).len() <= old(buf)@.len(),
        ensures
            final(self).wf(),
            final(self).templates == old(self).templates,
            final(self).index == old(self).index.wrapping_add(1),
            len == old(self).at(old(self).index).len(),
            final(buf)@ == written(old(buf)@, with_id(old(self).at(old(self).index), id)),
    {
        let i: usize = self.index;
        self.index = self.index.wrapping_add(1);
        self.write_with_index(i, id, buf)
    }

    /// Writes the query of a running number with the given id; the result is its
    /// length.
    pub fn write_with_index(&self, index: usize, id: u16, buf: &mut [u8]) -> (len: usize)
        requires
            self.wf(),
            self.at(index).len() <= old(buf)@.len(),
        ensures
            len == self.at(index).len(),
            final(buf)@ == written(old(buf)@, with_id(self.at(index), id)),
    {
        let t = &self.templates[index % self.templates.len()];
        copy_with_id(t, id, buf)
    }

    /// How many queries there are.
    pub fn len(&self) -> (n: usize)
        ensures
            n == self.queries().len(),
    {
        self.templates.len()
    }
}

/// The queries come round: after as many as there are, the first is back.
pub proof fn turns_come_round(pool: WireQueryPool, index: usize)
    requires
        pool.wf(),
        index + pool.queries().len() <= usize::MAX,
    ensures
        pool.at((index + pool.queries().len()) as usize) == pool.at(index),
{
    let n = pool.queries().len() as int;
    vstd::arithmetic::div_mod::lemma_mod_add_multiples_vanish(index as int, n);
}

/// What is written for a pair is the query that `build_query` gives for it.
pub proof fn pool_writes_queries(pool: WireQueryPool, pairs: Seq<(Seq<char>, u16)>, index: usize, id: u16)
    requires
        pairs.len() > 0,
        pool.queries() == Seq::new(pairs.len(), |i: int| wire_of(0, pairs[i])),
    ensures
        with_id(pool.at(index), id) == wire_of(
            id as int,
            pairs[index as int % pairs.len() as int],
        ),
{
    let p = pairs[index as int % pairs.len() as int];
    template_is_query(id, encode_utf8(p.0), p.1);
}

/// Setting the id of a ready query sets its first two bytes and no other.
pub proof fn id_is_all_that_is_set(template: Seq<u8>, id: u16)
    requires
        template.len() >= 2,
    ensures
        ({
            let q = with_id(template, id);
            &&& q.len() == template.len()
            &&& q[0] * 256 + q[1] == id
            &&& forall|i: int| 2 <= i < q.len() ==> #[trigger] q[i] == template[i]
        }),
{
}

/// What is written stands at the start of the buffer, and the rest of it stays.
pub proof fn rest_of_buffer_stays(buf: Seq<u8>, bytes: Seq<u8>)
    requires
        bytes.len() <= buf.len(),
    ensures
        written(buf, bytes).len() == buf.len(),
        written(buf, bytes).take(bytes.len() as int) == bytes,
        written(buf, bytes).skip(bytes.len() as int) == buf.skip(bytes.len() as int),
{
    assert(written(buf, bytes).take(bytes.len() as int) =~= bytes);
    assert(written(buf, bytes).skip(bytes.len() as int) =~= buf.skip(bytes.len() as int));
}

/// The queries are sent in turn: in the first round each at its own place in the list,
/// and each further round starts with the first again.
pub proof fn queries_go_in_turn(pool: WireQueryPool, round: nat, k: nat)
    requires
        pool.wf(),
        k < pool.templates@.len(),
        round * pool.templates@.len() + k <= usize::MAX,
    ensures
        pool.at((round * pool.templates@.len() + k) as usize) == pool.templates@[k as int]@,
{
    let n = pool.templates@.len() as int;
    vstd::arithmetic::div_mod::lemma_mod_multiples_vanish(round as int, k as int, n);
    assert(n * round + k == round * n + k) by (nonlinear_arith);
    vstd::arithmetic::div_mod::lemma_small_mod(k, n as nat);
}

/// A query has room for 512 bytes.
pub proof fn queries_have_their_room()
    ensures
        MAX_QUERY == 512,
{
}

} // verus!
