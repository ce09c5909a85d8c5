//! The memory shared with the NIC: its frames, and the rings through which they
//! change hands.

use vstd::arithmetic::div_mod::{lemma_fundamental_div_mod, lemma_mod_mod};
use vstd::prelude::*;

verus! {

/// The size of a frame.
pub const FRAME_SIZE: u32 = 4096;

/// How many frames there are.
pub const FRAME_COUNT: u32 = 4096;

/// How many entries a ring has.
pub const RING_SIZE: u32 = 2048;

/// The bit of a ring's flags that asks for a wake-up.
pub const XDP_RING_NEED_WAKEUP: u32 = 1;

pub const XDP_COPY: u16 = 2;

pub const XDP_ZEROCOPY: u16 = 4;

pub const XDP_USE_NEED_WAKEUP: u16 = 8;

/// The address family of these sockets.
pub const AF_XDP: u16 = 44;

/// How the shared memory is made known to the kernel.
#[derive(Debug, Clone, Copy, PartialEq, Eq, Structural)]
pub struct XdpUmemReg {
    pub addr: u64,
    pub len: u64,
    pub chunk_size: u32,
    pub headroom: u32,
    pub flags: u32,
    pub tx_metadata_len: u32,
}

/// Where the parts of a ring lie in its mapping.
#[derive(Debug, Clone, Copy, PartialEq, Eq, Structural)]
pub struct XdpRingOffsets {
    pub producer: u64,
    pub consumer: u64,
    pub desc: u64,
    pub flags: u64,
}

/// Where the parts of the four rings lie.
#[derive(Debug, Clone, Copy, PartialEq, Eq, Structural)]
pub struct XdpMmapOffsets {
    pub rx: XdpRingOffsets,
    pub tx: XdpRingOffsets,
    pub fr: XdpRingOffsets,
    pub cr: XdpRingOffsets,
}

/// A frame that is received or to be sent.
#[derive(Debug, Clone, Copy, PartialEq, Eq, Structural)]
pub struct XdpDesc {
    pub addr: u64,
    pub len: u32,
    pub options: u32,
}

/// The address that a socket binds to.
#[derive(Debug, Clone, Copy, PartialEq, Eq, Structural)]
pub struct SockaddrXdp {
    pub sxdp_family: u16,
    pub sxdp_flags: u16,
    pub sxdp_ifindex: u32,
    pub sxdp_queue_id: u32,
    pub sxdp_shared_umem_fd: u32,
}

/// A ring of entries with two running numbers: where the next one is written and
/// where the next one is read. Both wrap at two to the thirty-second.
#[derive(Debug)]
pub struct Ring<T> {
    pub producer: u32,
    pub consumer: u32,
    pub flags: u32,
    pub descs: Vec<T>,
    pub size: u32,
    pub mask: u32,
}

/// How many entries lie between two running numbers.
pub open spec fn between(consumer: u32, producer: u32) -> int {
    (producer - consumer) % 0x1_0000_0000
}

/// The running number `i` after another.
pub open spec fn advanced(from: u32, i: int) -> int {
    (from + i) % 0x1_0000_0000
}

/// How many entries are waiting in a ring.
pub fn ring_used(producer: u32, consumer: u32) -> (r: u32)
    ensures
        r == between(consumer, producer),
{
    producer.wrapping_sub(consumer)
}

/// How many of `n` entries a ring takes.
pub fn ring_takes(producer: u32, consumer: u32, size: u32, n: usize) -> (r: u32)
    requires
        between(consumer, producer) <= size,
    ensures
        r == if n <= size - between(consumer, producer) {
            n as int
        } else {
            size - between(consumer, producer)
        },
        r <= n,
        r == n || r + between(consumer, producer) == size,
{
    let free: u32 = size.wrapping_sub(producer.wrapping_sub(consumer));
    if n <= free as usize {
        n as u32
    } else {
        free
    }
}

/// Where the entry `i` after a running number lies.
pub fn ring_slot(from: u32, i: u32, size: u32) -> (r: u32)
    requires
        size > 0,
    ensures
        r == advanced(from, i as int) % size as int,
        r < size,
{
    from.wrapping_add(i) % size
}

proof fn lemma_slots_differ(from: u32, i: int, j: int, size: u32)
    requires
        size > 0,
        0x1_0000_0000int % size as int == 0,
        0 <= i < j < i + size,
    ensures
        advanced(from, i) % size as int != advanced(from, j) % size as int,
{
    let s = size as int;
    let m: int = 0x1_0000_0000;
    let k = m / s;
    lemma_fundamental_div_mod(m, s);
    assert(m == s * k);
    assert(k > 0) by (nonlinear_arith)
        requires
            m == s * k,
            m > 0,
            s > 0,
    ;
    lemma_mod_mod(from + i, s, k);
    lemma_mod_mod(from + j, s, k);
    if advanced(from, i) % s == advanced(from, j) % s {
        lemma_fundamental_div_mod(from + i, s);
        lemma_fundamental_div_mod(from + j, s);
        let d = (from + j) / s - (from + i) / s;
        assert(s * d == j - i) by (nonlinear_arith)
            requires
                from + i == s * ((from + i) / s) + (from + i) % s,
                from + j == s * ((from + j) / s) + (from + j) % s,
                (from + i) % s == (from + j) % s,
                d == (from + j) / s - (from + i) / s,
        ;
        assert(false) by (nonlinear_arith)
            requires
                s * d == j - i,
                0 < j - i < s,
        ;
    }
}

proof fn lemma_advance_twice(from: u32, a: int, b: int)
    requires
        0 <= a,
        0 <= b,
    ensures
        advanced(advanced(from, a) as u32, b) == advanced(from, a + b),
{
}

proof fn lemma_between_advanced(consumer: u32, producer: u32)
    ensures
        advanced(consumer, between(consumer, producer)) == producer,
{
}

impl<T: Copy> Ring<T> {
    /// Whether this stands where a ring was taken out: it has no room and no state.
    pub open spec fn is_stub(self) -> bool {
        &&& self.size == 0
        &&& self.mask == 0
        &&& self.producer == 0
        &&& self.consumer == 0
        &&& self.flags == 0
        &&& self.descs@.len() == 0
    }

    /// The ring has a size that divides the range of its running numbers, and
    /// holds no more than it has room for.
    pub open spec fn wf(self) -> bool {
        &&& self.size > 0
        &&& 0x1_0000_0000int % self.size as int == 0
        &&& self.mask == self.size - 1
        &&& self.descs@.len() == self.size
        &&& between(self.consumer, self.producer) <= self.size
    }

    /// The entries that wait, the oldest first.
    pub open spec fn waiting(self) -> Seq<T> {
        Seq::new(
            between(self.consumer, self.producer) as nat,
            |i: int| self.descs@[advanced(self.consumer, i) % self.size as int],
        )
    }

    /// A ring without room.
    pub fn zeroed() -> (r: Self)
        ensures
            r.is_stub(),
            r.producer == 0 && r.consumer == 0 && r.flags == 0 && r.size == 0 && r.mask == 0,
            r.descs@.len() == 0,
    {
        Ring { producer: 0, consumer: 0, flags: 0, descs: Vec::new(), size: 0, mask: 0 }
    }

    /// An empty ring of the given size.
    pub fn with_size(size: u32, fill: T) -> (r: Self)
        requires
            size > 0,
            0x1_0000_0000int % size as int == 0,
        ensures
            r.wf(),
            r.size == size,
            r.waiting() == Seq::<T>::empty(),
            r.flags == 0,
    {
        let mut descs: Vec<T> = Vec::with_capacity(size as usize);
        while descs.len() < size as usize
            invariant
                descs@.len() <= size,
            decreases size - descs@.len(),
        {
            descs.push(fill);
        }
        let r = Ring { producer: 0, consumer: 0, flags: 0, descs, size, mask: size - 1 };
        assert(r.waiting() =~= Seq::<T>::empty());
        r
    }

    /// Appends as many entries as there is room for; the result is their number.
    pub fn push_batch(&mut self, items: &[T]) -> (n: usize)
        requires
            old(self).wf(),
        ensures
            final(self).wf(),
            n == if items@.len() <= old(self).size - old(self).waiting().len() {
                items@.len() as int
            } else {
                old(self).size - old(self).waiting().len()
            },
            final(self).waiting() == old(self).waiting() + items@.take(n as int),
            final(self).consumer == old(self).consumer,
            final(self).flags == old(self).flags,
            final(self).size == old(self).size,
    {
        let prod: u32 = self.producer;
        let n: u32 = ring_takes(self.producer, self.consumer, self.size, items.len());
        let ghost used = between(self.consumer, self.producer);
        let ghost start = self.descs@;
        let mut i: u32 = 0;
        while i < n
            invariant
                i <= n,
                n <= items@.len(),
                self.size > 0,
                0x1_0000_0000int % self.size as int == 0,
                self.descs@.len() == self.size,
                start.len() == self.size,
                self.consumer == old(self).consumer,
                self.producer == old(self).producer,
                self.flags == old(self).flags,
                self.size == old(self).size,
                self.mask == old(self).mask,
                prod == self.producer,
                used == between(self.consumer, self.producer),
                used + n <= self.size,
                forall|j: int|
                    #![trigger advanced(self.consumer, j)]
                    0 <= j < used ==> self.descs@[advanced(self.consumer, j) % self.size as int]
                        == start[advanced(self.consumer, j) % self.size as int],
                forall|j: int|
                    #![trigger advanced(self.consumer, j)]
                    used <= j < used + i ==> self.descs@[advanced(self.consumer, j)
                        % self.size as int] == items@[j - used],
            decreases n - i,
        {
            let idx: u32 = ring_slot(prod, i, self.size);
            proof {
                lemma_between_advanced(self.consumer, self.producer);
                lemma_advance_twice(self.consumer, used, i as int);
                assert(idx == advanced(self.consumer, used + i) % self.size as int);
                assert forall|j: int| 0 <= j < used + i implies #[trigger] advanced(
                    self.consumer,
                    j,
                ) % self.size as int != idx as int by {
                    lemma_slots_differ(self.consumer, j, used + i, self.size);
                }
            }
            self.descs[idx as usize] = items[i as usize];
            i += 1;
        }
        self.producer = prod.wrapping_add(n);
        proof {
            lemma_between_advanced(self.consumer, prod);
            assert(between(self.consumer, self.producer) == used + n) by {
                assert(self.producer == advanced(prod, n as int));
                assert(used + n <= self.size);
            }
            assert(self.waiting() =~= old(self).waiting() + items@.take(n as int));
        }
        n as usize
    }

    /// Takes out every entry that waits, the oldest first.
    pub fn pop_all(&mut self) -> (out: Vec<T>)
        requires
            old(self).wf(),
        ensures
            final(self).wf(),
            out@ == old(self).waiting(),
            final(self).waiting() == Seq::<T>::empty(),
            final(self).producer == old(self).producer,
            final(self).flags == old(self).flags,
            final(self).size == old(self).size,
    {
        let cons: u32 = self.consumer;
        let available: u32 = ring_used(self.producer, self.consumer);
        let mut out: Vec<T> = Vec::with_capacity(available as usize);
        let mut i: u32 = 0;
        while i < available
            invariant
                i <= available,
                self.wf(),
                *self == *old(self),
                cons == self.consumer,
                available == between(self.consumer, self.producer),
                out@ == self.waiting().take(i as int),
            decreases available - i,
        {
            let idx: u32 = ring_slot(cons, i, self.size);
            out.push(self.descs[idx as usize]);
            assert(self.waiting().take(i + 1) =~= self.waiting().take(i as int).push(
                self.waiting()[i as int],
            ));
            i += 1;
        }
        assert(out@ =~= old(self).waiting());
        self.consumer = cons.wrapping_add(available);
        assert(self.consumer == self.producer);
        assert(self.waiting() =~= Seq::<T>::empty());
        out
    }

    /// Whether the other side asks for a wake-up.
    pub fn needs_wakeup(&self) -> (r: bool)
        ensures
            r == (self.flags % 2 == 1),
    {
        let f: u32 = self.flags;
        assert((f & 1 != 0) == (f % 2 == 1)) by (bit_vector);
        (f & XDP_RING_NEED_WAKEUP) != 0
    }
}

/// A ring of frame addresses: those to fill, and those that are sent.
#[derive(Debug)]
pub struct AddrRing {
    pub ring: Ring<u64>,
}

impl AddrRing {
    /// See [`Ring::wf`].
    pub open spec fn wf(self) -> bool {
        self.ring.wf()
    }

    /// The addresses that wait, the oldest first.
    pub open spec fn waiting(self) -> Seq<u64> {
        self.ring.waiting()
    }

    /// A ring without room.
    pub fn zeroed() -> (r: Self)
        ensures
            r.ring.is_stub(),
    {
        AddrRing { ring: Ring::zeroed() }
    }

    /// An empty ring of the given size.
    pub fn with_size(size: u32) -> (r: Self)
        requires
            size > 0,
            0x1_0000_0000int % size as int == 0,
        ensures
            r.wf(),
            r.ring.size == size,
            r.waiting() == Seq::<u64>::empty(),
    {
        AddrRing { ring: Ring::with_size(size, 0) }
    }

    /// Hands over as many addresses as there is room for; the result is their
    /// number.
    pub fn enqueue_batch(&mut self, addrs: &[u64]) -> (n: usize)
        requires
            old(self).wf(),
        ensures
            final(self).wf(),
            final(self).ring.size == old(self).ring.size,
            n == if addrs@.len() <= old(self).ring.size - old(self).waiting().len() {
                addrs@.len() as int
            } else {
                old(self).ring.size - old(self).waiting().len()
            },
            final(self).waiting() == old(self).waiting() + addrs@.take(n as int),
    {
        self.ring.push_batch(addrs)
    }

    /// Takes out every address that waits.
    pub fn dequeue_all(&mut self) -> (out: Vec<u64>)
        requires
            old(self).wf(),
        ensures
            final(self).wf(),
            final(self).ring.size == old(self).ring.size,
            out@ == old(self).waiting(),
            final(self).waiting() == Seq::<u64>::empty(),
    {
        self.ring.pop_all()
    }

    /// Whether the kernel asks for a wake-up.
    pub fn needs_wakeup(&self) -> (r: bool)
        ensures
            r == (self.ring.flags % 2 == 1),
    {
        self.ring.needs_wakeup()
    }
}

/// A ring of frames: those that are received, and those to send.
#[derive(Debug)]
pub struct DescRing {
    pub ring: Ring<XdpDesc>,
}

impl DescRing {
    /// See [`Ring::wf`].
    pub open spec fn wf(self) -> bool {
        self.ring.wf()
    }

    /// The frames that wait, the oldest first.
    pub open spec fn waiting(self) -> Seq<XdpDesc> {
        self.ring.waiting()
    }

    /// A ring without room.
    pub fn zeroed() -> (r: Self)
        ensures
            r.ring.is_stub(),
    {
        DescRing { ring: Ring::zeroed() }
    }

    /// An empty ring of the given size.
    pub fn with_size(size: u32) -> (r: Self)
        requires
            size > 0,
            0x1_0000_0000int % size as int == 0,
        ensures
            r.wf(),
            r.ring.size == size,
            r.waiting() == Seq::<XdpDesc>::empty(),
    {
        DescRing { ring: Ring::with_size(size, XdpDesc { addr: 0, len: 0, options: 0 }) }
    }

    /// Hands over as many frames to send as there is room for; the result is
    /// their number.
    pub fn produce_tx(&mut self, descs: &[XdpDesc]) -> (n: usize)
        requires
            old(self).wf(),
        ensures
            final(self).wf(),
            final(self).ring.size == old(self).ring.size,
            n == if descs@.len() <= old(self).ring.size - old(self).waiting().len() {
                descs@.len() as int
            } else {
                old(self).ring.size - old(self).waiting().len()
            },
            final(self).waiting() == old(self).waiting() + descs@.take(n as int),
    {
        self.ring.push_batch(descs)
    }

    /// Takes out every frame that was received.
    pub fn consume_rx(&mut self) -> (out: Vec<XdpDesc>)
        requires
            old(self).wf(),
        ensures
            final(self).wf(),
            final(self).ring.size == old(self).ring.size,
            out@ == old(self).waiting(),
            final(self).waiting() == Seq::<XdpDesc>::empty(),
    {
        self.ring.pop_all()
    }

    /// Whether the kernel asks for a wake-up.
    pub fn needs_wakeup(&self) -> (r: bool)
        ensures
            r == (self.ring.flags % 2 == 1),
    {
        self.ring.needs_wakeup()
    }
}

/// The addresses of the frames from `from` up to `to`.
pub open spec fn frame_addrs(from: int, to: int) -> Seq<u64> {
    Seq::new((to - from) as nat, |i: int| ((from + i) * FRAME_SIZE) as u64)
}

/// The shared memory: how long it is and the two rings that go with it.
#[derive(Debug)]
pub struct Umem {
    pub area_len: usize,
    /// Frames for the NIC to fill.
    pub fill: AddrRing,
    /// Frames that the NIC has sent.
    pub comp: AddrRing,
}

impl Umem {
    /// Lays the memory out on pages of the given size. The first frames, as many
    /// as a ring has entries, go to the NIC to fill; the others are handed back
    /// as the pool to send from.
    pub fn new(page: usize) -> (r: (Self, Vec<u64>))
        requires
            0 < page <= 0x4000_0000,
        ensures
            r.0.area_len >= FRAME_COUNT * FRAME_SIZE,
            r.0.area_len < FRAME_COUNT * FRAME_SIZE + page,
            r.0.area_len % page == 0,
            r.0.fill.wf(),
            r.0.fill.waiting() == frame_addrs(0, RING_SIZE as int),
            r.0.comp.wf(),
            r.0.comp.waiting() == Seq::<u64>::empty(),
            r.1@ == frame_addrs(RING_SIZE as int, FRAME_COUNT as int),
    {
        let bytes: usize = 16_777_216;
        let pages: usize = (bytes + page - 1) / page;
        proof {
            lemma_fundamental_div_mod(bytes + page - 1, page as int);
            assert(pages * page <= bytes + page - 1) by (nonlinear_arith)
                requires
                    bytes + page - 1 == page * pages + (bytes + page - 1) % page as int,
                    (bytes + page - 1) % page as int >= 0,
            ;
            assert(pages * page >= bytes) by (nonlinear_arith)
                requires
                    bytes + page - 1 == page * pages + (bytes + page - 1) % page as int,
                    (bytes + page - 1) % (page as int) < page,
            ;
            vstd::arithmetic::div_mod::lemma_mod_multiples_basic(pages as int, page as int);
        }
        let area_len: usize = pages * page;
        let mut fill = AddrRing::with_size(RING_SIZE);
        let comp = AddrRing::with_size(RING_SIZE);
        let rx = addrs_of(0, RING_SIZE);
        let n: usize = fill.enqueue_batch(rx.as_slice());
        assert(rx@.take(n as int) =~= rx@);
        assert(fill.waiting() =~= frame_addrs(0, RING_SIZE as int));
        let tx_pool = addrs_of(RING_SIZE, FRAME_COUNT);
        (Umem { area_len, fill, comp }, tx_pool)
    }

    /// Whether a stretch of memory lies inside.
    pub fn holds(&self, offset: u64, len: usize) -> (r: bool)
        ensures
            r == (offset + len <= self.area_len),
    {
        (offset as u128) + (len as u128) <= self.area_len as u128
    }
}

/// The addresses of the frames from `from` up to `to`.
fn addrs_of(from: u32, to: u32) -> (v: Vec<u64>)
    requires
        from <= to <= FRAME_COUNT,
    ensures
        v@ == frame_addrs(from as int, to as int),
{
    let mut v: Vec<u64> = Vec::new();
    let mut i: u32 = from;
    while i < to
        invariant
            from <= i <= to <= FRAME_COUNT,
            v@ == frame_addrs(from as int, i as int),
        decreases to - i,
    {
        v.push((i * FRAME_SIZE) as u64);
        assert(v@ =~= frame_addrs(from as int, i + 1));
        i += 1;
    }
    v
}

/// No frame to fill is a frame to send, and every frame lies in the memory.
pub proof fn frames_are_apart(i: int, j: int)
    requires
        0 <= i < RING_SIZE,
        0 <= j < FRAME_COUNT - RING_SIZE,
    ensures
        frame_addrs(0, RING_SIZE as int)[i] + FRAME_SIZE <= frame_addrs(
            RING_SIZE as int,
            FRAME_COUNT as int,
        )[j],
        frame_addrs(RING_SIZE as int, FRAME_COUNT as int)[j] + FRAME_SIZE <= FRAME_COUNT
            * FRAME_SIZE,
{
}

/// How the memory is made known to the kernel.
pub fn umem_reg(addr: u64, len: u64) -> (r: XdpUmemReg)
    ensures
        r == (XdpUmemReg {
            addr,
            len,
            chunk_size: FRAME_SIZE,
            headroom: 0,
            flags: 0,
            tx_metadata_len: 0,
        }),
{
    XdpUmemReg { addr, len, chunk_size: FRAME_SIZE, headroom: 0, flags: 0, tx_metadata_len: 0 }
}

/// The length of the mapping of a ring whose entries have `entry` bytes.
pub fn ring_map_len(off: &XdpRingOffsets, size: u32, entry: usize) -> (r: Option<usize>)
    ensures
        r == if off.desc + size * entry <= usize::MAX {
            Some((off.desc + size * entry) as usize)
        } else {
            None
        },
{
    assert(0 <= size * entry <= 0xFFFF_FFFF * 0xFFFF_FFFF_FFFF_FFFF) by (nonlinear_arith)
        requires
            0 <= size <= 0xFFFF_FFFF,
            0 <= entry <= 0xFFFF_FFFF_FFFF_FFFF,
    ;
    let wide: u128 = (size as u128) * (entry as u128);
    let total: u128 = (off.desc as u128) + wide;
    if total <= usize::MAX as u128 {
        Some(total as usize)
    } else {
        None
    }
}

/// The address of a queue of an interface; a first attempt asks for zero copy.
pub fn bind_addr(ifindex: u32, queue_id: u32, zero_copy: bool) -> (r: SockaddrXdp)
    ensures
        r == (SockaddrXdp {
            sxdp_family: AF_XDP,
            sxdp_flags: if zero_copy {
                12
            } else {
                10
            },
            sxdp_ifindex: ifindex,
            sxdp_queue_id: queue_id,
            sxdp_shared_umem_fd: 0,
        }),
{
    let mode: u16 = if zero_copy {
        XDP_ZEROCOPY
    } else {
        XDP_COPY
    };
    assert(8u16 | 4u16 == 12u16 && 8u16 | 2u16 == 10u16) by (bit_vector);
    SockaddrXdp {
        sxdp_family: AF_XDP,
        sxdp_flags: XDP_USE_NEED_WAKEUP | mode,
        sxdp_ifindex: ifindex,
        sxdp_queue_id: queue_id,
        sxdp_shared_umem_fd: 0,
    }
}

/// The address to which a kick of the send ring goes.
pub fn kick_addr(ifindex: u32, queue_id: u32) -> (r: SockaddrXdp)
    ensures
        r == (SockaddrXdp {
            sxdp_family: AF_XDP,
            sxdp_flags: 0,
            sxdp_ifindex: ifindex,
            sxdp_queue_id: queue_id,
            sxdp_shared_umem_fd: 0,
        }),
{
    SockaddrXdp {
        sxdp_family: AF_XDP,
        sxdp_flags: 0,
        sxdp_ifindex: ifindex,
        sxdp_queue_id: queue_id,
        sxdp_shared_umem_fd: 0,
    }
}

/// A frame has four kilobytes, and the frames follow each other without a gap.
pub proof fn frames_follow_each_other(from: int, to: int, i: int)
    requires
        0 <= from <= to <= 4096,
        0 <= i < to - from,
    ensures
        frame_addrs(from, to).len() == to - from,
        frame_addrs(from, to)[i] == 4096 * (from + i),
{
}

/// Running numbers count on round their end, and the distance between two is how far
/// one has to count to get from the first to the second.
pub proof fn running_numbers_count_on(from: u32, n: int)
    requires
        0 <= n <= 0xFFFF_FFFF,
    ensures
        from + n <= 0xFFFF_FFFF ==> advanced(from, n) == from + n,
        from + n > 0xFFFF_FFFF ==> advanced(from, n) == from + n - 0x1_0000_0000,
        between(from, advanced(from, n) as u32) == n,
{
}

/// There are 4096 frames of 4096 bytes, a ring for half of them, and flags of one bit each.
pub proof fn memory_has_its_sizes()
    ensures
        FRAME_SIZE == 4096,
        FRAME_COUNT == 4096,
        RING_SIZE * 2 == 4096,
        XDP_RING_NEED_WAKEUP == 1,
        XDP_COPY == 2,
        XDP_ZEROCOPY == 4,
        XDP_USE_NEED_WAKEUP == 8,
        AF_XDP == 44,
{
}

} // verus!
