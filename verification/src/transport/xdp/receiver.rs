//! Starting the path around the kernel, and the thread that only receives.

use vstd::prelude::*;

use crate::query::WireQueryPool;
use crate::stats::{lemma_unaccounted, rcode_class, wrap, StatsCollector};
use crate::text::{
    chars_of, decimal, fields, find_char, find_from, is_space, lacks, lemma_find_from,
    lemma_trim_keeps, number, numbers_are_read_back, parse_number, separators_end_fields,
    split_fields, trim, trimmed, views,
};
use crate::transport::slots::{age, overdue_ages, swept};
use crate::transport::SWEEP_NS;

use super::frame::FrameHeader;
use super::in_flight::InFlight;
use super::parse::{parse_dns_from_frame, reply_of};

verus! {

/// After how many idle turns the receiver sleeps.
pub const IDLE_SPINS: u32 = 1024;

/// How many cores of other nodes a NIC may use on a machine of two nodes.
pub const REMOTE_CORE_CAP: usize = 6;

/// How many cores a NIC may use on a machine of more nodes.
pub const PORT_CORE_CAP: usize = 12;

/// The source port before a worker sets its own.
pub const DEFAULT_PORT: u16 = 12345;

/// What the receiver does when there is nothing to receive.
#[derive(Debug, Clone, Copy, PartialEq, Eq, Structural)]
pub struct IdleStep {
    /// Wake the driver up.
    pub kick: bool,
    /// Sleep for up to a millisecond in place of a spin.
    pub poll: bool,
}

/// The state of a thread that only receives. Times are nanoseconds on one clock.
#[derive(Debug)]
pub struct XdpReceiver {
    pub last_timeout_check: u64,
    pub idle_spins: u32,
    pub timeout_ns: u64,
    /// Whether latency is sampled.
    pub track_latency: bool,
}

impl XdpReceiver {
    /// The idle turns are counted up to the next sleep.
    pub open spec fn wf(self) -> bool {
        self.idle_spins < IDLE_SPINS
    }

    /// A receiver that starts now.
    pub fn new(timeout_ns: u64, track_latency: bool, now_ns: u64) -> (r: Self)
        ensures
            r.wf(),
            r == (XdpReceiver {
                last_timeout_check: now_ns,
                idle_spins: 0,
                timeout_ns,
                track_latency,
            }),
    {
        XdpReceiver { last_timeout_check: now_ns, idle_spins: 0, timeout_ns, track_latency }
    }

    /// Takes note of an idle turn.
    pub fn on_idle(&mut self, needs_wakeup: bool) -> (r: IdleStep)
        requires
            old(self).wf(),
        ensures
            final(self).wf(),
            r.kick == needs_wakeup,
            r.poll == (old(self).idle_spins + 1 >= IDLE_SPINS),
            *final(self) == (XdpReceiver {
                idle_spins: if r.poll {
                    0
                } else {
                    (old(self).idle_spins + 1) as u32
                },
                ..*old(self)
            }),
    {
        self.idle_spins += 1;
        let poll: bool = self.idle_spins >= IDLE_SPINS;
        if poll {
            self.idle_spins = 0;
        }
        IdleStep { kick: needs_wakeup, poll }
    }

    /// Takes note that something was received.
    pub fn on_busy(&mut self)
        ensures
            final(self).wf(),
            *final(self) == (XdpReceiver { idle_spins: 0, ..*old(self) }),
    {
        self.idle_spins = 0;
    }

    /// Takes in a frame; the result is whether it answers a query in flight. Such a
    /// frame is counted, and its latency too where that is sampled.
    pub fn on_frame(
        &self,
        frame: &[u8],
        now_ns: u64,
        in_flight: &mut InFlight,
        stats: &mut StatsCollector,
    ) -> (completed: bool)
        requires
            old(in_flight).wf(),
            old(stats).wf(),
            old(stats).room_for(1),
        ensures
            final(in_flight).wf(),
            final(stats).wf(),
            completed == (reply_of(frame@) matches Some((id, rcode))
                && old(in_flight).slots@[id as int] != 0),
            !completed ==> {
                &&& final(in_flight).slots@ == old(in_flight).slots@
                &&& *final(stats) == *old(stats)
            },
            completed ==> {
                let (id, rcode) = reply_of(frame@)->0;
                &&& final(in_flight).slots@ == old(in_flight).slots@.update(id as int, 0)
                &&& final(stats).counted(
                    *old(stats),
                    Seq::new(5, |i: int| if i == rcode_class(rcode) { 1int } else { 0int }),
                )
                &&& if self.track_latency {
                    final(stats).measured(
                        *old(stats),
                        age(now_ns, old(in_flight).slots@[id as int]) / 1000,
                    )
                } else {
                    final(stats).histogram == old(stats).histogram
                }
            },
            final(stats).sent == old(stats).sent,
            final(stats).timeouts == old(stats).timeouts,
            final(stats).errors == old(stats).errors,
            final(stats).same_depths(*old(stats)),
            final(stats).samples() <= old(stats).samples() + 1,
            final(stats).unaccounted(final(in_flight).count() as int) == old(stats).unaccounted(
                old(in_flight).count() as int,
            ),
    {
        match parse_dns_from_frame(frame) {
            None => false,
            Some((id, rcode)) => {
                match in_flight.take(id, now_ns) {
                    None => {
                        assert(in_flight.slots@ =~= old(in_flight).slots@);
                        false
                    },
                    Some(rtt_us) => {
                        if self.track_latency {
                            stats.record_response(rcode, rtt_us);
                        } else {
                            stats.count_response(rcode);
                        }
                        proof {
                            lemma_unaccounted(
                                *old(stats),
                                old(in_flight).count() as int,
                                *stats,
                                in_flight.count() as int,
                                0,
                                1,
                                0,
                            );
                        }
                        true
                    },
                }
            },
        }
    }

    /// Ends a batch in which `completed` queries were answered.
    pub fn on_batch_end(&self, completed: usize, global_in_flight: &mut usize)
        ensures
            *final(global_in_flight) == if *old(global_in_flight) >= completed {
                *old(global_in_flight) - completed
            } else {
                0
            },
    {
        *global_in_flight = global_in_flight.saturating_sub(completed);
    }

    /// Counts the queries that are overdue as timeouts, if the last look was long
    /// enough ago.
    pub fn tick(
        &mut self,
        now_ns: u64,
        in_flight: &mut InFlight,
        global_in_flight: &mut usize,
        stats: &mut StatsCollector,
    )
        requires
            old(in_flight).wf(),
            old(stats).wf(),
        ensures
            final(in_flight).wf(),
            final(stats).wf(),
            age(now_ns, old(self).last_timeout_check) < SWEEP_NS ==> {
                &&& *final(self) == *old(self)
                &&& *final(in_flight) == *old(in_flight)
                &&& *final(global_in_flight) == *old(global_in_flight)
                &&& *final(stats) == *old(stats)
            },
            age(now_ns, old(self).last_timeout_check) >= SWEEP_NS ==> {
                let n = overdue_ages(
                    old(in_flight).slots@,
                    now_ns,
                    old(self).timeout_ns,
                    true,
                ).len();
                &&& final(in_flight).slots@ == swept(
                    old(in_flight).slots@,
                    now_ns,
                    old(self).timeout_ns,
                    true,
                )
                &&& final(stats).timeouts == wrap(old(stats).timeouts + n)
                &&& *final(global_in_flight) == if *old(global_in_flight) >= n {
                    *old(global_in_flight) - n
                } else {
                    0
                }
                &&& *final(self) == (XdpReceiver { last_timeout_check: now_ns, ..*old(self) })
            },
            final(stats).sent == old(stats).sent,
            final(stats).errors == old(stats).errors,
            final(stats).same_responses(*old(stats)),
            final(stats).same_depths(*old(stats)),
            final(stats).histogram == old(stats).histogram,
            final(stats).unaccounted(final(in_flight).count() as int) == old(stats).unaccounted(
                old(in_flight).count() as int,
            ),
    {
        if now_ns.saturating_sub(self.last_timeout_check) >= SWEEP_NS {
            let n: usize = in_flight.sweep_with_ages(now_ns, self.timeout_ns).len();
            stats.inc_timeouts(n);
            *global_in_flight = global_in_flight.saturating_sub(n);
            self.last_timeout_check = now_ns;
            proof {
                lemma_unaccounted(
                    *old(stats),
                    old(in_flight).count() as int,
                    *stats,
                    in_flight.count() as int,
                    0,
                    0,
                    n as int,
                );
            }
        }
    }
}

/// What the workers of a NIC are given.
pub struct UnifiedCfg {
    pub wire_pool: WireQueryPool,
    pub qps_per_worker: u64,
    pub max_outstanding: usize,
    /// The rate of all workers together; zero is no rate.
    pub total_qps: u64,
}

/// Sets the configuration of the workers, where none is set yet.
pub fn set_unified_cfg(slot: &mut Option<UnifiedCfg>, cfg: UnifiedCfg)
    ensures
        *final(slot) == if *old(slot) is Some {
            *old(slot)
        } else {
            Some(cfg)
        },
{
    if slot.is_none() {
        *slot = Some(cfg);
    }
}

/// The rate of one worker once it is known how many there are: the whole rate
/// divided evenly, and one at least.
pub open spec fn share_of(total_qps: u64, n_workers: int) -> u64 {
    if total_qps as int / n_workers == 0 {
        1
    } else {
        (total_qps as int / n_workers) as u64
    }
}

impl UnifiedCfg {
    /// Divides the rate by the number of workers that really run.
    pub fn recalibrate(&mut self, n_unified: usize)
        ensures
            *final(self) == (UnifiedCfg {
                qps_per_worker: if n_unified > 0 && old(self).total_qps > 0 {
                    share_of(old(self).total_qps, n_unified as int)
                } else {
                    old(self).qps_per_worker
                },
                ..*old(self)
            }),
    {
        if n_unified > 0 && self.total_qps > 0 {
            let share: u64 = self.total_qps / (n_unified as u64);
            self.qps_per_worker = if share == 0 {
                1
            } else {
                share
            };
        }
    }
}

/// How many of the first `n` cores are on a node.
pub open spec fn on_node(nodes: Seq<Option<usize>>, node: Option<usize>, n: nat) -> nat
    decreases n,
{
    if n == 0 {
        0
    } else {
        on_node(nodes, node, (n - 1) as nat) + if nodes[n - 1] == node {
            1nat
        } else {
            0nat
        }
    }
}

proof fn lemma_on_node(nodes: Seq<Option<usize>>, node: Option<usize>, n: nat)
    ensures
        on_node(nodes, node, n) <= n,
    decreases n,
{
    if n > 0 {
        lemma_on_node(nodes, node, (n - 1) as nat);
    }
}

/// Which cores the workers of a NIC may use, and how many workers there are.
#[derive(Debug, Clone, Copy, PartialEq, Eq, Structural)]
pub struct CorePlan {
    /// The cores of the NIC's node; one at least.
    pub n_local: usize,
    /// How many of the cores, sorted with those of the NIC's node first, are used.
    pub pool_len: usize,
    pub queue_count: usize,
}

/// Whether some cores lie on more than two nodes.
pub open spec fn many_nodes(nodes: Seq<Option<usize>>) -> bool {
    exists|i: int, j: int, k: int|
        {
            &&& 0 <= i < nodes.len() && 0 <= j < nodes.len() && 0 <= k < nodes.len()
            &&& #[trigger] nodes[i] is Some && #[trigger] nodes[j] is Some
                && #[trigger] nodes[k] is Some
            &&& nodes[i] != nodes[j] && nodes[j] != nodes[k] && nodes[i] != nodes[k]
        }
}

/// Whether some cores lie on more than two nodes.
fn has_many_nodes(nodes: &Vec<Option<usize>>) -> (r: bool)
    ensures
        r == many_nodes(nodes@),
{
    let mut first: Option<usize> = None;
    let mut second: Option<usize> = None;
    let ghost mut at: (int, int) = (0, 0);
    let mut i: usize = 0;
    while i < nodes.len()
        invariant
            i <= nodes@.len(),
            first is None ==> second is None,
            first is Some ==> 0 <= at.0 < i && nodes@[at.0] == first,
            second is Some ==> 0 <= at.1 < i && nodes@[at.1] == second && first != second,
            forall|k: int|
                0 <= k < i && #[trigger] nodes@[k] is Some ==> nodes@[k] == first || nodes@[k]
                    == second,
        decreases nodes@.len() - i,
    {
        if let Some(n) = nodes[i] {
            match (first, second) {
                (None, _) => {
                    first = Some(n);
                    proof {
                        at = (i as int, 0);
                    }
                },
                (Some(a), None) => {
                    if n != a {
                        second = Some(n);
                        proof {
                            at = (at.0, i as int);
                        }
                    }
                },
                (Some(a), Some(b)) => {
                    if n != a && n != b {
                        assert(nodes@[at.0] is Some && nodes@[at.1] is Some && nodes@[i as int] is Some);
                        return true;
                    }
                },
            }
        }
        i += 1;
    }
    false
}

/// The cores of the NIC's own node and up to six of other nodes; one worker for
/// each queue, but no more than there are cores on the NIC's node. On a machine of
/// more than two nodes a NIC has up to twelve workers, on any of the cores.
pub open spec fn core_plan(nodes: Seq<Option<usize>>, nic_node: Option<usize>, hw_queues: usize) -> CorePlan {
    let counted = on_node(nodes, nic_node, nodes.len());
    let n_local = if counted == 0 {
        1
    } else {
        counted as int
    };
    let others = if nodes.len() >= n_local {
        nodes.len() - n_local
    } else {
        0
    };
    let n_remote = if others < REMOTE_CORE_CAP {
        others
    } else {
        REMOTE_CORE_CAP as int
    };
    let many = many_nodes(nodes);
    let cap = if !many {
        n_local
    } else if nodes.len() < PORT_CORE_CAP {
        nodes.len() as int
    } else {
        PORT_CORE_CAP as int
    };
    let queues = if hw_queues < cap {
        hw_queues as int
    } else {
        cap
    };
    CorePlan {
        n_local: n_local as usize,
        pool_len: (if !many && n_local + n_remote < nodes.len() {
            n_local + n_remote
        } else {
            nodes.len() as int
        }) as usize,
        queue_count: (if queues == 0 {
            1
        } else {
            queues
        }) as usize,
    }
}

/// Plans the workers of a NIC from the nodes of the physical cores.
pub fn plan_cores(nodes: &Vec<Option<usize>>, nic_node: Option<usize>, hw_queues: usize) -> (r:
    CorePlan)
    ensures
        r == core_plan(nodes@, nic_node, hw_queues),
{
    let total: usize = nodes.len();
    let mut n_local: usize = 0;
    let mut i: usize = 0;
    while i < total
        invariant
            i <= total,
            total == nodes@.len(),
            n_local == on_node(nodes@, nic_node, i as nat),
            n_local <= i,
        decreases total - i,
    {
        let same: bool = match (nodes[i], nic_node) {
            (Some(a), Some(b)) => a == b,
            (None, None) => true,
            _ => false,
        };
        if same {
            n_local += 1;
        }
        i += 1;
    }
    if n_local == 0 {
        n_local = 1;
    }
    let others: usize = total.saturating_sub(n_local);
    let n_remote: usize = if others < REMOTE_CORE_CAP {
        others
    } else {
        REMOTE_CORE_CAP
    };
    let many: bool = has_many_nodes(nodes);
    let pool_len: usize = if !many && n_local <= total {
        n_local + n_remote
    } else {
        total
    };
    let cap: usize = if !many {
        n_local
    } else if total < PORT_CORE_CAP {
        total
    } else {
        PORT_CORE_CAP
    };
    let queues: usize = if hw_queues < cap {
        hw_queues
    } else {
        cap
    };
    let queue_count: usize = if queues == 0 {
        1
    } else {
        queues
    };
    CorePlan { n_local, pool_len, queue_count }
}

/// Gives each queue of a NIC the next core of the pool. The cursor runs on over
/// all NICs; where the pool is used up no further queue gets a core.
pub fn assign_cores(pool: &Vec<usize>, queue_count: usize, cursor: &mut usize) -> (cores: Vec<
    usize,
>)
    requires
        *old(cursor) + queue_count < usize::MAX,
    ensures
        cores@.len() == {
            let left = if pool@.len() >= *old(cursor) {
                pool@.len() - *old(cursor)
            } else {
                0
            };
            if queue_count < left {
                queue_count as int
            } else {
                left
            }
        },
        forall|q: int| 0 <= q < cores@.len() ==> cores@[q] == pool@[*old(cursor) + q],
        *final(cursor) == *old(cursor) + cores@.len() + if cores@.len() < queue_count {
            1int
        } else {
            0int
        },
{
    let mut cores: Vec<usize> = Vec::new();
    let start: usize = *cursor;
    let mut q: usize = 0;
    while q < queue_count
        invariant
            q <= queue_count,
            start == *old(cursor),
            start + queue_count < usize::MAX,
            *cursor == start + q,
            cores@.len() == q,
            q > 0 ==> start + q <= pool@.len(),
            forall|k: int| 0 <= k < q ==> cores@[k] == pool@[start + k],
        decreases queue_count - q,
    {
        let gi: usize = *cursor;
        *cursor = gi + 1;
        if gi >= pool.len() {
            return cores;
        }
        cores.push(pool[gi]);
        q += 1;
    }
    cores
}

/// The processors from `a` up to and with `b`.
pub open spec fn cpu_range(a: int, b: int) -> Seq<usize> {
    Seq::new(
        if b >= a {
            (b - a + 1) as nat
        } else {
            0
        },
        |i: int| (a + i) as usize,
    )
}

/// The processors that a part of a list names: one, or a range.
pub open spec fn cpu_part(s: Seq<char>) -> Seq<usize> {
    let d = find_from(s, 0, '-');
    let max = usize::MAX as int;
    if d < s.len() {
        match (number(trim(s.take(d)), 10, max), number(trim(s.skip(d + 1)), 10, max)) {
            (Some(a), Some(b)) => cpu_range(a, b),
            _ => Seq::empty(),
        }
    } else {
        match number(trim(s), 10, max) {
            Some(a) => seq![a as usize],
            None => Seq::empty(),
        }
    }
}

/// The processors of the first `n` parts.
pub open spec fn cpu_parts(parts: Seq<Seq<char>>, n: nat) -> Seq<usize>
    decreases n,
{
    if n == 0 {
        Seq::empty()
    } else {
        cpu_parts(parts, (n - 1) as nat) + cpu_part(parts[n - 1])
    }
}

/// The processors that a list such as `0-3,8` names; what cannot be read is left
/// out.
pub open spec fn cpu_list(s: Seq<char>) -> Seq<usize> {
    let parts = fields(trim(s), ',');
    cpu_parts(parts, parts.len())
}

/// Appends the processors that a part of a list names.
fn push_cpu_part(v: &mut Vec<usize>, s: &[char])
    ensures
        final(v)@ == old(v)@ + cpu_part(s@),
{
    let d: usize = find_char(s, 0, '-');
    if d < s.len() {
        let left = vstd::slice::slice_subrange(s, 0, d);
        let right = vstd::slice::slice_subrange(s, d + 1, s.len());
        assert(left@ =~= s@.take(d as int));
        assert(right@ =~= s@.skip(d + 1));
        let a = parse_number(trimmed(left).as_slice(), 10, usize::MAX as u64);
        let b = parse_number(trimmed(right).as_slice(), 10, usize::MAX as u64);
        match (a, b) {
            (Some(a), Some(b)) => {
                let (a, b): (usize, usize) = (a as usize, b as usize);
                assert(cpu_part(s@) == cpu_range(a as int, b as int));
                if a <= b {
                    let n: usize = b - a;
                    let mut i: usize = 0;
                    while i < n
                        invariant
                            i <= n,
                            a <= b,
                            n == b - a,
                            v@ == old(v)@ + cpu_range(a as int, a + i - 1),
                        decreases n - i,
                    {
                        v.push(a + i);
                        assert(v@ =~= old(v)@ + cpu_range(a as int, a + i));
                        i += 1;
                    }
                    v.push(b);
                    assert(v@ =~= old(v)@ + cpu_range(a as int, b as int));
                } else {
                    assert(v@ =~= old(v)@ + cpu_range(a as int, b as int));
                }
            },
            _ => {
                assert(v@ =~= old(v)@ + cpu_part(s@));
            },
        }
    } else {
        match parse_number(trimmed(s).as_slice(), 10, usize::MAX as u64) {
            Some(a) => {
                v.push(a as usize);
                assert(v@ =~= old(v)@ + seq![a as usize]);
            },
            None => {
                assert(v@ =~= old(v)@ + cpu_part(s@));
            },
        }
    }
}

/// Reads a list of processors.
pub fn parse_cpu_list(text: &str) -> (v: Vec<usize>)
    ensures
        v@ == cpu_list(text@),
{
    let chars = chars_of(text);
    let t = trimmed(chars.as_slice());
    let parts = split_fields(t.as_slice(), ',');
    let ghost pv = fields(trim(text@), ',');
    assert(views(parts@) == pv);
    let mut v: Vec<usize> = Vec::new();
    let mut i: usize = 0;
    while i < parts.len()
        invariant
            i <= parts@.len(),
            views(parts@) == pv,
            v@ == cpu_parts(pv, i as nat),
        decreases parts@.len() - i,
    {
        assert(pv[i as int] == parts@[i as int]@);
        push_cpu_part(&mut v, parts[i].as_slice());
        i += 1;
    }
    v
}

/// The processor for the receiver of a queue: the upper half of the NIC's
/// processors, its hyper-threads, in turn.
pub fn recv_cpu(local_cpus: &Vec<usize>, q: usize) -> (r: Option<usize>)
    ensures
        r == if local_cpus@.len() >= 2 {
            let half = local_cpus@.len() as int / 2;
            Some(local_cpus@[half + q as int % half])
        } else {
            None
        },
{
    if local_cpus.len() >= 2 {
        let half: usize = local_cpus.len() / 2;
        Some(local_cpus[half + q % half])
    } else {
        None
    }
}

/// Over how many queues the NIC spreads the replies: all of them in an open loop,
/// one where the queries in flight are bounded.
pub fn reta_spread(max_outstanding: usize, queue_count: usize) -> (r: usize)
    ensures
        r == if max_outstanding > 0 {
            1
        } else {
            queue_count
        },
        max_outstanding == 0 ==> r == queue_count,
        max_outstanding > 0 ==> r == 1,
{
    if max_outstanding > 0 {
        1
    } else {
        queue_count
    }
}

/// Which interface the path is started on: a virtual one gives way to the
/// physical one behind it.
pub fn xdp_iface(iface: &str, is_virtual: bool, parent: Option<String>) -> (r: Result<
    String,
    String,
>)
    ensures
        !is_virtual ==> (r matches Ok(i) && i@ == iface@),
        is_virtual && parent is Some ==> r == Ok::<String, String>(parent->0),
        is_virtual && parent is None ==> (r matches Err(e) && e@ == "XDP: '"@ + iface@
            + "' is a virtual interface (Proxmox bridge / vmbr / veth) — XDP disabled, falling back to UDP receive. For native XDP use the physical NIC directly."@),
{
    if !is_virtual {
        return Ok(iface.to_owned());
    }
    match parent {
        Some(p) => Ok(p),
        None => {
            let mut msg = "XDP: '".to_owned();
            msg.append(iface);
            msg.append(
                "' is a virtual interface (Proxmox bridge / vmbr / veth) — XDP disabled, falling back to UDP receive. For native XDP use the physical NIC directly.",
            );
            Err(msg)
        },
    }
}

/// Why frames cannot be sent over a ring.
#[derive(Debug, Clone, Copy, PartialEq, Eq, Structural)]
pub enum TxFallback {
    /// The server has an IPv6 address.
    Ipv6Server,
    /// The interface has no IPv4 address.
    NoLocalIp,
    /// The interface has no hardware address.
    NoLocalMac,
    /// The hardware address of the server is not known.
    NoServerMac,
}

/// Lays out the header for frames to a server, from what is known of both ends.
pub fn tx_header(
    server: Option<[u8; 4]>,
    src_ip: Option<[u8; 4]>,
    src_mac: Option<[u8; 6]>,
    dst_mac: Option<[u8; 6]>,
    server_port: u16,
    vlan_env: Option<&str>,
) -> (r: Result<FrameHeader, TxFallback>)
    ensures
        match (server, src_ip, src_mac, dst_mac) {
            (None, _, _, _) => r == Err::<FrameHeader, TxFallback>(TxFallback::Ipv6Server),
            (_, None, _, _) => r == Err::<FrameHeader, TxFallback>(TxFallback::NoLocalIp),
            (_, _, None, _) => r == Err::<FrameHeader, TxFallback>(TxFallback::NoLocalMac),
            (_, _, _, None) => r == Err::<FrameHeader, TxFallback>(TxFallback::NoServerMac),
            (Some(dst), Some(src), Some(sm), Some(dm)) => r matches Ok(h) && h.wf() && h.tpl@
                == super::frame::template(
                sm@,
                dm@,
                src@,
                dst@,
                DEFAULT_PORT,
                server_port,
                super::frame::vlan_of(
                    match vlan_env {
                        Some(s) => Some(s@),
                        None => None,
                    },
                ),
            ),
        },
        r matches Ok(h) ==> {
            &&& h.tpl@.subrange(0, 6) == dst_mac->0@
            &&& h.tpl@.subrange(6, 12) == src_mac->0@
            &&& h.tpl@.subrange(h.l2 + 12, h.l2 + 16) == src_ip->0@
            &&& h.tpl@.subrange(h.l2 + 16, h.l2 + 20) == server->0@
            &&& h.tpl@[h.l2 + 22] * 256 + h.tpl@[h.l2 + 23] == server_port
        },
{
    let dst = match server {
        Some(v) => v,
        None => {
            return Err(TxFallback::Ipv6Server);
        },
    };
    let src = match src_ip {
        Some(v) => v,
        None => {
            return Err(TxFallback::NoLocalIp);
        },
    };
    let sm = match src_mac {
        Some(v) => v,
        None => {
            return Err(TxFallback::NoLocalMac);
        },
    };
    let dm = match dst_mac {
        Some(v) => v,
        None => {
            return Err(TxFallback::NoServerMac);
        },
    };
    Ok(FrameHeader::new(sm, dm, src, dst, DEFAULT_PORT, server_port, vlan_env))
}

/// How a sender task sends.
#[derive(Debug, Clone, Copy, PartialEq, Eq, Structural)]
pub enum SenderPath {
    /// Not at all: the workers of the NIC do everything.
    Idle,
    /// Over the send ring of this queue.
    Ring(usize),
    /// Over an ordinary socket.
    Socket,
}

/// Whether the environment leaves the send rings on: only `0` turns them off.
pub fn ring_tx_enabled(value: Option<&str>) -> (r: bool)
    ensures
        r == (value matches Some(v) ==> v@ != "0"@),
{
    match value {
        Some(v) => {
            let chars = chars_of(v);
            !crate::text::chars_are(chars.as_slice(), "0")
        },
        None => true,
    }
}

/// How a sender task sends.
pub fn sender_path(unified: bool, ring_tx: bool, n_queues: usize, worker_id: usize) -> (r:
    SenderPath)
    ensures
        r == if unified {
            SenderPath::Idle
        } else if ring_tx && n_queues > 0 {
            SenderPath::Ring((worker_id as int % n_queues as int) as usize)
        } else {
            SenderPath::Socket
        },
{
    if unified {
        return SenderPath::Idle;
    }
    if ring_tx && n_queues > 0 {
        return SenderPath::Ring(worker_id % n_queues);
    }
    SenderPath::Socket
}

/// The workers share a rate evenly: together they send no more than it and less than
/// one query a second each short of it, unless each would have less than one.
pub proof fn rate_is_divided_evenly(total_qps: u64, n: int)
    requires
        n > 0,
    ensures
        total_qps >= n ==> share_of(total_qps, n) * n <= total_qps < (share_of(total_qps, n) + 1)
            * n,
        total_qps < n ==> share_of(total_qps, n) == 1,
{
    let t = total_qps as int;
    vstd::arithmetic::div_mod::lemma_fundamental_div_mod(t, n);
    let (q, r) = (t / n, t % n);
    assert(q * n <= t < (q + 1) * n) by (nonlinear_arith)
        requires
            t == n * q + r,
            0 <= r < n,
    ;
    if t >= n {
        assert(q >= 1) by (nonlinear_arith)
            requires
                t < (q + 1) * n,
                t >= n,
                n > 0,
        ;
        assert(q <= t) by (nonlinear_arith)
            requires
                q * n <= t,
                q >= 0,
                n >= 1,
        ;
    } else {
        assert(q == 0) by (nonlinear_arith)
            requires
                q * n <= t,
                t < (q + 1) * n,
                0 <= t < n,
        ;
    }
}

/// How many cores are on a node: of one core one where it is its node, and of a core
/// more one more.
pub proof fn cores_of_a_node_add_up(nodes: Seq<Option<usize>>, node: Option<usize>, x: Option<usize>)
    ensures
        on_node(nodes, node, 0) == 0,
        on_node(nodes.push(x), node, nodes.len() + 1) == on_node(nodes, node, nodes.len())
            + if x == node {
            1nat
        } else {
            0nat
        },
{
    lemma_on_node_start(nodes.push(x), nodes, node, nodes.len());
}

proof fn lemma_on_node_start(
    a: Seq<Option<usize>>,
    b: Seq<Option<usize>>,
    node: Option<usize>,
    n: nat,
)
    requires
        forall|j: int| 0 <= j < n ==> a[j] == b[j],
    ensures
        on_node(a, node, n) == on_node(b, node, n),
    decreases n,
{
    if n > 0 {
        lemma_on_node_start(a, b, node, (n - 1) as nat);
    }
}

/// How many workers a NIC has, and on which cores. There is one for each queue, and one
/// at least. On one or two nodes there are no more than cores on its node, and the cores
/// of its node and at most six others are used; on more nodes there are twelve at most,
/// on any core.
pub proof fn workers_are_capped(nodes: Seq<Option<usize>>, nic_node: Option<usize>, hw_queues: usize)
    requires
        nodes.len() <= usize::MAX,
    ensures
        ({
            let p = core_plan(nodes, nic_node, hw_queues);
            let local = on_node(nodes, nic_node, nodes.len());
            &&& p.n_local == if local == 0 {
                1
            } else {
                local
            }
            &&& p.queue_count >= 1
            &&& p.queue_count > 1 ==> p.queue_count <= hw_queues
            &&& p.pool_len <= nodes.len()
            &&& !many_nodes(nodes) ==> {
                &&& p.queue_count <= p.n_local
                &&& 1 <= hw_queues <= p.n_local ==> p.queue_count == hw_queues
                &&& hw_queues >= p.n_local ==> p.queue_count == p.n_local
                &&& p.pool_len <= p.n_local + 6
                &&& p.pool_len < nodes.len() ==> p.pool_len == p.n_local + 6
            }
            &&& many_nodes(nodes) ==> {
                &&& p.queue_count <= 12
                &&& 1 <= hw_queues <= 12 && hw_queues <= nodes.len() ==> p.queue_count == hw_queues
                &&& hw_queues >= 12 && nodes.len() >= 12 ==> p.queue_count == 12
                &&& p.pool_len == nodes.len()
            }
        }),
{
    lemma_on_node(nodes, nic_node, nodes.len());
    if many_nodes(nodes) {
        assert(nodes.len() > 0);
    }
}

/// A machine has many nodes where three of its cores lie on three nodes, and not where
/// each lies on one of two.
pub proof fn three_nodes_are_many(nodes: Seq<Option<usize>>, a: usize, b: usize)
    ensures
        (forall|i: int|
            0 <= i < nodes.len() ==> #[trigger] nodes[i] is None || nodes[i] == Some(a) || nodes[i]
                == Some(b)) ==> !many_nodes(nodes),
        forall|i: int, j: int, k: int|
            0 <= i < nodes.len() && 0 <= j < nodes.len() && 0 <= k < nodes.len()
                && #[trigger] nodes[i] is Some && #[trigger] nodes[j] is Some
                && #[trigger] nodes[k] is Some && nodes[i] != nodes[j] && nodes[j] != nodes[k]
                && nodes[i] != nodes[k] ==> many_nodes(nodes),
{
}

proof fn lemma_decimal_plain(n: nat)
    ensures
        lacks(decimal(n), '-'),
        lacks(decimal(n), ','),
        trim(decimal(n)) == decimal(n),
        decimal(n).len() > 0,
    decreases n,
{
    let s = decimal(n);
    if n >= 10 {
        lemma_decimal_plain(n / 10);
        let p = decimal(n / 10);
        assert forall|i: int| 0 <= i < s.len() implies #[trigger] s[i] != '-' && s[i] != ',' by {
            if i < p.len() {
                assert(s[i] == p[i]);
                assert(p[i] != '-' && p[i] != ',');
            }
        }
    }
    lemma_decimal_digits(n);
    assert(48 <= s[0] as int <= 57 && 48 <= s.last() as int <= 57);
    lemma_trim_keeps(s);
}

proof fn lemma_decimal_digits(n: nat)
    ensures
        decimal(n).len() > 0,
        forall|i: int| 0 <= i < decimal(n).len() ==> 48 <= #[trigger] decimal(n)[i] as int <= 57,
    decreases n,
{
    if n >= 10 {
        lemma_decimal_digits(n / 10);
        let (s, p) = (decimal(n), decimal(n / 10));
        assert forall|i: int| 0 <= i < s.len() implies 48 <= #[trigger] s[i] as int <= 57 by {
            if i < p.len() {
                assert(s[i] == p[i]);
            }
        }
    }
}

/// A part of a list of processors names one by its number, or all from a first to a
/// last one.
pub proof fn parts_name_processors(a: nat, b: nat)
    requires
        a <= usize::MAX,
        b <= usize::MAX,
    ensures
        cpu_part(decimal(a)) == seq![a as usize],
        ({
            let r = cpu_part(decimal(a) + seq!['-'] + decimal(b));
            &&& a <= b ==> r.len() == b - a + 1
            &&& a > b ==> r.len() == 0
            &&& forall|i: int| 0 <= i < r.len() ==> #[trigger] r[i] == a + i
        }),
{
    lemma_decimal_plain(a);
    lemma_decimal_plain(b);
    numbers_are_read_back(a, usize::MAX as int);
    numbers_are_read_back(b, usize::MAX as int);
    let da = decimal(a);
    lemma_find_from(da, 0, '-');
    let s = da + seq!['-'] + decimal(b);
    lemma_find_from(s, 0, '-');
    let n = da.len() as int;
    assert(s[n] == '-');
    let d = find_from(s, 0, '-');
    assert(d == n) by {
        if d < n {
            assert(s[d] == da[d]);
        }
    }
    assert(s.take(n) =~= da);
    assert(s.skip(n + 1) =~= decimal(b));
}

/// A list of processors names what its parts name, one part after the other.
pub proof fn lists_name_their_parts(parts: Seq<Seq<char>>, part: Seq<char>)
    ensures
        cpu_parts(parts, 0) == Seq::<usize>::empty(),
        cpu_parts(parts.push(part), parts.len() + 1) == cpu_parts(parts, parts.len()) + cpu_part(
            part,
        ),
{
    lemma_parts_start(parts.push(part), parts, parts.len());
}

proof fn lemma_parts_start(a: Seq<Seq<char>>, b: Seq<Seq<char>>, n: nat)
    requires
        forall|j: int| 0 <= j < n ==> a[j] == b[j],
    ensures
        cpu_parts(a, n) == cpu_parts(b, n),
    decreases n,
{
    if n > 0 {
        lemma_parts_start(a, b, (n - 1) as nat);
    }
}

/// The parts of a list of processors are what its commas separate.
pub proof fn commas_part_lists(a: Seq<char>, rest: Seq<char>)
    requires
        lacks(a, ','),
        a.len() > 0 && !is_space(a[0]),
        rest.len() > 0 && !is_space(rest.last()),
    ensures
        ({
            let parts = fields(rest, ',');
            cpu_list(a + seq![','] + rest) == cpu_parts(seq![a] + parts, (parts.len() + 1) as nat)
        }),
{
    let s = a + seq![','] + rest;
    assert(s[0] == a[0] && s.last() == rest.last());
    lemma_trim_keeps(s);
    separators_end_fields(a, rest, ',');
}

/// A receiver sleeps after 1024 idle turns; a card may use six cores of the other one of
/// two nodes, and twelve where there are more; without a port queries leave from 12345.
pub proof fn receivers_have_their_measures()
    ensures
        IDLE_SPINS == 1024,
        REMOTE_CORE_CAP == 6,
        PORT_CORE_CAP == 12,
        DEFAULT_PORT == 12345,
{
}

} // verus!
