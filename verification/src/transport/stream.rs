//! Queries over a byte stream, one connection each.

use vstd::prelude::*;

use crate::dns::response::{parse_response, response, ResponseInfo};
use crate::dns::{be16, build_query, push_be16};
use crate::query::{wire_of, QueryEntry};
use crate::stats::{rcode_class, wrap, StatsCollector};
use crate::transport::{span_ns, span_of};

verus! {

/// How long a worker waits after a connection was refused.
pub const REFUSED_PAUSE_NS: u64 = 100_000_000;

/// A message with its length in front.
pub open spec fn framed(msg: Seq<u8>) -> Seq<u8> {
    be16(msg.len() as int % 0x1_0000) + msg
}

/// Puts the length of a message in front of it.
pub fn frame_message(msg: &Vec<u8>) -> (r: Vec<u8>)
    ensures
        r@ == framed(msg@),
{
    let mut out: Vec<u8> = Vec::new();
    let len: u16 = (msg.len() % 0x1_0000) as u16;
    push_be16(&mut out, len);
    out.extend_from_slice(msg.as_slice());
    assert(out@ =~= framed(msg@));
    out
}

/// The length that two bytes announce.
pub open spec fn announced(b: Seq<u8>) -> int {
    b[0] * 256 + b[1]
}

/// Reads how long the next message is.
pub fn reply_len(head: &[u8; 2]) -> (n: usize)
    ensures
        n == announced(head@),
{
    (head[0] as usize) * 256 + (head[1] as usize)
}

/// What is framed is read back: the first two bytes announce the message, of a longer
/// one what is beyond 65536, and the rest is the message.
pub proof fn framing_is_undone(msg: Seq<u8>)
    ensures
        msg.len() < 0x1_0000 ==> announced(framed(msg).take(2)) == msg.len(),
        announced(framed(msg).take(2)) == msg.len() % 65536,
        framed(msg).skip(2) == msg,
{
    assert(framed(msg).skip(2) =~= msg);
}

/// How an attempt to ask over a connection has ended.
#[derive(Debug, Clone, Copy, PartialEq, Eq, Structural)]
pub enum Attempt {
    /// No connection was made, and that is noticed before a query is taken.
    Refused,
    /// No connection was made in time, and that is noticed before a query is taken.
    Unreachable,
    /// A reply was read.
    Replied,
    /// Something failed on the way.
    Failed,
    /// There was no reply in time.
    TimedOut,
}

/// A worker that asks over a byte stream.
#[derive(Debug, Clone, Copy, PartialEq, Eq, Structural)]
pub struct StreamWorker {
    /// The transaction id of the next query.
    pub id: u16,
}

impl StreamWorker {
    /// A worker that begins with an id.
    pub fn new(id: u16) -> (r: Self)
        ensures
            r.id == id,
    {
        Self { id }
    }

    /// The bytes that ask for an entry.
    pub fn message(&self, entry: &QueryEntry) -> (r: Vec<u8>)
        ensures
            r@ == framed(wire_of(self.id as int, entry@)),
    {
        let q = build_query(self.id, entry.name.as_str(), entry.qtype);
        frame_message(&q)
    }

    /// Counts a query whose bytes are written.
    pub fn on_sent(&self, stats: &mut StatsCollector)
        requires
            old(stats).wf(),
        ensures
            final(stats).wf(),
            final(stats).sent == wrap(old(stats).sent + 1),
            final(stats).timeouts == old(stats).timeouts,
            final(stats).errors == old(stats).errors,
            final(stats).same_responses(*old(stats)),
            final(stats).same_depths(*old(stats)),
            final(stats).histogram == old(stats).histogram,
    {
        stats.inc_sent();
    }

    /// Counts a reply, if it is a response; the result is what it says.
    pub fn on_reply(
        &self,
        reply: &[u8],
        rtt_us: u64,
        stats: &mut StatsCollector,
    ) -> (r: Option<ResponseInfo>)
        requires
            old(stats).wf(),
            old(stats).room_for(1),
        ensures
            final(stats).wf(),
            r == response(reply@),
            match r {
                Some(info) => {
                    &&& final(stats).counted(
                        *old(stats),
                        Seq::new(
                            5,
                            |i: int| if i == rcode_class(info.rcode) { 1int } else { 0int },
                        ),
                    )
                    &&& final(stats).measured(*old(stats), rtt_us)
                    &&& final(stats).sent == old(stats).sent
                    &&& final(stats).timeouts == old(stats).timeouts
                    &&& final(stats).errors == old(stats).errors
                    &&& final(stats).same_depths(*old(stats))
                },
                None => *final(stats) == *old(stats),
            },
            final(stats).samples() <= old(stats).samples() + 1,
    {
        match parse_response(reply) {
            Some(info) => {
                stats.record_response(info.rcode, rtt_us);
                Some(info)
            },
            None => None,
        }
    }

    /// Counts how an attempt has ended and moves on to the next id, unless there was
    /// no connection to ask over. The result is how long to wait before the next
    /// attempt.
    pub fn after(&mut self, attempt: Attempt, qps: u64, stats: &mut StatsCollector) -> (pause: u64)
        requires
            old(stats).wf(),
        ensures
            final(stats).wf(),
            final(stats).errors == wrap(
                old(stats).errors + if attempt == Attempt::Refused || attempt == Attempt::Failed {
                    1int
                } else {
                    0
                },
            ),
            final(stats).timeouts == wrap(
                old(stats).timeouts + if attempt == Attempt::Unreachable || attempt
                    == Attempt::TimedOut {
                    1int
                } else {
                    0
                },
            ),
            final(stats).sent == old(stats).sent,
            final(stats).same_responses(*old(stats)),
            final(stats).same_depths(*old(stats)),
            final(stats).histogram == old(stats).histogram,
            attempt == Attempt::Refused ==> pause == REFUSED_PAUSE_NS && final(self).id == old(self).id,
            attempt == Attempt::Unreachable ==> pause == 0 && final(self).id == old(self).id,
            attempt != Attempt::Refused && attempt != Attempt::Unreachable ==> {
                &&& pause == span_of(1, qps)
                &&& final(self).id == (old(self).id + 1) % 0x1_0000
            },
    {
        match attempt {
            Attempt::Refused => {
                stats.inc_error();
                return REFUSED_PAUSE_NS;
            },
            Attempt::Unreachable => {
                stats.inc_timeout();
                return 0;
            },
            Attempt::Replied => {},
            Attempt::Failed => {
                stats.inc_error();
            },
            Attempt::TimedOut => {
                stats.inc_timeout();
            },
        }
        self.id = if self.id == 0xFFFF {
            0
        } else {
            self.id + 1
        };
        span_ns(1, qps)
    }
}

/// After a connection was refused a tenth of a second passes.
pub proof fn refused_is_paused()
    ensures
        REFUSED_PAUSE_NS * 10 == 1_000_000_000,
{
}

} // verus!
