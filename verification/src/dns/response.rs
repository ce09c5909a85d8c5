//! The part of a DNS response that the load generator reads.

use vstd::prelude::*;

use crate::dns::query;

verus! {

/// What is read of a response: whose query it answers and with what code.
#[derive(Debug, Clone, Copy, PartialEq, Eq, Structural)]
pub struct ResponseInfo {
    pub id: u16,
    pub rcode: u8,
}

/// What a datagram says: nothing where it is shorter than a header or is not a
/// response, else the transaction id and the low four bits of the flags.
pub open spec fn response(buf: Seq<u8>) -> Option<ResponseInfo> {
    if buf.len() >= 12 && buf[2] >= 0x80 {
        Some(ResponseInfo { id: (buf[0] * 256 + buf[1]) as u16, rcode: buf[3] % 16 })
    } else {
        None
    }
}

/// Reads the transaction id and the response code of a DNS response.
pub fn parse_response(buf: &[u8]) -> (r: Option<ResponseInfo>)
    ensures
        r == response(buf@),
{
    if buf.len() < 12 {
        return None;
    }
    let id: u16 = (buf[0] as u16) * 256 + (buf[1] as u16);
    let flags: u16 = (buf[2] as u16) * 256 + (buf[3] as u16);
    let (hi, lo): (u8, u8) = (buf[2], buf[3]);
    assert((flags & 0x8000 == 0) == (hi < 0x80) && flags & 0x000F == lo % 16) by (bit_vector)
        requires
            flags == (hi as u16) * 256 + (lo as u16),
    ;
    if flags & 0x8000 == 0 {
        return None;
    }
    let rcode: u8 = (flags & 0x000F) as u8;
    Some(ResponseInfo { id, rcode })
}

/// A query is not taken for a response.
pub proof fn query_is_no_response(id: int, name: Seq<u8>, qtype: int)
    ensures
        response(query(id, name, qtype)) is None,
{
    assert(query(id, name, qtype)[2] == 1u8);
}

/// A reply is matched to its query: what a server makes of a query by setting its two
/// bytes of flags is read with the id of the query and the low four bits of the second
/// of them as its code, as long as the topmost bit of the first marks a response.
pub proof fn reply_has_the_id_of_its_query(
    id: u16,
    name: Seq<u8>,
    qtype: u16,
    flags: u8,
    upper: u8,
    code: u8,
)
    requires
        upper < 16,
        code < 16,
    ensures
        ({
            let q = query(id as int, name, qtype as int);
            let reply = q.update(2, flags).update(3, (16 * upper + code) as u8);
            response(reply) == if flags >= 128 {
                Some(ResponseInfo { id, rcode: code })
            } else {
                None
            }
        }),
{
    crate::dns::query_has_its_header(id, name, qtype);
}

/// Nothing is read of what is shorter than a header.
pub proof fn short_is_no_response(buf: Seq<u8>)
    ensures
        buf.len() < 12 ==> response(buf) is None,
        buf.len() >= 12 && buf[2] < 128 ==> response(buf) is None,
        buf.len() >= 12 && buf[2] >= 128 ==> (response(buf) matches Some(r) && r.id / 256 == buf[0]
            && r.id % 256 == buf[1] && r.rcode < 16 && (buf[3] - r.rcode) % 16 == 0),
{
}

} // verus!
