//! Finding the DNS response in a frame.

use vstd::prelude::*;

use crate::dns::response::{parse_response, response};

use super::frame::{put16, template, FrameHeader, ETH_HDR, IPV4_HDR, UDP_HDR, VLAN_HDR};

verus! {

pub const IPV6_HDR: usize = 40;

pub const ETH_P_IP: u16 = 0x0800;

pub const ETH_P_IPV6: u16 = 0x86DD;

pub const ETH_P_8021Q: u16 = 0x8100;

pub const PROTO_UDP: u8 = 17;

/// The 16-bit number at place `i`.
pub open spec fn u16_at(s: Seq<u8>, i: int) -> int {
    s[i] * 256 + s[i + 1]
}

/// Where the network header starts: after the addresses, one tag where there is
/// one, and the type.
pub open spec fn l3_offset(frame: Seq<u8>) -> int {
    if u16_at(frame, 12) == ETH_P_8021Q {
        ETH_HDR + VLAN_HDR
    } else {
        ETH_HDR as int
    }
}

/// The length of the network header where it carries UDP: IPv4 with the length
/// it gives itself, or IPv6 without further headers.
pub open spec fn l3_length(frame: Seq<u8>) -> Option<int> {
    let l3 = l3_offset(frame);
    let kind = u16_at(frame, l3 - 2);
    if kind == ETH_P_IP && frame.len() >= l3 + IPV4_HDR && frame[l3 + 9] == PROTO_UDP && frame[l3]
        % 16 * 4 >= IPV4_HDR {
        Some(frame[l3] % 16 * 4)
    } else if kind == ETH_P_IPV6 && frame.len() >= l3 + IPV6_HDR && frame[l3 + 6] == PROTO_UDP {
        Some(IPV6_HDR as int)
    } else {
        None
    }
}

/// The DNS message of a frame, where it is long enough to have one.
pub open spec fn dns_of(frame: Seq<u8>) -> Option<Seq<u8>> {
    if frame.len() < ETH_HDR + 2 || frame.len() < l3_offset(frame) + 2 {
        None
    } else {
        match l3_length(frame) {
            None => None,
            Some(n) => {
                let at = l3_offset(frame) + n + UDP_HDR;
                if frame.len() >= at + 12 {
                    Some(frame.skip(at))
                } else {
                    None
                }
            },
        }
    }
}

/// The transaction id and the response code of the DNS response in a frame.
pub open spec fn reply_of(frame: Seq<u8>) -> Option<(u16, u8)> {
    match dns_of(frame) {
        None => None,
        Some(dns) => match response(dns) {
            None => None,
            Some(r) => Some((r.id, r.rcode)),
        },
    }
}

/// Reads the transaction id and the response code of a DNS response in a frame.
pub fn parse_dns_from_frame(frame: &[u8]) -> (r: Option<(u16, u8)>)
    ensures
        r == reply_of(frame@),
{
    if frame.len() < ETH_HDR + 2 {
        return None;
    }
    let outer: u16 = (frame[12] as u16) * 256 + (frame[13] as u16);
    let l3: usize = if outer == ETH_P_8021Q {
        ETH_HDR + VLAN_HDR
    } else {
        ETH_HDR
    };
    if frame.len() < l3 + 2 {
        return None;
    }
    let kind: u16 = (frame[l3 - 2] as u16) * 256 + (frame[l3 - 1] as u16);
    let ip_len: usize = if kind == ETH_P_IP {
        if frame.len() < l3 + IPV4_HDR {
            return None;
        }
        if frame[l3 + 9] != PROTO_UDP {
            return None;
        }
        let ihl: usize = ((frame[l3] % 16) as usize) * 4;
        if ihl < IPV4_HDR {
            return None;
        }
        ihl
    } else if kind == ETH_P_IPV6 {
        if frame.len() < l3 + IPV6_HDR {
            return None;
        }
        if frame[l3 + 6] != PROTO_UDP {
            return None;
        }
        IPV6_HDR
    } else {
        return None;
    };
    let at: usize = l3 + ip_len + UDP_HDR;
    if frame.len() < at + 12 {
        return None;
    }
    let dns = vstd::slice::slice_subrange(frame, at, frame.len());
    assert(dns@ =~= frame@.skip(at as int));
    match parse_response(dns) {
        None => None,
        Some(r) => Some((r.id, r.rcode)),
    }
}

/// A frame carries its message: what is found in a frame that was written around
/// a message, tagged or not and from any port, is what the message says.
pub proof fn frame_carries_message(
    hdr: FrameHeader,
    src_mac: Seq<u8>,
    dst_mac: Seq<u8>,
    src_ip: Seq<u8>,
    dst_ip: Seq<u8>,
    src_port: u16,
    dst_port: u16,
    vlan: Option<u16>,
    dns: Seq<u8>,
    port: u16,
)
    requires
        hdr.wf(),
        src_mac.len() == 6,
        dst_mac.len() == 6,
        src_ip.len() == 4,
        dst_ip.len() == 4,
        hdr.tpl@ == template(src_mac, dst_mac, src_ip, dst_ip, src_port, dst_port, vlan),
        hdr.l2 == if vlan is Some {
            ETH_HDR + VLAN_HDR
        } else {
            ETH_HDR as int
        },
        FrameHeader::fits(dns.len()),
    ensures
        ({
            let frame = hdr.header_for(dns.len()) + dns;
            let sent = put16(frame, hdr.l2 + IPV4_HDR, port as int);
            let said = match response(dns) {
                None => None,
                Some(r) => Some((r.id, r.rcode)),
            };
            reply_of(frame) == said && reply_of(sent) == said
        }),
{
    let frame = hdr.header_for(dns.len()) + dns;
    let sent = put16(frame, hdr.l2 + IPV4_HDR, port as int);
    let l2 = hdr.l2 as int;
    assert(hdr.tpl@[12] == if vlan is Some { 0x81u8 } else { 8u8 });
    assert(hdr.tpl@[13] == 0);
    assert(hdr.tpl@[l2 - 2] == 8 && hdr.tpl@[l2 - 1] == 0);
    assert(hdr.tpl@[l2] == 0x45);
    assert(hdr.tpl@[l2 + 9] == 17);
    assert(frame.skip(l2 + 28) =~= dns);
    assert(sent.skip(l2 + 28) =~= dns);
}

/// Whether some bytes are an IPv4 header of a UDP packet, as long as it says.
pub open spec fn is_ipv4_udp(ip: Seq<u8>) -> bool {
    20 <= ip.len() && ip.len() == 4 * (ip[0] % 16) && ip[9] == 17
}

/// A reply is found in the frame that carries it over IPv4, whatever its addresses and
/// the options of its header and whether it is tagged or not: its id is that of the
/// first two bytes of the message, its code the low four bits of the fourth.
pub proof fn reply_is_found(
    macs: Seq<u8>,
    tag: Option<(u8, u8)>,
    ip: Seq<u8>,
    udp: Seq<u8>,
    dns: Seq<u8>,
)
    requires
        macs.len() == 12,
        is_ipv4_udp(ip),
        udp.len() == 8,
        dns.len() >= 12,
    ensures
        ({
            let link = match tag {
                None => macs + seq![8u8, 0],
                Some((hi, lo)) => macs + seq![0x81u8, 0, hi, lo, 8, 0],
            };
            let found = reply_of(link + ip + udp + dns);
            &&& dns[2] < 128 ==> found is None
            &&& dns[2] >= 128 ==> (found matches Some((id, rcode)) && id == dns[0] * 256 + dns[1]
                && rcode < 16 && rcode == dns[3] % 16)
        }),
{
    let link = match tag {
        None => macs + seq![8u8, 0],
        Some((hi, lo)) => macs + seq![0x81u8, 0, hi, lo, 8, 0],
    };
    let f = link + ip + udp + dns;
    let l3 = link.len() as int;
    assert(f[12] == link[12] && f[13] == link[13]);
    assert(f[l3 - 2] == 8 && f[l3 - 1] == 0);
    assert(f[l3] == ip[0] && f[l3 + 9] == ip[9]);
    assert(f.skip(l3 + ip.len() + 8) =~= dns);
}

/// A reply is found in the frame that carries it over IPv6.
pub proof fn reply_is_found_over_ipv6(
    macs: Seq<u8>,
    tag: Option<(u8, u8)>,
    ip: Seq<u8>,
    udp: Seq<u8>,
    dns: Seq<u8>,
)
    requires
        macs.len() == 12,
        ip.len() == 40,
        ip[6] == 17,
        udp.len() == 8,
        dns.len() >= 12,
    ensures
        ({
            let link = match tag {
                None => macs + seq![0x86u8, 0xDD],
                Some((hi, lo)) => macs + seq![0x81u8, 0, hi, lo, 0x86, 0xDD],
            };
            let found = reply_of(link + ip + udp + dns);
            &&& dns[2] < 128 ==> found is None
            &&& dns[2] >= 128 ==> (found matches Some((id, rcode)) && id == dns[0] * 256 + dns[1]
                && rcode < 16 && rcode == dns[3] % 16)
        }),
{
    let link = match tag {
        None => macs + seq![0x86u8, 0xDD],
        Some((hi, lo)) => macs + seq![0x81u8, 0, hi, lo, 0x86, 0xDD],
    };
    let f = link + ip + udp + dns;
    let l3 = link.len() as int;
    assert(f[12] == link[12] && f[13] == link[13]);
    assert(f[l3 - 2] == 0x86 && f[l3 - 1] == 0xDD);
    assert(f[l3 + 6] == ip[6]);
    assert(f.skip(l3 + 48) =~= dns);
}

/// What is neither IP, nor UDP, nor long enough for a DNS header holds no reply.
pub proof fn other_frames_hold_no_reply(link: Seq<u8>, ip: Seq<u8>)
    requires
        link.len() == 14,
        link[12] != 0x81 || link[13] != 0,
    ensures
        !(link[12] == 8 && link[13] == 0) && !(link[12] == 0x86 && link[13] == 0xDD) ==> reply_of(
            link + ip,
        ) is None,
        link[12] == 8 && link[13] == 0 && ip.len() >= 20 && ip[9] != 17 ==> reply_of(link + ip)
            is None,
        link[12] == 8 && link[13] == 0 && ip.len() >= 20 && ip[0] % 16 < 5 ==> reply_of(link + ip)
            is None,
        link[12] == 8 && link[13] == 0 && ip.len() < 40 ==> reply_of(link + ip) is None,
        link[12] == 0x86 && link[13] == 0xDD && ip.len() >= 40 && ip[6] != 17 ==> reply_of(
            link + ip,
        ) is None,
        link[12] == 0x86 && link[13] == 0xDD && ip.len() < 60 ==> reply_of(link + ip) is None,
{
    let f = link + ip;
    assert(f[12] == link[12] && f[13] == link[13]);
    if ip.len() >= 20 {
        assert(f[14] == ip[0] && f[23] == ip[9]);
    }
    if ip.len() >= 40 {
        assert(f[20] == ip[6]);
    }
}

/// The numbers of the protocols, and the length of a header of IPv6.
pub proof fn protocols_have_their_numbers()
    ensures
        ETH_P_IP == 0x0800,
        ETH_P_IPV6 == 0x86DD,
        ETH_P_8021Q == 0x8100,
        PROTO_UDP == 17,
        IPV6_HDR == 40,
{
}

} // verus!
