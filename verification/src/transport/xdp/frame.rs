//! Ethernet frames that carry a DNS message over IPv4 and UDP.
//!
//! A header is laid out once; for each frame it is copied and its lengths and
//! its checksum are set.

use vstd::arithmetic::div_mod::lemma_mod_multiples_vanish;
use vstd::prelude::*;

use crate::dns::be16;
use crate::text::{
    chars_are, chars_of, fields, lines, number, parse_number, split_fields, split_lines,
    split_words, trim, trimmed, views, words,
};

verus! {

pub const ETH_HDR: usize = 14;

pub const IPV4_HDR: usize = 20;

pub const UDP_HDR: usize = 8;

pub const VLAN_HDR: usize = 4;

/// The header of an untagged frame.
pub const OUTER_HDR: usize = 42;

/// The header of a tagged frame.
pub const OUTER_HDR_MAX: usize = 46;

/// A number modulo 65535, where only zero is zero.
pub open spec fn ones(x: int) -> int {
    if x == 0 {
        0
    } else {
        (x - 1) % 65535 + 1
    }
}

/// The sum of the first `n` 16-bit words of a header.
pub open spec fn word_sum(s: Seq<u8>, n: nat) -> int
    decreases n,
{
    if n == 0 {
        0
    } else {
        word_sum(s, (n - 1) as nat) + s[2 * n - 2] * 256 + s[2 * n - 1]
    }
}

/// The checksum of a header: the complement of the sum of its words.
pub open spec fn checksum(s: Seq<u8>) -> u16 {
    (65535 - ones(word_sum(s, s.len() / 2))) as u16
}

/// `s` with a 16-bit number in network order at place `i`.
pub open spec fn put16(s: Seq<u8>, i: int, x: int) -> Seq<u8> {
    s.update(i, (x / 256) as u8).update(i + 1, (x % 256) as u8)
}

proof fn lemma_word_sum_bounds(s: Seq<u8>, n: nat)
    requires
        2 * n <= s.len(),
    ensures
        0 <= word_sum(s, n) <= 65535 * n,
    decreases n,
{
    if n > 0 {
        lemma_word_sum_bounds(s, (n - 1) as nat);
    }
}

proof fn lemma_word_sum_put16(s: Seq<u8>, n: nat, k: int, x: int)
    requires
        2 * n <= s.len(),
        0 <= k < s.len() / 2,
        0 <= x < 65536,
    ensures
        word_sum(put16(s, 2 * k, x), n) == word_sum(s, n) + if k < n {
            x - s[2 * k] * 256 - s[2 * k + 1]
        } else {
            0
        },
    decreases n,
{
    if n > 0 {
        lemma_word_sum_put16(s, (n - 1) as nat, k, x);
    }
}

proof fn lemma_word_sum_same(a: Seq<u8>, b: Seq<u8>, n: nat)
    requires
        2 * n <= a.len(),
        2 * n <= b.len(),
        forall|i: int| 0 <= i < 2 * n ==> a[i] == b[i],
    ensures
        word_sum(a, n) == word_sum(b, n),
    decreases n,
{
    if n > 0 {
        lemma_word_sum_same(a, b, (n - 1) as nat);
    }
}

/// Adding the upper half of a sum to its lower half keeps its value.
proof fn lemma_fold(x: int)
    requires
        x >= 0,
    ensures
        ones(x % 65536 + x / 65536) == ones(x),
        x >= 65536 ==> x % 65536 + x / 65536 < x,
        x < 65536 ==> ones(x) == x,
{
    let a = x / 65536;
    let b = x % 65536;
    if x > 0 {
        lemma_mod_multiples_vanish(a, a + b - 1, 65535);
        assert(65535 * a + (a + b - 1) == x - 1);
    }
}

/// The checksum of an IPv4 header, or of any even run of bytes.
pub fn ipv4_checksum(hdr: &[u8]) -> (r: u16)
    requires
        hdr@.len() / 2 <= 65537,
    ensures
        r == checksum(hdr@),
{
    let n: usize = hdr.len() / 2;
    let mut sum: u32 = 0;
    let mut i: usize = 0;
    while i < n
        invariant
            i <= n,
            n == hdr@.len() / 2,
            n <= 65537,
            sum == word_sum(hdr@, i as nat),
        decreases n - i,
    {
        proof {
            lemma_word_sum_bounds(hdr@, i as nat);
        }
        sum = sum + (hdr[2 * i] as u32) * 256 + (hdr[2 * i + 1] as u32);
        i += 1;
    }
    while sum >= 65536
        invariant
            ones(sum as int) == ones(word_sum(hdr@, n as nat)),
        decreases sum,
    {
        proof {
            lemma_fold(sum as int);
        }
        sum = sum % 65536 + sum / 65536;
    }
    proof {
        lemma_fold(sum as int);
    }
    (65535 - sum) as u16
}

/// What marks the payload as IPv4, after a tag where there is one.
pub open spec fn ether_type(vlan: Option<u16>) -> Seq<u8> {
    match vlan {
        None => seq![8u8, 0],
        Some(vid) => seq![0x81u8, 0] + be16(vid as int % 4096) + seq![8u8, 0],
    }
}

/// A header whose lengths and checksum are still zero.
pub open spec fn template(
    src_mac: Seq<u8>,
    dst_mac: Seq<u8>,
    src_ip: Seq<u8>,
    dst_ip: Seq<u8>,
    src_port: u16,
    dst_port: u16,
    vlan: Option<u16>,
) -> Seq<u8> {
    dst_mac + src_mac + ether_type(vlan) + seq![0x45u8, 0, 0, 0, 0, 0, 0x40, 0, 64, 17, 0, 0]
        + src_ip + dst_ip + be16(src_port as int) + be16(dst_port as int) + seq![0u8, 0, 0, 0]
}

/// A header with its lengths and its checksum set for a UDP length.
pub open spec fn sealed(tpl: Seq<u8>, l2: int, udp_len: int) -> Seq<u8> {
    let sized = put16(tpl, l2 + 2, udp_len + IPV4_HDR);
    let sum = checksum(sized.subrange(l2, l2 + IPV4_HDR));
    put16(put16(sized, l2 + 10, sum as int), l2 + IPV4_HDR + 4, udp_len)
}

/// The VLAN that the environment names: a number other than zero.
pub open spec fn vlan_of(value: Option<Seq<char>>) -> Option<u16> {
    match value {
        None => None,
        Some(s) => match number(trim(s), 10, 65535) {
            Some(v) => if v != 0 {
                Some(v as u16)
            } else {
                None
            },
            None => None,
        },
    }
}

/// Reads the VLAN from the value of its environment variable.
pub fn vlan_from_env(value: Option<&str>) -> (r: Option<u16>)
    ensures
        r == vlan_of(
            match value {
                Some(s) => Some(s@),
                None => None,
            },
        ),
{
    match value {
        None => None,
        Some(s) => {
            let chars = chars_of(s);
            let t = trimmed(chars.as_slice());
            match parse_number(t.as_slice(), 10, 65535) {
                Some(v) => if v != 0 {
                    Some(v as u16)
                } else {
                    None
                },
                None => None,
            }
        },
    }
}

/// A header laid out in advance.
#[derive(Debug)]
pub struct FrameHeader {
    pub tpl: Vec<u8>,
    /// The length of the whole header.
    pub outer: usize,
    /// Where the IPv4 header starts.
    pub l2: usize,
    /// The sum of the words of the IPv4 header as it is laid out.
    pub ip_base_sum: u32,
}

/// Appends the bytes of a slice.
fn push_all(v: &mut Vec<u8>, s: &[u8])
    ensures
        final(v)@ == old(v)@ + s@,
{
    let mut i: usize = 0;
    while i < s.len()
        invariant
            i <= s@.len(),
            v@ == old(v)@ + s@.take(i as int),
        decreases s@.len() - i,
    {
        v.push(s[i]);
        assert(s@.take(i + 1) =~= s@.take(i as int).push(s@[i as int]));
        i += 1;
    }
    assert(s@.take(i as int) =~= s@);
}

impl FrameHeader {
    /// The header is laid out: its lengths and its checksum are zero.
    pub open spec fn wf(self) -> bool {
        &&& self.l2 == ETH_HDR || self.l2 == ETH_HDR + VLAN_HDR
        &&& self.outer == self.l2 + IPV4_HDR + UDP_HDR
        &&& self.tpl@.len() == self.outer
        &&& self.tpl@[self.l2 + 2] == 0
        &&& self.tpl@[self.l2 + 3] == 0
        &&& self.tpl@[self.l2 + 10] == 0
        &&& self.tpl@[self.l2 + 11] == 0
        &&& self.ip_base_sum == word_sum(
            self.tpl@.subrange(self.l2 as int, self.l2 + IPV4_HDR),
            10,
        )
    }

    /// The length field of the UDP header for a payload.
    pub open spec fn udp_len(dns_len: nat) -> int {
        (UDP_HDR + dns_len) % 65536
    }

    /// The header for a payload of the given length.
    pub open spec fn header_for(self, dns_len: nat) -> Seq<u8> {
        sealed(self.tpl@, self.l2 as int, Self::udp_len(dns_len))
    }

    /// The lengths for a payload fit in their fields.
    pub open spec fn fits(dns_len: nat) -> bool {
        Self::udp_len(dns_len) + IPV4_HDR <= 65535
    }

    /// Lays out a header; the value of the environment variable for the VLAN
    /// decides on a tag.
    pub fn new(
        src_mac: [u8; 6],
        dst_mac: [u8; 6],
        src_ip: [u8; 4],
        dst_ip: [u8; 4],
        src_port: u16,
        dst_port: u16,
        vlan_env: Option<&str>,
    ) -> (r: Self)
        ensures
            r.wf(),
            r.tpl@ == template(
                src_mac@,
                dst_mac@,
                src_ip@,
                dst_ip@,
                src_port,
                dst_port,
                vlan_of(
                    match vlan_env {
                        Some(s) => Some(s@),
                        None => None,
                    },
                ),
            ),
            r.tpl@.subrange(0, 6) == dst_mac@ && r.tpl@.subrange(6, 12) == src_mac@,
            r.tpl@.subrange(r.l2 + 12, r.l2 + 16) == src_ip@,
            r.tpl@.subrange(r.l2 + 16, r.l2 + 20) == dst_ip@,
            r.tpl@[r.l2 + 20] * 256 + r.tpl@[r.l2 + 21] == src_port,
            r.tpl@[r.l2 + 22] * 256 + r.tpl@[r.l2 + 23] == dst_port,
    {
        Self::new_with_vlan(
            src_mac,
            dst_mac,
            src_ip,
            dst_ip,
            src_port,
            dst_port,
            vlan_from_env(vlan_env),
        )
    }

    /// Lays out a header, tagged where a VLAN is given.
    pub fn new_with_vlan(
        src_mac: [u8; 6],
        dst_mac: [u8; 6],
        src_ip: [u8; 4],
        dst_ip: [u8; 4],
        src_port: u16,
        dst_port: u16,
        vlan: Option<u16>,
    ) -> (r: Self)
        ensures
            r.wf(),
            r.l2 == if vlan is Some {
                ETH_HDR + VLAN_HDR
            } else {
                ETH_HDR as int
            },
            r.tpl@ == template(src_mac@, dst_mac@, src_ip@, dst_ip@, src_port, dst_port, vlan),
            r.tpl@.subrange(0, 6) == dst_mac@ && r.tpl@.subrange(6, 12) == src_mac@,
            r.tpl@.subrange(r.l2 + 12, r.l2 + 16) == src_ip@,
            r.tpl@.subrange(r.l2 + 16, r.l2 + 20) == dst_ip@,
            r.tpl@[r.l2 + 20] * 256 + r.tpl@[r.l2 + 21] == src_port,
            r.tpl@[r.l2 + 22] * 256 + r.tpl@[r.l2 + 23] == dst_port,
    {
        proof {
            lemma_places(src_mac@, dst_mac@, src_ip@, dst_ip@, src_port, dst_port, vlan);
        }
        let l2: usize = if vlan.is_some() {
            ETH_HDR + VLAN_HDR
        } else {
            ETH_HDR
        };
        let outer: usize = l2 + IPV4_HDR + UDP_HDR;
        let mut tpl: Vec<u8> = Vec::with_capacity(OUTER_HDR_MAX);
        push_all(&mut tpl, dst_mac.as_slice());
        push_all(&mut tpl, src_mac.as_slice());
        match vlan {
            Some(vid) => {
                let v: u16 = vid % 4096;
                tpl.push(0x81);
                tpl.push(0);
                tpl.push((v / 256) as u8);
                tpl.push((v % 256) as u8);
                tpl.push(8);
                tpl.push(0);
            },
            None => {
                tpl.push(8);
                tpl.push(0);
            },
        }
        assert(tpl@ =~= dst_mac@ + src_mac@ + ether_type(vlan));
        tpl.push(0x45);
        tpl.push(0);
        tpl.push(0);
        tpl.push(0);
        tpl.push(0);
        tpl.push(0);
        tpl.push(0x40);
        tpl.push(0);
        tpl.push(64);
        tpl.push(17);
        tpl.push(0);
        tpl.push(0);
        push_all(&mut tpl, src_ip.as_slice());
        push_all(&mut tpl, dst_ip.as_slice());
        tpl.push((src_port / 256) as u8);
        tpl.push((src_port % 256) as u8);
        tpl.push((dst_port / 256) as u8);
        tpl.push((dst_port % 256) as u8);
        tpl.push(0);
        tpl.push(0);
        tpl.push(0);
        tpl.push(0);
        assert(tpl@ =~= template(
            src_mac@,
            dst_mac@,
            src_ip@,
            dst_ip@,
            src_port,
            dst_port,
            vlan,
        ));
        let ghost ip = tpl@.subrange(l2 as int, l2 + IPV4_HDR);
        let mut ip_base_sum: u32 = 0;
        let mut i: usize = 0;
        while i < 10
            invariant
                i <= 10,
                l2 == 14 || l2 == 18,
                tpl@.len() == l2 + 28,
                ip == tpl@.subrange(l2 as int, l2 + IPV4_HDR),
                ip_base_sum == word_sum(ip, i as nat),
            decreases 10 - i,
        {
            proof {
                lemma_word_sum_bounds(ip, i as nat);
            }
            let (hi, lo): (u8, u8) = (tpl[l2 + 2 * i], tpl[l2 + 2 * i + 1]);
            assert(hi == ip[2 * i as int] && lo == ip[2 * i + 1]);
            ip_base_sum = ip_base_sum + (hi as u32) * 256 + (lo as u32);
            i += 1;
        }
        Self { tpl, outer, l2, ip_base_sum }
    }

    /// The length of the header.
    pub fn outer(&self) -> (r: usize)
        ensures
            r == self.outer,
    {
        self.outer
    }

    /// Writes a frame around a DNS message; the result is its length.
    pub fn write_frame(&self, out: &mut [u8], dns: &[u8]) -> (total: usize)
        requires
            self.wf(),
            self.outer + dns@.len() <= old(out)@.len(),
            Self::fits(dns@.len()),
        ensures
            total == self.outer + dns@.len(),
            final(out)@ == self.header_for(dns@.len()) + dns@ + old(out)@.skip(total as int),
    {
        let room: usize = out.len();
        let total: usize = self.outer + dns.len();
        let ghost start = out@;
        let mut i: usize = 0;
        while i < dns.len()
            invariant
                i <= dns@.len(),
                room == out@.len(),
                self.wf(),
                self.outer + dns@.len() <= out@.len(),
                out@.len() == start.len(),
                forall|j: int|
                    0 <= j < out@.len() ==> out@[j] == if self.outer <= j < self.outer + i {
                        dns@[j - self.outer]
                    } else {
                        start[j]
                    },
            decreases dns@.len() - i,
        {
            out[self.outer + i] = dns[i];
            i += 1;
        }
        let r: usize = self.write_header(out, dns.len());
        assert(out@ =~= self.header_for(dns@.len()) + dns@ + start.skip(total as int));
        r
    }

    /// Writes the header before a DNS message that is already in place; the result
    /// is the length of the frame.
    pub fn write_header(&self, out: &mut [u8], dns_len: usize) -> (total: usize)
        requires
            self.wf(),
            self.outer <= old(out)@.len(),
            self.outer + dns_len <= usize::MAX,
            Self::fits(dns_len as nat),
        ensures
            total == self.outer + dns_len,
            final(out)@ == self.header_for(dns_len as nat) + old(out)@.skip(self.outer as int),
            self.header_for(dns_len as nat).len() == self.outer,
    {
        let ghost start = out@;
        let l2: usize = self.l2;
        let total: usize = self.outer + dns_len;
        let udp_len: u16 = ((UDP_HDR + dns_len % 65536) % 65536) as u16;
        assert(udp_len == Self::udp_len(dns_len as nat));
        let ip_tot: u16 = (IPV4_HDR as u16) + udp_len;
        let mut i: usize = 0;
        while i < self.outer
            invariant
                i <= self.outer,
                self.wf(),
                self.outer <= out@.len(),
                out@.len() == start.len(),
                forall|j: int|
                    0 <= j < out@.len() ==> out@[j] == if j < i {
                        self.tpl@[j]
                    } else {
                        start[j]
                    },
            decreases self.outer - i,
        {
            out[i] = self.tpl[i];
            i += 1;
        }
        out[l2 + 2] = (ip_tot / 256) as u8;
        out[l2 + 3] = (ip_tot % 256) as u8;
        let ghost sized = put16(self.tpl@, l2 + 2, ip_tot as int);
        let ghost base = self.tpl@.subrange(l2 as int, l2 + IPV4_HDR);
        proof {
            lemma_word_sum_bounds(base, 10);
            lemma_word_sum_put16(base, 10, 1, ip_tot as int);
            assert(sized.subrange(l2 as int, l2 + IPV4_HDR) =~= put16(base, 2, ip_tot as int));
        }
        let s0: u32 = self.ip_base_sum + ip_tot as u32;
        proof {
            lemma_fold(s0 as int);
        }
        let s1: u32 = s0 % 65536 + s0 / 65536;
        proof {
            lemma_fold(s1 as int);
        }
        let s2: u32 = s1 % 65536 + s1 / 65536;
        proof {
            lemma_fold(s2 as int);
        }
        let cksum: u16 = (65535 - s2) as u16;
        assert(cksum == checksum(sized.subrange(l2 as int, l2 + IPV4_HDR)));
        out[l2 + 10] = (cksum / 256) as u8;
        out[l2 + 11] = (cksum % 256) as u8;
        out[l2 + IPV4_HDR + 4] = (udp_len / 256) as u8;
        out[l2 + IPV4_HDR + 5] = (udp_len % 256) as u8;
        assert(out@ =~= self.header_for(dns_len as nat) + start.skip(self.outer as int));
        total
    }

    /// Sets the UDP source port of a frame.
    pub fn set_src_port(&self, out: &mut [u8], port: u16)
        requires
            self.wf(),
            self.l2 + IPV4_HDR + 2 <= old(out)@.len(),
        ensures
            final(out)@ == put16(old(out)@, self.l2 + IPV4_HDR, port as int),
    {
        out[self.l2 + IPV4_HDR] = (port / 256) as u8;
        out[self.l2 + IPV4_HDR + 1] = (port % 256) as u8;
        assert(out@ =~= put16(old(out)@, self.l2 + IPV4_HDR, port as int));
    }
}

/// The bytes of a hardware address: six fields of hexadecimal digits.
pub open spec fn mac_of(s: Seq<char>) -> Option<Seq<u8>> {
    let f = fields(s, ':');
    if f.len() == 6 && forall|i: int| 0 <= i < 6 ==> (#[trigger] number(f[i], 16, 255)) is Some {
        Some(Seq::new(6, |i: int| number(f[i], 16, 255)->0 as u8))
    } else {
        None
    }
}

/// Reads a hardware address.
pub fn parse_mac(s: &str) -> (r: Option<[u8; 6]>)
    ensures
        match r {
            Some(m) => mac_of(s@) == Some(m@),
            None => mac_of(s@) is None,
        },
{
    let chars = chars_of(s);
    parse_mac_chars(chars.as_slice())
}

/// Reads a hardware address.
fn parse_mac_chars(chars: &[char]) -> (r: Option<[u8; 6]>)
    ensures
        match r {
            Some(m) => mac_of(chars@) == Some(m@),
            None => mac_of(chars@) is None,
        },
{
    let p = split_fields(chars, ':');
    let ghost f = fields(chars@, ':');
    assert(views(p@) == f);
    assert(p@.len() == f.len());
    if p.len() != 6 {
        return None;
    }
    let mut m: [u8; 6] = [0; 6];
    let mut i: usize = 0;
    while i < 6
        invariant
            i <= 6,
            p@.len() == 6,
            views(p@) == f,
            f == fields(chars@, ':'),
            forall|j: int|
                0 <= j < i ==> (#[trigger] number(f[j], 16, 255)) is Some && m@[j] == number(
                    f[j],
                    16,
                    255,
                )->0,
        decreases 6 - i,
    {
        assert(f[i as int] == p@[i as int]@);
        match parse_number(p[i].as_slice(), 16, 255) {
            None => {
                assert(number(f[i as int], 16, 255) is None);
                return None;
            },
            Some(v) => {
                m[i] = v as u8;
            },
        }
        i += 1;
    }
    assert(m@ =~= Seq::new(6, |i: int| number(f[i], 16, 255)->0 as u8));
    Some(m)
}

/// What the neighbour table says of an address, from line `i` on: the first line
/// for the address decides, a line that is cut short ends the search, and an
/// entry whose flags are zero has no hardware address yet.
pub open spec fn neighbour_from(ls: Seq<Seq<char>>, i: int, target: Seq<char>) -> Option<Seq<u8>>
    decreases ls.len() - i,
{
    if i < 0 || i >= ls.len() {
        None
    } else {
        let w = words(ls[i]);
        if w.len() == 0 {
            None
        } else if w[0] != target {
            neighbour_from(ls, i + 1, target)
        } else if w.len() < 3 || w[2] == "0x0"@ || w.len() < 4 {
            None
        } else {
            mac_of(w[3])
        }
    }
}

/// What a neighbour table, whose first line is a heading, says of an address.
pub open spec fn neighbour(table: Seq<char>, target: Seq<char>) -> Option<Seq<u8>> {
    neighbour_from(lines(table), 1, target)
}

/// Looks an address up in the text of the neighbour table.
pub fn lookup_arp(table: &str, target: &str) -> (r: Option<[u8; 6]>)
    ensures
        match r {
            Some(m) => neighbour(table@, target@) == Some(m@),
            None => neighbour(table@, target@) is None,
        },
{
    let chars = chars_of(table);
    let ls = split_lines(chars.as_slice());
    let ghost lv = lines(table@);
    assert(views(ls@) == lv);
    let mut i: usize = 1;
    while i < ls.len()
        invariant
            1 <= i,
            views(ls@) == lv,
            neighbour_from(lv, i as int, target@) == neighbour_from(lv, 1, target@),
            lv == lines(table@),
        decreases ls@.len() - i,
    {
        assert(lv[i as int] == ls@[i as int]@);
        let w = split_words(ls[i].as_slice());
        let ghost wv = words(lv[i as int]);
        assert(views(w@) == wv);
        assert(w@.len() == wv.len());
        if w.len() == 0 {
            return None;
        }
        assert(wv[0] == w@[0]@);
        if chars_are(w[0].as_slice(), target) {
            if w.len() < 3 {
                return None;
            }
            assert(wv[2] == w@[2]@);
            if chars_are(w[2].as_slice(), "0x0") || w.len() < 4 {
                return None;
            }
            assert(wv[3] == w@[3]@);
            return parse_mac_chars(w[3].as_slice());
        }
        i += 1;
    }
    None
}

/// How often the neighbour table is asked again while an address is resolved.
pub const ARP_ROUNDS: u32 = 40;

/// Whether a round of resolving an address starts with a packet that makes the
/// kernel ask for it: every eighth does.
pub fn arp_trigger_due(round: u32) -> (r: bool)
    ensures
        r == (round % 8 == 0),
{
    round % 8 == 0
}

/// The IPv4 header of every frame checks: with its checksum in place the sum of
/// its words leaves nothing.
pub proof fn header_checks(hdr: FrameHeader, dns_len: nat)
    requires
        hdr.wf(),
        FrameHeader::fits(dns_len),
    ensures
        checksum(
            hdr.header_for(dns_len).subrange(hdr.l2 as int, hdr.l2 + IPV4_HDR),
        ) == 0,
{
    let l2 = hdr.l2 as int;
    let udp_len = FrameHeader::udp_len(dns_len);
    let sized = put16(hdr.tpl@, l2 + 2, udp_len + IPV4_HDR);
    let ip = sized.subrange(l2, l2 + IPV4_HDR);
    let c = checksum(ip) as int;
    lemma_word_sum_bounds(ip, 10);
    let s = word_sum(ip, 10);
    lemma_fold(s);
    let done = hdr.header_for(dns_len).subrange(l2, l2 + IPV4_HDR);
    assert(done =~= put16(ip, 10, c));
    lemma_word_sum_put16(ip, 10, 5, c);
    assert(word_sum(done, 10) == s + c);
    assert(ip[0] == hdr.tpl@[l2]);
    if s > 0 {
        let q = (s - 1) / 65535;
        assert(s + c - 1 == 65535 * q + 65534) by {
            assert(s - 1 == 65535 * q + (s - 1) % 65535);
        }
        lemma_mod_multiples_vanish(q, 65534, 65535);
    }
}

/// A tag moves what follows it by four bytes and changes nothing else.
pub proof fn tag_only_shifts(
    src_mac: Seq<u8>,
    dst_mac: Seq<u8>,
    src_ip: Seq<u8>,
    dst_ip: Seq<u8>,
    src_port: u16,
    dst_port: u16,
    vid: u16,
)
    requires
        src_mac.len() == 6,
        dst_mac.len() == 6,
        src_ip.len() == 4,
        dst_ip.len() == 4,
    ensures
        ({
            let plain = template(src_mac, dst_mac, src_ip, dst_ip, src_port, dst_port, None);
            let tagged = template(src_mac, dst_mac, src_ip, dst_ip, src_port, dst_port, Some(vid));
            &&& tagged.len() == plain.len() + VLAN_HDR
            &&& tagged.take(12) == plain.take(12)
            &&& tagged.skip(16) == plain.skip(12)
        }),
{
    let plain = template(src_mac, dst_mac, src_ip, dst_ip, src_port, dst_port, None);
    let tagged = template(src_mac, dst_mac, src_ip, dst_ip, src_port, dst_port, Some(vid));
    assert(tagged.take(12) =~= plain.take(12));
    assert(tagged.skip(16) =~= plain.skip(12));
}

proof fn lemma_places(
    src_mac: Seq<u8>,
    dst_mac: Seq<u8>,
    src_ip: Seq<u8>,
    dst_ip: Seq<u8>,
    src_port: u16,
    dst_port: u16,
    vlan: Option<u16>,
)
    requires
        src_mac.len() == 6,
        dst_mac.len() == 6,
        src_ip.len() == 4,
        dst_ip.len() == 4,
    ensures
        ({
            let t = template(src_mac, dst_mac, src_ip, dst_ip, src_port, dst_port, vlan);
            let ip: int = if vlan is Some {
                18
            } else {
                14
            };
            &&& t.len() == ip + 28
            &&& t.subrange(0, 6) == dst_mac
            &&& t.subrange(6, 12) == src_mac
            &&& t.subrange(ip + 12, ip + 16) == src_ip
            &&& t.subrange(ip + 16, ip + 20) == dst_ip
            &&& t[ip + 20] * 256 + t[ip + 21] == src_port
            &&& t[ip + 22] * 256 + t[ip + 23] == dst_port
        }),
{
    let t = template(src_mac, dst_mac, src_ip, dst_ip, src_port, dst_port, vlan);
    let ip: int = if vlan is Some {
        18
    } else {
        14
    };
    assert(ether_type(vlan).len() == ip - 12);
    assert(t.subrange(0, 6) =~= dst_mac);
    assert(t.subrange(6, 12) =~= src_mac);
    assert(t.subrange(ip + 12, ip + 16) =~= src_ip);
    assert(t.subrange(ip + 16, ip + 20) =~= dst_ip);
}

/// Every frame is addressed by what its header was laid out with, place by place:
/// hardware addresses, the mark of IPv4 (behind the tag where there is one), addresses
/// and ports; it is a whole UDP packet over IPv4 of the right lengths, and the message
/// follows it.
pub proof fn frame_is_addressed(
    hdr: FrameHeader,
    src_mac: Seq<u8>,
    dst_mac: Seq<u8>,
    src_ip: Seq<u8>,
    dst_ip: Seq<u8>,
    src_port: u16,
    dst_port: u16,
    vlan: Option<u16>,
    dns: Seq<u8>,
)
    requires
        hdr.wf(),
        hdr.tpl@ == template(src_mac, dst_mac, src_ip, dst_ip, src_port, dst_port, vlan),
        src_mac.len() == 6,
        dst_mac.len() == 6,
        src_ip.len() == 4,
        dst_ip.len() == 4,
        dns.len() <= 65507,
    ensures
        ({
            let f = hdr.header_for(dns.len()) + dns;
            let ip: int = if vlan is Some {
                18
            } else {
                14
            };
            &&& f.len() == ip + 28 + dns.len()
            &&& f.subrange(0, 6) == dst_mac
            &&& f.subrange(6, 12) == src_mac
            &&& f[ip - 2] == 0x08 && f[ip - 1] == 0x00
            &&& vlan matches Some(vid) ==> {
                &&& f[12] == 0x81 && f[13] == 0x00
                &&& f[14] * 256 + f[15] == vid as int % 4096
            }
            &&& f[ip] == 0x45
            &&& f[ip + 1] == 0
            &&& f[ip + 2] * 256 + f[ip + 3] == 28 + dns.len()
            &&& f[ip + 4] == 0 && f[ip + 5] == 0
            &&& f[ip + 6] == 0x40 && f[ip + 7] == 0
            &&& f[ip + 8] == 64
            &&& f[ip + 9] == 17
            &&& f.subrange(ip + 12, ip + 16) == src_ip
            &&& f.subrange(ip + 16, ip + 20) == dst_ip
            &&& f[ip + 20] * 256 + f[ip + 21] == src_port
            &&& f[ip + 22] * 256 + f[ip + 23] == dst_port
            &&& f[ip + 24] * 256 + f[ip + 25] == 8 + dns.len()
            &&& f[ip + 26] == 0 && f[ip + 27] == 0
            &&& f.subrange(ip + 28, f.len() as int) == dns
        }),
{
    let f = hdr.header_for(dns.len()) + dns;
    let ip: int = if vlan is Some {
        18
    } else {
        14
    };
    let e = ether_type(vlan);
    assert(e.len() == ip - 12);
    assert(hdr.tpl@.len() == ip + 28);
    let t = hdr.tpl@;
    assert(t.subrange(0, 6) =~= dst_mac);
    assert(t.subrange(6, 12) =~= src_mac);
    assert(t.subrange(12, ip) =~= e);
    assert(t.subrange(ip + 12, ip + 16) =~= src_ip);
    assert(t.subrange(ip + 16, ip + 20) =~= dst_ip);
    let h = hdr.header_for(dns.len());
    assert(h.len() == t.len());
    assert forall|i: int|
        0 <= i < h.len() && i != ip + 2 && i != ip + 3 && i != ip + 10 && i != ip + 11 && i != ip
            + 24 && i != ip + 25 implies #[trigger] h[i] == t[i] by {}
    assert(f.subrange(0, 6) =~= dst_mac) by {
        assert forall|i: int| 0 <= i < 6 implies f[i] == dst_mac[i] by {
            assert(h[i] == t[i] && t[i] == t.subrange(0, 6)[i]);
        }
    }
    assert(f.subrange(6, 12) =~= src_mac) by {
        assert forall|i: int| 0 <= i < 6 implies f[6 + i] == src_mac[i] by {
            assert(h[6 + i] == t[6 + i] && t[6 + i] == t.subrange(6, 12)[i]);
        }
    }
    assert forall|i: int| 12 <= i < ip implies f[i] == e[i - 12] by {
        assert(h[i] == t[i] && t[i] == t.subrange(12, ip)[i - 12]);
    }
    assert(e[ip - 14] == 8u8 && e[ip - 13] == 0u8);
    assert(f.subrange(ip + 12, ip + 16) =~= src_ip) by {
        assert forall|i: int| 0 <= i < 4 implies f[ip + 12 + i] == src_ip[i] by {
            assert(h[ip + 12 + i] == t[ip + 12 + i] && t[ip + 12 + i] == t.subrange(
                ip + 12,
                ip + 16,
            )[i]);
        }
    }
    assert(f.subrange(ip + 16, ip + 20) =~= dst_ip) by {
        assert forall|i: int| 0 <= i < 4 implies f[ip + 16 + i] == dst_ip[i] by {
            assert(h[ip + 16 + i] == t[ip + 16 + i] && t[ip + 16 + i] == t.subrange(
                ip + 16,
                ip + 20,
            )[i]);
        }
    }
    assert(f.subrange(ip + 28, f.len() as int) =~= dns);
}

/// The IPv4 header of every frame checks: its ten words add up to a multiple of 65535,
/// so that a receiver who adds them with carry gets all ones.
pub proof fn header_words_add_up(hdr: FrameHeader, dns_len: nat)
    requires
        hdr.wf(),
        hdr.tpl@[hdr.l2 as int] != 0,
        dns_len <= 65507,
    ensures
        ({
            let f = hdr.header_for(dns_len);
            let ip = hdr.l2 as int;
            let hi = f[ip] + f[ip + 2] + f[ip + 4] + f[ip + 6] + f[ip + 8] + f[ip + 10] + f[ip
                + 12] + f[ip + 14] + f[ip + 16] + f[ip + 18];
            let lo = f[ip + 1] + f[ip + 3] + f[ip + 5] + f[ip + 7] + f[ip + 9] + f[ip + 11] + f[ip
                + 13] + f[ip + 15] + f[ip + 17] + f[ip + 19];
            &&& 256 * hi + lo > 0
            &&& (256 * hi + lo) % 65535 == 0
        }),
{
    header_checks(hdr, dns_len);
    let ip = hdr.l2 as int;
    let f = hdr.header_for(dns_len);
    let w = f.subrange(ip, ip + IPV4_HDR);
    lemma_ten_words(w);
    lemma_first_byte(hdr, dns_len);
    let sum = word_sum(w, 10);
    assert(w[0] == f[ip]);
    assert(sum > 0);
    assert((sum - 1) % 65535 + 1 == 65535);
    lemma_multiple(sum);
    assert(forall|k: int| 0 <= k < 20 ==> #[trigger] w[k] == f[ip + k]);
}

proof fn lemma_multiple(sum: int)
    requires
        sum > 0,
        (sum - 1) % 65535 == 65534,
    ensures
        sum % 65535 == 0,
{
}

proof fn lemma_ten_words(w: Seq<u8>)
    requires
        w.len() == 20,
    ensures
        word_sum(w, 10) == 256 * (w[0] + w[2] + w[4] + w[6] + w[8] + w[10] + w[12] + w[14] + w[16]
            + w[18]) + (w[1] + w[3] + w[5] + w[7] + w[9] + w[11] + w[13] + w[15] + w[17] + w[19]),
{
    reveal_with_fuel(word_sum, 11);
}

proof fn lemma_first_byte(hdr: FrameHeader, dns_len: nat)
    requires
        hdr.wf(),
        dns_len <= 65507,
    ensures
        hdr.header_for(dns_len).len() == hdr.tpl@.len(),
        hdr.header_for(dns_len)[hdr.l2 as int] == hdr.tpl@[hdr.l2 as int],
{
}

/// A worker that sets the source port of a frame changes that port and nothing else.
pub proof fn port_is_all_that_is_set(frame: Seq<u8>, at: int, port: u16)
    requires
        0 <= at,
        at + 2 <= frame.len(),
    ensures
        ({
            let f = put16(frame, at, port as int);
            &&& f.len() == frame.len()
            &&& f[at] * 256 + f[at + 1] == port
            &&& forall|i: int|
                0 <= i < f.len() && i != at && i != at + 1 ==> #[trigger] f[i] == frame[i]
        }),
{
}

/// The lengths of the headers: those of Ethernet, IPv4 and UDP are the outer one, which a
/// tag makes longer.
pub proof fn headers_have_their_lengths()
    ensures
        ETH_HDR == 14,
        IPV4_HDR == 20,
        UDP_HDR == 8,
        VLAN_HDR == 4,
        OUTER_HDR == ETH_HDR + IPV4_HDR + UDP_HDR,
        OUTER_HDR_MAX == OUTER_HDR + VLAN_HDR,
        ARP_ROUNDS == 40,
{
}

/// The VLAN is the number that is given, whatever white space is around it; zero is none,
/// and so is a number beyond sixteen bits.
pub proof fn vlan_is_read_as_written(s: Seq<char>, n: nat)
    requires
        trim(s) == crate::text::decimal(n),
    ensures
        0 < n <= 65535 ==> vlan_of(Some(s)) == Some(n as u16),
        n == 0 || n > 65535 ==> vlan_of(Some(s)) is None,
        vlan_of(None) is None,
{
    crate::text::numbers_are_read_back(n, 65535);
}

/// A hardware address is six numbers of base sixteen with colons between them, each of at
/// most 255; they are its bytes in their order.
pub proof fn mac_is_read_as_written(p: Seq<Seq<char>>, m: Seq<u8>)
    requires
        p.len() == 6,
        m.len() == 6,
        forall|i: int| 0 <= i < 6 ==> crate::text::lacks(#[trigger] p[i], ':'),
        forall|i: int| 0 <= i < 6 ==> number(#[trigger] p[i], 16, 255) == Some(m[i] as int),
    ensures
        mac_of(
            p[0] + seq![':'] + (p[1] + seq![':'] + (p[2] + seq![':'] + (p[3] + seq![':'] + (p[4]
                + seq![':'] + p[5])))),
        ) == Some(m),
{
    let c = seq![':'];
    let s4 = p[4] + c + p[5];
    let s3 = p[3] + c + s4;
    let s2 = p[2] + c + s3;
    let s1 = p[1] + c + s2;
    let s0 = p[0] + c + s1;
    crate::text::separators_end_fields(p[5], p[5], ':');
    crate::text::separators_end_fields(p[4], p[5], ':');
    crate::text::separators_end_fields(p[3], s4, ':');
    crate::text::separators_end_fields(p[2], s3, ':');
    crate::text::separators_end_fields(p[1], s2, ':');
    crate::text::separators_end_fields(p[0], s1, ':');
    assert(fields(s0, ':') =~= p);
    assert forall|i: int| 0 <= i < 6 implies (#[trigger] number(p[i], 16, 255)) is Some by {
        assert(number(p[i], 16, 255) == Some(m[i] as int));
    }
    assert(mac_of(s0)->0 =~= m) by {
        assert forall|i: int| 0 <= i < 6 implies #[trigger] mac_of(s0)->0[i] == m[i] by {
            assert(number(p[i], 16, 255) == Some(m[i] as int));
        }
    }
}

/// What has more or fewer than six fields, or one that is no number, is no hardware
/// address.
pub proof fn other_text_is_no_mac(s: Seq<char>, i: int)
    requires
        fields(s, ':').len() != 6 || (0 <= i < 6 && number(fields(s, ':')[i], 16, 255) is None),
    ensures
        mac_of(s) is None,
{
}

/// The heading of the neighbour table is passed over; the first line below it that begins
/// with the address decides, with its fourth word, unless its third says that the entry
/// is not complete.
pub proof fn first_neighbour_counts(table: Seq<char>, i: int, target: Seq<char>)
    requires
        1 <= i < lines(table).len(),
        words(lines(table)[i]).len() >= 4,
        words(lines(table)[i])[0] == target,
        forall|j: int|
            1 <= j < i ==> words(#[trigger] lines(table)[j]).len() > 0 && words(
                lines(table)[j],
            )[0] != target,
    ensures
        words(lines(table)[i])[2] == "0x0"@ ==> neighbour(table, target) is None,
        words(lines(table)[i])[2] != "0x0"@ ==> neighbour(table, target) == mac_of(
            words(lines(table)[i])[3],
        ),
{
    lemma_neighbour(lines(table), 1, i, target);
}

proof fn lemma_neighbour(ls: Seq<Seq<char>>, from: int, i: int, target: Seq<char>)
    requires
        0 <= from <= i < ls.len(),
        forall|j: int|
            from <= j < i ==> words(#[trigger] ls[j]).len() > 0 && words(ls[j])[0] != target,
    ensures
        neighbour_from(ls, from, target) == neighbour_from(ls, i, target),
    decreases i - from,
{
    if from < i {
        assert(words(ls[from]).len() > 0 && words(ls[from])[0] != target);
        lemma_neighbour(ls, from + 1, i, target);
    }
}

/// The UDP length is that of the message and of the header, within sixteen bits, and a
/// message fits where the whole packet is told in sixteen bits.
pub proof fn lengths_have_sixteen_bits(dns_len: nat)
    ensures
        dns_len < 65528 ==> FrameHeader::udp_len(dns_len) == dns_len + 8,
        FrameHeader::udp_len(dns_len + 65536) == FrameHeader::udp_len(dns_len),
        dns_len <= 65507 ==> FrameHeader::fits(dns_len),
        65507 < dns_len < 65528 ==> !FrameHeader::fits(dns_len),
        FrameHeader::fits(dns_len + 65536) == FrameHeader::fits(dns_len),
{
}

} // verus!
