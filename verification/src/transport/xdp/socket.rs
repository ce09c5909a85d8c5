//! Which interface leads to a server, and what kind of interface it is.

use vstd::prelude::*;

use crate::config::{v4_number, v4_to_u32, ServerAddr};
use crate::text::{
    after_prefix, chars_are, chars_of, lines, number, parse_number, split_lines,
    split_words, starts_with, string_of, string_views, strip_prefix, trim, trimmed, views, words,
};

use super::umem::{AddrRing, DescRing, Umem};

verus! {

/// A socket's memory, its rings and the frames it can send.
#[derive(Debug)]
pub struct XskSocket {
    pub umem: Umem,
    pub rx: DescRing,
    pub tx: DescRing,
    pub tx_pool: Vec<u64>,
}

impl XskSocket {
    /// Takes the sending half out: the send ring, the completion ring and the free
    /// frames. What stays can only receive.
    pub fn extract_tx(&mut self) -> (r: (DescRing, AddrRing, Vec<u64>))
        ensures
            r.0 == old(self).tx,
            r.1 == old(self).umem.comp,
            r.2 == old(self).tx_pool,
            final(self).tx.ring.is_stub(),
            final(self).umem.comp.ring.is_stub(),
            final(self).tx_pool@.len() == 0,
            final(self).rx == old(self).rx,
            final(self).umem.fill == old(self).umem.fill,
            final(self).umem.area_len == old(self).umem.area_len,
    {
        let mut tx = DescRing::zeroed();
        let mut comp = AddrRing::zeroed();
        let mut pool: Vec<u64> = Vec::new();
        std::mem::swap(&mut tx, &mut self.tx);
        std::mem::swap(&mut comp, &mut self.umem.comp);
        std::mem::swap(&mut pool, &mut self.tx_pool);
        (tx, comp, pool)
    }
}

/// How many of the first `n` names start with a prefix.
pub open spec fn count_prefixed(names: Seq<Seq<char>>, prefix: Seq<char>, n: nat) -> nat
    decreases n,
{
    if n == 0 {
        0
    } else {
        count_prefixed(names, prefix, (n - 1) as nat) + if starts_with(names[n - 1], prefix) {
            1nat
        } else {
            0nat
        }
    }
}

/// How many queues the names in an interface's directory show; one at least, and
/// one where the directory cannot be read.
fn queue_count(names: Option<&Vec<String>>, prefix: &str) -> (r: u32)
    requires
        names matches Some(v) ==> v@.len() <= u32::MAX,
    ensures
        r == match names {
            None => 1,
            Some(v) => {
                let c = count_prefixed(string_views(v@), prefix@, v@.len());
                if c == 0 {
                    1
                } else {
                    c as int
                }
            },
        },
{
    match names {
        None => 1,
        Some(v) => {
            let mut c: u32 = 0;
            let mut i: usize = 0;
            while i < v.len()
                invariant
                    i <= v@.len() <= u32::MAX,
                    c <= i,
                    c == count_prefixed(string_views(v@), prefix@, i as nat),
                decreases v@.len() - i,
            {
                let chars = chars_of(v[i].as_str());
                assert(string_views(v@)[i as int] == chars@);
                if strip_prefix(chars.as_slice(), prefix).is_some() {
                    c += 1;
                }
                i += 1;
            }
            if c == 0 {
                1
            } else {
                c
            }
        },
    }
}

/// How many receive queues an interface has, by the names in its directory.
pub fn get_rx_queue_count(names: Option<&Vec<String>>) -> (r: u32)
    requires
        names matches Some(v) ==> v@.len() <= u32::MAX,
    ensures
        r == match names {
            None => 1,
            Some(v) => {
                let c = count_prefixed(string_views(v@), "rx-"@, v@.len());
                if c == 0 {
                    1
                } else {
                    c as int
                }
            },
        },
{
    queue_count(names, "rx-")
}

/// How many send queues an interface has, by the names in its directory.
pub fn get_tx_queue_count(names: Option<&Vec<String>>) -> (r: u32)
    requires
        names matches Some(v) ==> v@.len() <= u32::MAX,
    ensures
        r == match names {
            None => 1,
            Some(v) => {
                let c = count_prefixed(string_views(v@), "tx-"@, v@.len());
                if c == 0 {
                    1
                } else {
                    c as int
                }
            },
        },
{
    queue_count(names, "tx-")
}

/// An IPv4 address of an interface. Address and mask are numbers whose highest
/// byte is the first.
#[derive(Debug, Clone)]
pub struct IfAddr {
    pub name: String,
    pub addr: u32,
    pub mask: u32,
}

/// Whether a server lies in the subnet of an interface; the loopback interface and
/// masks of zero do not count.
pub open spec fn in_subnet(a: IfAddr, server: u32) -> bool {
    a.mask != 0 && a.name@ != "lo"@ && (a.addr & a.mask) == (server & a.mask)
}

/// The name of the first interface from `i` on whose subnet holds a server.
pub open spec fn subnet_from(list: Seq<IfAddr>, i: int, server: u32) -> Option<Seq<char>>
    decreases list.len() - i,
{
    if i < 0 || i >= list.len() {
        None
    } else if in_subnet(list[i], server) {
        Some(list[i].name@)
    } else {
        subnet_from(list, i + 1, server)
    }
}

/// Finds the first interface whose subnet holds a server.
pub fn iface_for_subnet(list: &Vec<IfAddr>, server: u32) -> (r: Option<String>)
    ensures
        match r {
            Some(s) => subnet_from(list@, 0, server) == Some(s@),
            None => subnet_from(list@, 0, server) is None,
        },
{
    let mut i: usize = 0;
    while i < list.len()
        invariant
            i <= list@.len(),
            subnet_from(list@, i as int, server) == subnet_from(list@, 0, server),
        decreases list@.len() - i,
    {
        let a = &list[i];
        let name = chars_of(a.name.as_str());
        if a.mask != 0 && !chars_are(name.as_slice(), "lo") && (a.addr & a.mask) == (server
            & a.mask) {
            return Some(a.name.clone());
        }
        i += 1;
    }
    None
}

/// The first address from `i` on of an interface.
pub open spec fn addr_from(list: Seq<IfAddr>, i: int, iface: Seq<char>) -> Option<u32>
    decreases list.len() - i,
{
    if i < 0 || i >= list.len() {
        None
    } else if list[i].name@ == iface {
        Some(list[i].addr)
    } else {
        addr_from(list, i + 1, iface)
    }
}

/// The first IPv4 address of an interface.
pub fn local_ipv4(list: &Vec<IfAddr>, iface: &str) -> (r: Option<u32>)
    ensures
        r == addr_from(list@, 0, iface@),
{
    let mut i: usize = 0;
    while i < list.len()
        invariant
            i <= list@.len(),
            addr_from(list@, i as int, iface@) == addr_from(list@, 0, iface@),
        decreases list@.len() - i,
    {
        let name = chars_of(list[i].name.as_str());
        if chars_are(name.as_slice(), iface) {
            return Some(list[i].addr);
        }
        i += 1;
    }
    None
}

/// How many bits of a number are one.
pub open spec fn bit_count(x: nat) -> nat
    decreases x,
{
    if x == 0 {
        0
    } else {
        x % 2 + bit_count(x / 2)
    }
}

/// Counts the bits that are one.
fn count_bits(x: u32) -> (n: u32)
    ensures
        n == bit_count(x as nat),
        n <= 32,
{
    let mut v: u32 = x;
    let mut n: u32 = 0;
    let mut k: u32 = 0;
    assert(vstd::arithmetic::power2::pow2(32) == 0x1_0000_0000) by {
        vstd::arithmetic::power2::lemma2_to64();
    }
    while v > 0
        invariant
            n + bit_count(v as nat) == bit_count(x as nat),
            n <= k <= 32,
            v < vstd::arithmetic::power2::pow2((32 - k) as nat),
        decreases v,
    {
        proof {
            if k == 32 {
                vstd::arithmetic::power2::lemma2_to64();
            } else {
                vstd::arithmetic::power2::lemma_pow2_unfold((32 - k) as nat);
            }
        }
        n = n + v % 2;
        v = v / 2;
        k = k + 1;
    }
    n
}

/// An IPv4 address as the routing table writes it: the first byte is the lowest.
pub open spec fn table_number(a: Seq<u8>) -> int {
    a[3] * 0x100_0000 + a[2] * 0x1_0000 + a[1] * 0x100 + a[0]
}

/// The route that a line gives: the interface, the destination and the mask;
/// nothing where a column is missing or is no number.
pub open spec fn route_of(line: Seq<char>) -> Option<(Seq<char>, u32, u32)> {
    let w = words(line);
    if w.len() < 8 {
        None
    } else {
        match (number(w[1], 16, 0xFFFF_FFFF), number(w[7], 16, 0xFFFF_FFFF)) {
            (Some(dest), Some(mask)) => Some((w[0], dest as u32, mask as u32)),
            _ => None,
        }
    }
}

/// The best route from line `i` on: the one with the longest mask, the first of
/// equals. A line that is no route ends the search without a result.
pub open spec fn best_route(
    ls: Seq<Seq<char>>,
    i: int,
    target: u32,
    best: Option<(nat, Seq<char>)>,
) -> Option<Seq<char>>
    decreases ls.len() - i,
{
    if i < 0 || i >= ls.len() {
        match best {
            Some((_, iface)) => Some(iface),
            None => None,
        }
    } else {
        match route_of(ls[i]) {
            None => None,
            Some((iface, dest, mask)) => {
                let bits = bit_count(mask as nat);
                let better = match best {
                    Some((b, _)) => bits > b,
                    None => true,
                };
                if (target & mask) == (dest & mask) && better {
                    best_route(ls, i + 1, target, Some((bits, iface)))
                } else {
                    best_route(ls, i + 1, target, best)
                }
            },
        }
    }
}

/// Reads a line of the routing table.
fn parse_route(line: &[char]) -> (r: Option<(Vec<char>, u32, u32)>)
    ensures
        match r {
            Some((iface, dest, mask)) => route_of(line@) == Some((iface@, dest, mask)),
            None => route_of(line@) is None,
        },
{
    let mut w = split_words(line);
    let ghost wv = words(line@);
    assert(views(w@) == wv);
    assert(w@.len() == wv.len());
    if w.len() < 8 {
        return None;
    }
    assert(wv[0] == w@[0]@ && wv[1] == w@[1]@ && wv[7] == w@[7]@);
    let dest = parse_number(w[1].as_slice(), 16, 0xFFFF_FFFF);
    let mask = parse_number(w[7].as_slice(), 16, 0xFFFF_FFFF);
    match (dest, mask) {
        (Some(d), Some(m)) => Some((w.swap_remove(0), d as u32, m as u32)),
        _ => None,
    }
}

/// Finds the interface of the route to an address in the text of the routing table.
pub fn iface_for_ipv4(table: &str, target: [u8; 4]) -> (r: Option<String>)
    ensures
        match r {
            Some(s) => best_route(
                lines(table@),
                1,
                table_number(target@) as u32,
                None,
            ) == Some(s@),
            None => best_route(lines(table@), 1, table_number(target@) as u32, None) is None,
        },
{
    let t: u32 = (target[3] as u32) * 0x100_0000 + (target[2] as u32) * 0x1_0000 + (
    target[1] as u32) * 0x100 + (target[0] as u32);
    let chars = chars_of(table);
    let ls = split_lines(chars.as_slice());
    let ghost lv = lines(table@);
    assert(views(ls@) == lv);
    let mut best: Option<(u32, Vec<char>)> = None;
    let mut i: usize = 1;
    while i < ls.len()
        invariant
            1 <= i,
            views(ls@) == lv,
            best_route(lv, 1, t, None) == best_route(
                lv,
                i as int,
                t,
                match best {
                    Some((b, v)) => Some((b as nat, v@)),
                    None => None,
                },
            ),
            lv == lines(table@),
            t == table_number(target@),
        decreases ls@.len() - i,
    {
        assert(lv[i as int] == ls@[i as int]@);
        match parse_route(ls[i].as_slice()) {
            None => {
                return None;
            },
            Some((iface, dest, mask)) => {
                let bits: u32 = count_bits(mask);
                let better: bool = match &best {
                    Some((b, _)) => bits > *b,
                    None => true,
                };
                if (t & mask) == (dest & mask) && better {
                    best = Some((bits, iface));
                }
            },
        }
        i += 1;
    }
    match best {
        Some((_, v)) => Some(string_of(v.as_slice())),
        None => None,
    }
}

/// The interface of the first route from line `i` on whose destination is zero. A
/// line with fewer than two words ends the search.
pub open spec fn default_from(ls: Seq<Seq<char>>, i: int) -> Option<Seq<char>>
    decreases ls.len() - i,
{
    if i < 0 || i >= ls.len() {
        None
    } else {
        let w = words(ls[i]);
        if w.len() < 2 {
            None
        } else if w[1] == "00000000"@ {
            Some(w[0])
        } else {
            default_from(ls, i + 1)
        }
    }
}

/// Finds the interface of the default route in the text of the routing table.
pub fn default_interface(table: &str) -> (r: Option<String>)
    ensures
        match r {
            Some(s) => default_from(lines(table@), 1) == Some(s@),
            None => default_from(lines(table@), 1) is None,
        },
{
    let chars = chars_of(table);
    let ls = split_lines(chars.as_slice());
    let ghost lv = lines(table@);
    assert(views(ls@) == lv);
    let mut i: usize = 1;
    while i < ls.len()
        invariant
            1 <= i,
            views(ls@) == lv,
            default_from(lv, i as int) == default_from(lv, 1),
            lv == lines(table@),
        decreases ls@.len() - i,
    {
        assert(lv[i as int] == ls@[i as int]@);
        let w = split_words(ls[i].as_slice());
        let ghost wv = words(lv[i as int]);
        assert(views(w@) == wv);
        assert(w@.len() == wv.len());
        if w.len() < 2 {
            return None;
        }
        assert(wv[0] == w@[0]@ && wv[1] == w@[1]@);
        if chars_are(w[1].as_slice(), "00000000") {
            return Some(string_of(w[0].as_slice()));
        }
        i += 1;
    }
    None
}

/// The default interface of a routing table that may not be readable.
pub open spec fn default_of(table: Option<Seq<char>>) -> Option<Seq<char>> {
    match table {
        Some(t) => default_from(lines(t), 1),
        None => None,
    }
}

/// The interface that leads to a server: `lo` to this machine; for IPv4 the one
/// whose subnet holds the server, else the one of the best route; for IPv6 the
/// default one.
pub open spec fn server_iface(
    server: ServerAddr,
    list: Seq<IfAddr>,
    table: Option<Seq<char>>,
) -> Option<Seq<char>> {
    if server.loopback() {
        Some("lo"@)
    } else {
        match server {
            ServerAddr::V4(a) => match subnet_from(list, 0, v4_number(a@) as u32) {
                Some(s) => Some(s),
                None => match table {
                    Some(t) => best_route(lines(t), 1, table_number(a@) as u32, None),
                    None => None,
                },
            },
            ServerAddr::V6(_) => default_of(table),
        }
    }
}

/// Finds the interface that leads to a server.
pub fn iface_for_server(server: &ServerAddr, list: &Vec<IfAddr>, table: Option<&str>) -> (r: Option<
    String,
>)
    ensures
        ({
            let t = match table {
                Some(s) => Some(s@),
                None => None,
            };
            match r {
                Some(s) => server_iface(*server, list@, t) == Some(s@),
                None => server_iface(*server, list@, t) is None,
            }
        }),
{
    if server.is_loopback() {
        return Some("lo".to_owned());
    }
    match server {
        ServerAddr::V4(a) => {
            match iface_for_subnet(list, v4_to_u32(a)) {
                Some(s) => Some(s),
                None => match table {
                    Some(t) => iface_for_ipv4(t, *a),
                    None => None,
                },
            }
        },
        ServerAddr::V6(_) => match table {
            Some(t) => default_interface(t),
            None => None,
        },
    }
}

/// Finds the interface for a run: the one that leads to the server, else the
/// default one, else `eth0`.
pub fn iface_for_benchmark(server: &ServerAddr, list: &Vec<IfAddr>, table: Option<&str>) -> (r:
    String)
    ensures
        ({
            let t = match table {
                Some(s) => Some(s@),
                None => None,
            };
            r@ == match server_iface(*server, list@, t) {
                Some(s) => s,
                None => match default_of(t) {
                    Some(s) => s,
                    None => "eth0"@,
                },
            }
        }),
{
    match iface_for_server(server, list, table) {
        Some(s) => s,
        None => {
            let d = match table {
                Some(t) => default_interface(t),
                None => None,
            };
            match d {
                Some(s) => s,
                None => "eth0".to_owned(),
            }
        },
    }
}

/// Whether a line of a device's event file, from `i` on, marks a VLAN.
pub open spec fn vlan_from_line(ls: Seq<Seq<char>>, i: int) -> bool
    decreases ls.len() - i,
{
    if i < 0 || i >= ls.len() {
        false
    } else {
        trim(ls[i]) == "DEVTYPE=vlan"@ || vlan_from_line(ls, i + 1)
    }
}

/// Whether an interface is virtual: it has no device of its own, and its event
/// file does not mark it as a VLAN.
pub fn is_virtual_interface(has_device: bool, uevent: &str) -> (r: bool)
    ensures
        r == (!has_device && !vlan_from_line(lines(uevent@), 0)),
{
    if has_device {
        return false;
    }
    let chars = chars_of(uevent);
    let ls = split_lines(chars.as_slice());
    let ghost lv = lines(uevent@);
    assert(views(ls@) == lv);
    let mut i: usize = 0;
    while i < ls.len()
        invariant
            i <= ls@.len(),
            views(ls@) == lv,
            vlan_from_line(lv, i as int) == vlan_from_line(lv, 0),
            lv == lines(uevent@),
            !has_device,
        decreases ls@.len() - i,
    {
        assert(lv[i as int] == ls@[i as int]@);
        let t = trimmed(ls[i].as_slice());
        if chars_are(t.as_slice(), "DEVTYPE=vlan") {
            return false;
        }
        i += 1;
    }
    true
}

/// The interface below another, by the first name from `i` on that starts with
/// `lower_` and goes on.
pub open spec fn lower_from(names: Seq<Seq<char>>, i: int) -> Option<Seq<char>>
    decreases names.len() - i,
{
    if i < 0 || i >= names.len() {
        None
    } else {
        match after_prefix(names[i], "lower_"@) {
            Some(rest) => if rest.len() > 0 {
                Some(rest)
            } else {
                lower_from(names, i + 1)
            },
            None => lower_from(names, i + 1),
        }
    }
}

/// What is known of the interface that another is a part of.
#[derive(Debug)]
pub struct Master {
    pub name: String,
    pub is_virtual: bool,
    /// The first physical port of it, where it is a bridge.
    pub port: Option<String>,
}

/// The physical interface behind a virtual one: one below it; else the one it is a
/// part of, or a port of that; else a port of its own.
pub open spec fn parent_of(
    names: Seq<Seq<char>>,
    master: Option<Master>,
    own_port: Option<String>,
) -> Option<Seq<char>> {
    let own = match own_port {
        Some(p) => Some(p@),
        None => None,
    };
    match lower_from(names, 0) {
        Some(l) => Some(l),
        None => match master {
            Some(m) => if m.name@.len() == 0 {
                own
            } else if !m.is_virtual {
                Some(m.name@)
            } else {
                match m.port {
                    Some(p) => Some(p@),
                    None => own,
                }
            },
            None => own,
        },
    }
}

/// Finds the physical interface behind a virtual one.
pub fn parent_interface(names: &Vec<String>, master: Option<Master>, own_port: Option<String>) -> (r:
    Option<String>)
    ensures
        match r {
            Some(s) => parent_of(string_views(names@), master, own_port) == Some(s@),
            None => parent_of(string_views(names@), master, own_port) is None,
        },
{
    let ghost nv = string_views(names@);
    let mut i: usize = 0;
    while i < names.len()
        invariant
            i <= names@.len(),
            nv == string_views(names@),
            lower_from(nv, i as int) == lower_from(nv, 0),
        decreases names@.len() - i,
    {
        let chars = chars_of(names[i].as_str());
        assert(nv[i as int] == chars@);
        match strip_prefix(chars.as_slice(), "lower_") {
            Some(rest) => {
                if rest.len() > 0 {
                    return Some(string_of(rest.as_slice()));
                }
            },
            None => {},
        }
        i += 1;
    }
    match master {
        Some(m) => {
            if chars_of(m.name.as_str()).len() > 0 {
                if !m.is_virtual {
                    return Some(m.name);
                }
                if m.port.is_some() {
                    return m.port;
                }
            }
        },
        None => {},
    }
    own_port
}

/// The first port from `i` on that is not virtual.
pub open spec fn port_from(ports: Seq<(String, bool)>, i: int) -> Option<Seq<char>>
    decreases ports.len() - i,
{
    if i < 0 || i >= ports.len() {
        None
    } else if !ports[i].1 {
        Some(ports[i].0@)
    } else {
        port_from(ports, i + 1)
    }
}

/// Finds the first port of a bridge that is not virtual.
pub fn first_physical_bridge_port(ports: &Vec<(String, bool)>) -> (r: Option<String>)
    ensures
        match r {
            Some(s) => port_from(ports@, 0) == Some(s@),
            None => port_from(ports@, 0) is None,
        },
{
    let mut i: usize = 0;
    while i < ports.len()
        invariant
            i <= ports@.len(),
            port_from(ports@, i as int) == port_from(ports@, 0),
        decreases ports@.len() - i,
    {
        if !ports[i].1 {
            return Some(ports[i].0.clone());
        }
        i += 1;
    }
    None
}

/// How many names have a prefix: of one more name one more where it begins so.
pub proof fn prefixed_names_add_up(names: Seq<Seq<char>>, prefix: Seq<char>, rest: Seq<char>)
    ensures
        count_prefixed(names, prefix, 0) == 0,
        count_prefixed(names.push(prefix + rest), prefix, names.len() + 1) == count_prefixed(
            names,
            prefix,
            names.len(),
        ) + 1,
        forall|other: Seq<char>| #[trigger]
            after_prefix(other, prefix) is None ==> count_prefixed(
                names.push(other),
                prefix,
                names.len() + 1,
            ) == count_prefixed(names, prefix, names.len()),
{
    crate::text::prefix_is_stripped(prefix + rest, prefix, rest);
    lemma_prefixed_start(names.push(prefix + rest), names, prefix, names.len());
    assert forall|other: Seq<char>| #[trigger]
        after_prefix(other, prefix) is None implies count_prefixed(
        names.push(other),
        prefix,
        names.len() + 1,
    ) == count_prefixed(names, prefix, names.len()) by {
        lemma_prefixed_start(names.push(other), names, prefix, names.len());
    }
}

proof fn lemma_prefixed_start(
    a: Seq<Seq<char>>,
    b: Seq<Seq<char>>,
    prefix: Seq<char>,
    n: nat,
)
    requires
        forall|j: int| 0 <= j < n ==> a[j] == b[j],
    ensures
        count_prefixed(a, prefix, n) == count_prefixed(b, prefix, n),
    decreases n,
{
    if n > 0 {
        lemma_prefixed_start(a, b, prefix, (n - 1) as nat);
    }
}

/// An interface leads to a server whose address is its own where the mask is set; the
/// one to this machine and one without a mask lead nowhere.
pub proof fn subnets_hold_their_servers(a: IfAddr, server: u32)
    ensures
        in_subnet(a, server) ==> a.mask != 0 && a.name@ != "lo"@,
        a.mask == 0xFFFF_FFFF && a.name@ != "lo"@ ==> (in_subnet(a, server) <==> a.addr == server),
        a.mask != 0 && a.name@ != "lo"@ && a.addr == server ==> in_subnet(a, server),
        a.mask == 0xFFFF_FF00 && a.name@ != "lo"@ ==> (in_subnet(a, server) <==> a.addr / 256
            == server / 256),
        a.mask == 0xFFFF_0000 && a.name@ != "lo"@ ==> (in_subnet(a, server) <==> a.addr / 65536
            == server / 65536),
{
    let x = a.addr;
    assert(x & 0xFFFF_FFFF == x && server & 0xFFFF_FFFF == server) by (bit_vector);
    assert((x & 0xFFFF_FF00 == server & 0xFFFF_FF00) <==> (x / 256 == server / 256))
        by (bit_vector);
    assert((x & 0xFFFF_0000 == server & 0xFFFF_0000) <==> (x / 65536 == server / 65536))
        by (bit_vector);
}

/// The first interface whose subnet holds a server leads to it.
pub proof fn first_subnet_leads(list: Seq<IfAddr>, from: int, i: int, server: u32)
    requires
        0 <= from <= i < list.len(),
        in_subnet(list[i], server),
        forall|j: int| from <= j < i ==> !in_subnet(#[trigger] list[j], server),
    ensures
        subnet_from(list, from, server) == Some(list[i].name@),
    decreases i - from,
{
    if from < i {
        assert(!in_subnet(list[from], server));
        first_subnet_leads(list, from + 1, i, server);
    }
}

/// The first address of an interface is its address.
pub proof fn first_address_counts(list: Seq<IfAddr>, from: int, i: int)
    requires
        0 <= from <= i < list.len(),
        forall|j: int| from <= j < i ==> (#[trigger] list[j]).name@ != list[i].name@,
    ensures
        addr_from(list, from, list[i].name@) == Some(list[i].addr),
    decreases i - from,
{
    if from < i {
        assert(list[from].name@ != list[i].name@);
        first_address_counts(list, from + 1, i);
    }
}

/// How many bits of a number are one: none of zero, and one more with each one that is
/// put at its end.
pub proof fn bits_add_up(x: nat)
    ensures
        bit_count(0) == 0,
        bit_count(2 * x) == bit_count(x),
        bit_count(2 * x + 1) == bit_count(x) + 1,
{
    assert((2 * x) / 2 == x && (2 * x) % 2 == 0);
    assert((2 * x + 1) / 2 == x && (2 * x + 1) % 2 == 1);
    if x == 0 {
        assert(bit_count(0) == 0);
    }
}

/// The routing table writes an address with its first byte lowest.
pub proof fn table_has_first_byte_lowest(a: Seq<u8>)
    requires
        a.len() == 4,
    ensures
        ({
            let n = table_number(a);
            &&& n % 256 == a[0]
            &&& n / 256 % 256 == a[1]
            &&& n / 65536 % 256 == a[2]
            &&& n / 16_777_216 == a[3]
        }),
{
}

/// Whether a line of the routing table leads to a target over an interface with a mask of
/// so many bits.
pub open spec fn leads(line: Seq<char>, target: u32, iface: Seq<char>, bits: nat) -> bool {
    route_of(line) matches Some((name, dest, mask)) && name == iface && (target & mask) == (dest
        & mask) && bit_count(mask as nat) == bits
}

/// The route that is taken leads to the target, and no other route to it has a longer
/// mask.
pub proof fn longest_mask_wins(ls: Seq<Seq<char>>, from: int, target: u32)
    requires
        0 <= from,
        best_route(ls, from, target, None) is Some,
    ensures
        exists|i: int, bits: nat|
            from <= i < ls.len() && #[trigger] leads(
                ls[i],
                target,
                best_route(ls, from, target, None)->0,
                bits,
            ) && forall|j: int, name: Seq<char>, more: nat|
                from <= j < ls.len() && #[trigger] leads(ls[j], target, name, more) ==> more <= bits,
{
    lemma_best(ls, from, target, None);
}

proof fn lemma_best(
    ls: Seq<Seq<char>>,
    from: int,
    target: u32,
    best: Option<(nat, Seq<char>)>,
)
    requires
        0 <= from,
        best_route(ls, from, target, best) is Some,
    ensures
        ({
            let r = best_route(ls, from, target, best)->0;
            ||| best matches Some((b, name)) && r == name && forall|j: int, n: Seq<char>, more: nat|
                from <= j < ls.len() && #[trigger] leads(ls[j], target, n, more) ==> more <= b
            ||| exists|i: int, bits: nat|
                from <= i < ls.len() && #[trigger] leads(ls[i], target, r, bits) && (
                best matches Some((b, _)) ==> bits > b) && forall|j: int, n: Seq<char>, more: nat|
                    from <= j < ls.len() && #[trigger] leads(ls[j], target, n, more) ==> more <= bits
        }),
    decreases ls.len() - from,
{
    if from < ls.len() {
        let (iface, dest, mask) = route_of(ls[from])->0;
        let bits = bit_count(mask as nat);
        let better = match best {
            Some((b, _)) => bits > b,
            None => true,
        };
        let r = best_route(ls, from, target, best)->0;
        let matching = (target & mask) == (dest & mask);
        if matching && better {
            let next = Some((bits, iface));
            lemma_best(ls, from + 1, target, next);
            assert(leads(ls[from], target, iface, bits));
            if exists|i: int, k: nat|
                from + 1 <= i < ls.len() && #[trigger] leads(ls[i], target, r, k) && k > bits
                    && forall|j: int, n: Seq<char>, more: nat|
                    from + 1 <= j < ls.len() && #[trigger] leads(ls[j], target, n, more) ==> more <= k {
                let (i, k) = choose|i: int, k: nat|
                    from + 1 <= i < ls.len() && #[trigger] leads(ls[i], target, r, k) && k > bits
                        && forall|j: int, n: Seq<char>, more: nat|
                        from + 1 <= j < ls.len() && #[trigger] leads(ls[j], target, n, more)
                            ==> more <= k;
                assert(leads(ls[i], target, r, k));
                assert forall|j: int, n: Seq<char>, more: nat|
                    from <= j < ls.len() && #[trigger] leads(ls[j], target, n, more) implies more
                    <= k by {}
            } else {
                assert(r == iface);
                assert forall|j: int, n: Seq<char>, more: nat|
                    from <= j < ls.len() && #[trigger] leads(ls[j], target, n, more) implies more
                    <= bits by {}
            }
        } else {
            lemma_best(ls, from + 1, target, best);
            if matching {
                assert(best is Some);
            }
            if exists|i: int, k: nat|
                from + 1 <= i < ls.len() && #[trigger] leads(ls[i], target, r, k) && (
                best matches Some((b, _)) ==> k > b) && forall|j: int, n: Seq<char>, more: nat|
                    from + 1 <= j < ls.len() && #[trigger] leads(ls[j], target, n, more) ==> more <= k {
                let (i, k) = choose|i: int, k: nat|
                    from + 1 <= i < ls.len() && #[trigger] leads(ls[i], target, r, k) && (
                    best matches Some((b, _)) ==> k > b) && forall|j: int, n: Seq<char>, more: nat|
                        from + 1 <= j < ls.len() && #[trigger] leads(ls[j], target, n, more)
                            ==> more <= k;
                assert(leads(ls[i], target, r, k));
                assert forall|j: int, n: Seq<char>, more: nat|
                    from <= j < ls.len() && #[trigger] leads(ls[j], target, n, more) implies more
                    <= k by {}
            } else {
                let (b, _) = best->0;
                assert forall|j: int, n: Seq<char>, more: nat|
                    from <= j < ls.len() && #[trigger] leads(ls[j], target, n, more) implies more
                    <= b by {}
            }
        }
    }
}

/// What a line of the routing table says: its first word is the interface, its second
/// the destination and its eighth the mask, both in base sixteen.
pub proof fn routes_have_columns(line: Seq<char>, dest: int, mask: int)
    requires
        words(line).len() >= 8,
        number(words(line)[1], 16, 0xFFFF_FFFF) == Some(dest),
        number(words(line)[7], 16, 0xFFFF_FFFF) == Some(mask),
    ensures
        route_of(line) == Some((words(line)[0], dest as u32, mask as u32)),
{
}

/// The default route is the first whose destination is all zeros.
pub proof fn first_default_counts(ls: Seq<Seq<char>>, from: int, i: int)
    requires
        0 <= from <= i < ls.len(),
        words(ls[i]).len() >= 2,
        words(ls[i])[1] == "00000000"@,
        forall|j: int|
            from <= j < i ==> words(#[trigger] ls[j]).len() >= 2 && words(ls[j])[1]
                != "00000000"@,
    ensures
        default_from(ls, from) == Some(words(ls[i])[0]),
    decreases i - from,
{
    if from < i {
        assert(words(ls[from])[1] != "00000000"@);
        first_default_counts(ls, from + 1, i);
    }
}

/// Which interface leads to a server: to this machine the loopback, to IPv4 the one of
/// its subnet and else that of its route, to IPv6 the default one.
pub proof fn servers_have_interfaces(
    a: [u8; 4],
    b: [u8; 16],
    list: Seq<IfAddr>,
    table: Seq<char>,
)
    ensures
        a@[0] == 127 ==> server_iface(ServerAddr::V4(a), list, Some(table)) == Some("lo"@),
        a@[0] != 127 && subnet_from(list, 0, v4_number(a@) as u32) is Some ==> server_iface(
            ServerAddr::V4(a),
            list,
            Some(table),
        ) == subnet_from(list, 0, v4_number(a@) as u32),
        a@[0] != 127 && subnet_from(list, 0, v4_number(a@) as u32) is None ==> server_iface(
            ServerAddr::V4(a),
            list,
            Some(table),
        ) == best_route(lines(table), 1, table_number(a@) as u32, None),
        b@[0] != 0 ==> server_iface(ServerAddr::V6(b), list, Some(table)) == default_from(
            lines(table),
            1,
        ),
{
    if b@[0] != 0 {
        assert(!ServerAddr::V6(b).loopback());
    }
}

/// An interface is a VLAN where a line of its event file says so.
pub proof fn vlans_are_marked(ls: Seq<Seq<char>>, from: int)
    requires
        0 <= from,
    ensures
        vlan_from_line(ls, from) <==> exists|i: int|
            from <= i < ls.len() && trim(#[trigger] ls[i]) == "DEVTYPE=vlan"@,
    decreases ls.len() - from,
{
    if from < ls.len() {
        vlans_are_marked(ls, from + 1);
        if trim(ls[from]) == "DEVTYPE=vlan"@ {
            assert(trim(ls[from]) == "DEVTYPE=vlan"@);
        }
    }
}

/// The interface below another is what follows the mark in the first name that has it.
pub proof fn first_lower_counts(names: Seq<Seq<char>>, from: int, i: int, rest: Seq<char>)
    requires
        0 <= from <= i < names.len(),
        names[i] == "lower_"@ + rest,
        rest.len() > 0,
        forall|j: int|
            from <= j < i ==> after_prefix(#[trigger] names[j], "lower_"@) is None,
    ensures
        lower_from(names, from) == Some(rest),
    decreases i - from,
{
    crate::text::prefix_is_stripped(names[i], "lower_"@, rest);
    if from < i {
        assert(after_prefix(names[from], "lower_"@) is None);
        first_lower_counts(names, from + 1, i, rest);
    }
}

/// The first port that is not virtual counts.
pub proof fn first_physical_port_counts(ports: Seq<(String, bool)>, from: int, i: int)
    requires
        0 <= from <= i < ports.len(),
        !ports[i].1,
        forall|j: int| from <= j < i ==> (#[trigger] ports[j]).1,
    ensures
        port_from(ports, from) == Some(ports[i].0@),
    decreases i - from,
{
    if from < i {
        assert(ports[from].1);
        first_physical_port_counts(ports, from + 1, i);
    }
}

/// Behind a virtual interface stands the one below it, else the one it is a part of
/// where that is physical, else a port of that, else a port of its own.
pub proof fn parents_have_an_order(
    names: Seq<Seq<char>>,
    master: Option<Master>,
    own_port: Option<String>,
)
    ensures
        lower_from(names, 0) is Some ==> parent_of(names, master, own_port) == lower_from(names, 0),
        lower_from(names, 0) is None ==> {
            &&& master matches Some(m) ==> {
                &&& m.name@.len() > 0 && !m.is_virtual ==> parent_of(names, master, own_port)
                    == Some(m.name@)
                &&& m.name@.len() > 0 && m.is_virtual && m.port is Some ==> parent_of(
                    names,
                    master,
                    own_port,
                ) == Some(m.port->0@)
            }
            &&& master is None && own_port is Some ==> parent_of(names, master, own_port) == Some(
                own_port->0@,
            )
            &&& master is None && own_port is None ==> parent_of(names, master, own_port) is None
        },
{
}

} // verus!
