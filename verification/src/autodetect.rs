//! What the machine offers.

use vstd::prelude::*;

use crate::config::{v4_number, v4_to_u32, ServerAddr};
use crate::text::{
    after_prefix, all_digits, chars_of, digits_value, lines, number, parse_number, split_lines,
    split_words, string_of, string_views, strip_prefix, trim, trimmed, views, words,
};

verus! {

/// What was found at the start.
#[derive(Debug, Clone, Copy, PartialEq, Eq, Structural)]
pub struct AutoConfig {
    pub cpus: usize,
    pub mem_mb: u64,
    pub xdp_available: bool,
}

/// `num_cpus::get`: how many processors this process may use; one at least. The
/// number is the machine's, so nothing more is stated.
#[verifier::external_body]
pub(crate) fn logical_cpus() -> (n: usize)
    ensures
        n >= 1,
{
    num_cpus::get()
}

/// `num_cpus::get_physical`: how many cores the machine has; one at least. The
/// number is the machine's, so nothing more is stated.
#[verifier::external_body]
pub(crate) fn physical_cpus() -> (n: usize)
    ensures
        n >= 1,
{
    num_cpus::get_physical()
}

/// Looks at the machine. The text is that of the memory file.
pub fn detect(meminfo: &str, xdp_available: bool) -> (r: AutoConfig)
    ensures
        r.cpus >= 1,
        r.mem_mb == avail_mb(meminfo@),
        r.xdp_available == xdp_available,
{
    let cpus: usize = logical_cpus();
    AutoConfig { cpus, mem_mb: read_proc_meminfo_avail_mb(meminfo), xdp_available }
}

/// The number at the start of what follows a heading; zero where there is none.
pub open spec fn leading_number(rest: Seq<char>) -> u64 {
    let w = words(rest);
    if w.len() > 0 {
        match number(w[0], 10, u64::MAX as int) {
            Some(n) => n as u64,
            None => 0,
        }
    } else {
        0
    }
}

/// Reads the number at the start of a text.
fn parse_leading(rest: &[char]) -> (n: u64)
    ensures
        n == leading_number(rest@),
{
    let w = split_words(rest);
    assert(views(w@) == words(rest@));
    if w.len() > 0 {
        assert(words(rest@)[0] == w@[0]@);
        match parse_number(w[0].as_slice(), 10, u64::MAX) {
            Some(n) => n,
            None => 0,
        }
    } else {
        0
    }
}

/// The free memory in kilobytes by the first line from `i` on that gives it.
pub open spec fn avail_from(ls: Seq<Seq<char>>, i: int) -> u64
    decreases ls.len() - i,
{
    if i < 0 || i >= ls.len() {
        0
    } else {
        match after_prefix(ls[i], "MemAvailable:"@) {
            Some(rest) => leading_number(rest),
            None => avail_from(ls, i + 1),
        }
    }
}

/// The free memory in megabytes.
pub open spec fn avail_mb(meminfo: Seq<char>) -> u64 {
    avail_from(lines(meminfo), 0) / 1024
}

/// Reads the free memory in megabytes from the text of the memory file.
pub fn read_proc_meminfo_avail_mb(meminfo: &str) -> (r: u64)
    ensures
        r == avail_mb(meminfo@),
{
    let chars = chars_of(meminfo);
    let ls = split_lines(chars.as_slice());
    let ghost lv = lines(meminfo@);
    assert(views(ls@) == lv);
    let mut i: usize = 0;
    while i < ls.len()
        invariant
            i <= ls@.len(),
            views(ls@) == lv,
            avail_from(lv, i as int) == avail_from(lv, 0),
            lv == lines(meminfo@),
        decreases ls@.len() - i,
    {
        assert(lv[i as int] == ls@[i as int]@);
        match strip_prefix(ls[i].as_slice(), "MemAvailable:") {
            Some(rest) => {
                return parse_leading(rest.as_slice()) / 1024;
            },
            None => {},
        }
        i += 1;
    }
    0
}

/// The model of the processor by the first line from `i` on that gives it.
pub open spec fn model_from(ls: Seq<Seq<char>>, i: int) -> Option<Seq<char>>
    decreases ls.len() - i,
{
    if i < 0 || i >= ls.len() {
        None
    } else {
        match after_prefix(ls[i], "model name\t:"@) {
            Some(rest) => Some(trim(rest)),
            None => model_from(ls, i + 1),
        }
    }
}

/// Reads the model of the processor from the text of the processor file.
pub fn cpu_model(cpuinfo: &str) -> (r: Option<String>)
    ensures
        match r {
            Some(m) => model_from(lines(cpuinfo@), 0) == Some(m@),
            None => model_from(lines(cpuinfo@), 0) is None,
        },
{
    let chars = chars_of(cpuinfo);
    let ls = split_lines(chars.as_slice());
    let ghost lv = lines(cpuinfo@);
    assert(views(ls@) == lv);
    let mut i: usize = 0;
    while i < ls.len()
        invariant
            i <= ls@.len(),
            views(ls@) == lv,
            model_from(lv, i as int) == model_from(lv, 0),
            lv == lines(cpuinfo@),
        decreases ls@.len() - i,
    {
        assert(lv[i as int] == ls@[i as int]@);
        match strip_prefix(ls[i].as_slice(), "model name\t:") {
            Some(rest) => {
                let t = trimmed(rest.as_slice());
                return Some(string_of(t.as_slice()));
            },
            None => {},
        }
        i += 1;
    }
    None
}

/// The whole and the free memory in kilobytes by the first `n` lines: the last
/// line that gives one of them counts.
pub open spec fn total_and_avail(ls: Seq<Seq<char>>, n: nat) -> (u64, u64)
    decreases n,
{
    if n == 0 {
        (0, 0)
    } else {
        let (total, avail) = total_and_avail(ls, (n - 1) as nat);
        match after_prefix(ls[n - 1], "MemTotal:"@) {
            Some(rest) => (leading_number(rest), avail),
            None => match after_prefix(ls[n - 1], "MemAvailable:"@) {
                Some(rest) => (total, leading_number(rest)),
                None => (total, avail),
            },
        }
    }
}

/// Reads the whole and the free memory in kilobytes from the text of the memory
/// file.
pub fn read_proc_meminfo_total_and_avail_kb(meminfo: &str) -> (r: (u64, u64))
    ensures
        r == total_and_avail(lines(meminfo@), lines(meminfo@).len()),
{
    let chars = chars_of(meminfo);
    let ls = split_lines(chars.as_slice());
    let ghost lv = lines(meminfo@);
    assert(views(ls@) == lv);
    let mut total: u64 = 0;
    let mut avail: u64 = 0;
    let mut i: usize = 0;
    while i < ls.len()
        invariant
            i <= ls@.len(),
            views(ls@) == lv,
            (total, avail) == total_and_avail(lv, i as nat),
        decreases ls@.len() - i,
    {
        assert(lv[i as int] == ls@[i as int]@);
        match strip_prefix(ls[i].as_slice(), "MemTotal:") {
            Some(rest) => {
                total = parse_leading(rest.as_slice());
            },
            None => match strip_prefix(ls[i].as_slice(), "MemAvailable:") {
                Some(rest) => {
                    avail = parse_leading(rest.as_slice());
                },
                None => {},
            },
        }
        i += 1;
    }
    (total, avail)
}

/// How many processor numbers are looked at where so many are in use: twice as
/// many, since they need not be consecutive.
pub fn probe_span(cpus: usize) -> (n: usize)
    ensures
        n == if cpus <= usize::MAX / 2 {
            2 * cpus
        } else {
            usize::MAX as int
        },
        cpus <= n,
        n == 2 * cpus || n == usize::MAX,
{
    if cpus <= usize::MAX / 2 {
        cpus * 2
    } else {
        usize::MAX
    }
}

/// How many processor numbers are looked at on this machine: the span of those in
/// use, of which there is one at least.
pub fn cpus_to_probe() -> (n: usize)
    ensures
        n >= 2,
{
    probe_span(logical_cpus())
}

/// The core that a processor belongs to, where its file could be read.
pub open spec fn core_of(text: Option<String>) -> Option<int> {
    match text {
        Some(s) => number(trim(s@), 10, usize::MAX as int),
        None => None,
    }
}

/// The processors among the first `n` that are the first of their core.
pub open spec fn first_of_core(texts: Seq<Option<String>>, n: nat) -> Seq<usize>
    decreases n,
{
    if n == 0 {
        Seq::empty()
    } else {
        let before = first_of_core(texts, (n - 1) as nat);
        let c = core_of(texts[n - 1]);
        if c is Some && forall|j: int| 0 <= j < n - 1 ==> core_of(#[trigger] texts[j]) != c {
            before.push((n - 1) as usize)
        } else {
            before
        }
    }
}

/// The first `n` processors.
pub fn all_cores(n: usize) -> (r: Vec<usize>)
    ensures
        r@ == Seq::new(n as nat, |i: int| i as usize),
{
    let mut all: Vec<usize> = Vec::new();
    let mut i: usize = 0;
    while i < n
        invariant
            i <= n,
            all@ == Seq::new(i as nat, |j: int| j as usize),
        decreases n - i,
    {
        all.push(i);
        assert(all@ =~= Seq::new((i + 1) as nat, |j: int| j as usize));
        i += 1;
    }
    all
}

/// The processors that are the first of their core, by the texts of their core
/// files; without any, as many as the machine has cores.
pub fn physical_cores(texts: &Vec<Option<String>>) -> (cores: Vec<usize>)
    ensures
        first_of_core(texts@, texts@.len()).len() > 0 ==> cores@ == first_of_core(
            texts@,
            texts@.len(),
        ),
        first_of_core(texts@, texts@.len()).len() == 0 ==> cores@ == Seq::new(
            cores@.len(),
            |i: int| i as usize,
        ),
        cores@.len() > 0,
{
    let cores = known_cores(texts);
    if cores.len() > 0 {
        return cores;
    }
    all_cores(physical_cpus())
}

/// The processors that are the first of their core, by the texts of their core
/// files.
pub fn known_cores(texts: &Vec<Option<String>>) -> (cores: Vec<usize>)
    ensures
        cores@ == first_of_core(texts@, texts@.len()),
{
    let mut seen: Vec<u64> = Vec::new();
    let mut cores: Vec<usize> = Vec::new();
    let mut i: usize = 0;
    while i < texts.len()
        invariant
            i <= texts@.len(),
            cores@ == first_of_core(texts@, i as nat),
            forall|j: int|
                0 <= j < i ==> (core_of(#[trigger] texts@[j]) matches Some(c) ==> exists|k: int|
                    0 <= k < seen@.len() && seen@[k] == c),
            forall|k: int|
                0 <= k < seen@.len() ==> exists|j: int|
                    0 <= j < i && core_of(#[trigger] texts@[j]) == Some(#[trigger] seen@[k] as int),
        decreases texts@.len() - i,
    {
        let core: Option<u64> = match &texts[i] {
            Some(s) => {
                let chars = chars_of(s.as_str());
                let t = trimmed(chars.as_slice());
                parse_number(t.as_slice(), 10, usize::MAX as u64)
            },
            None => None,
        };
        assert(match core {
            Some(c) => core_of(texts@[i as int]) == Some(c as int),
            None => core_of(texts@[i as int]) is None,
        });
        match core {
            Some(c) => {
                let known: bool = contains(&seen, c);
                if !known {
                    let ghost before = seen@;
                    seen.push(c);
                    cores.push(i);
                    proof {
                        assert forall|j: int| 0 <= j < i implies core_of(
                            #[trigger] texts@[j],
                        ) != core_of(texts@[i as int]) by {
                            if core_of(texts@[j]) == Some(c as int) {
                                let k = choose|k: int| 0 <= k < before.len() && before[k] == c;
                                assert(before.contains(c));
                            }
                        }
                        assert forall|j: int| 0 <= j < i + 1 implies (core_of(
                            #[trigger] texts@[j],
                        ) matches Some(d) ==> exists|k: int|
                            0 <= k < seen@.len() && seen@[k] == d) by {
                            if j < i && core_of(texts@[j]) is Some {
                                let d = core_of(texts@[j])->0;
                                let k = choose|k: int| 0 <= k < before.len() && before[k] == d;
                                assert(seen@[k] == d);
                            } else if j == i {
                                assert(seen@[before.len() as int] == c);
                            }
                        }
                        assert forall|k: int| 0 <= k < seen@.len() implies exists|j: int|
                            0 <= j < i + 1 && core_of(#[trigger] texts@[j]) == Some(
                                #[trigger] seen@[k] as int,
                            ) by {
                            if k < before.len() {
                                assert(seen@[k] == before[k]);
                                let j = choose|j: int|
                                    0 <= j < i && core_of(#[trigger] texts@[j]) == Some(
                                        before[k] as int,
                                    );
                                assert(core_of(texts@[j]) == Some(seen@[k] as int));
                            } else {
                                assert(core_of(texts@[i as int]) == Some(seen@[k] as int));
                            }
                        }
                    }
                } else {
                    proof {
                        let k = choose|k: int| 0 <= k < seen@.len() && seen@[k] == c;
                        let j = choose|j: int|
                            0 <= j < i && core_of(#[trigger] texts@[j]) == Some(seen@[k] as int);
                        assert(core_of(texts@[j]) == core_of(texts@[i as int]));
                    }
                }
            },
            None => {},
        }
        i += 1;
    }
    cores
}

/// Whether a list holds a number.
fn contains(v: &Vec<u64>, x: u64) -> (r: bool)
    ensures
        r == v@.contains(x),
{
    let mut i: usize = 0;
    while i < v.len()
        invariant
            i <= v@.len(),
            forall|j: int| 0 <= j < i ==> v@[j] != x,
        decreases v@.len() - i,
    {
        if v[i] == x {
            assert(v@[i as int] == x);
            return true;
        }
        i += 1;
    }
    false
}

/// The node of a processor by the first name from `i` on of the form `node7`.
pub open spec fn node_from(names: Seq<Seq<char>>, i: int) -> Option<usize>
    decreases names.len() - i,
{
    if i < 0 || i >= names.len() {
        None
    } else {
        match after_prefix(names[i], "node"@) {
            Some(rest) => match number(rest, 10, usize::MAX as int) {
                Some(n) => Some(n as usize),
                None => node_from(names, i + 1),
            },
            None => node_from(names, i + 1),
        }
    }
}

/// The node of a processor, by the names in its directory.
pub fn numa_node_for_cpu(names: &Vec<String>) -> (r: Option<usize>)
    ensures
        r == node_from(string_views(names@), 0),
{
    let ghost nv = string_views(names@);
    let mut i: usize = 0;
    while i < names.len()
        invariant
            i <= names@.len(),
            nv == string_views(names@),
            node_from(nv, i as int) == node_from(nv, 0),
        decreases names@.len() - i,
    {
        let chars = chars_of(names[i].as_str());
        assert(nv[i as int] == chars@);
        match strip_prefix(chars.as_slice(), "node") {
            Some(rest) => match parse_number(rest.as_slice(), 10, usize::MAX as u64) {
                Some(n) => {
                    return Some(n as usize);
                },
                None => {},
            },
            None => {},
        }
        i += 1;
    }
    None
}

/// A 32-bit number that is not negative; minus zero is zero.
pub open spec fn non_negative(s: Seq<char>) -> Option<int> {
    if s.len() > 0 && s[0] == '-' {
        let d = s.skip(1);
        if d.len() > 0 && all_digits(d, 10) && digits_value(d, 10) == 0 {
            Some(0)
        } else {
            None
        }
    } else {
        number(s, 10, 0x7FFF_FFFF)
    }
}

/// The node of an interface: the number in its file, unless that is negative.
pub fn numa_node_for_iface(text: &str) -> (r: Option<usize>)
    ensures
        match r {
            Some(n) => non_negative(trim(text@)) == Some(n as int),
            None => non_negative(trim(text@)) is None,
        },
{
    let chars = chars_of(text);
    let t = trimmed(chars.as_slice());
    let s = t.as_slice();
    if s.len() > 0 && s[0] == '-' {
        if s.len() < 2 || s[1] == '+' {
            proof {
                if s@.len() >= 2 {
                    let d = s@.skip(1);
                    assert(d[0] == '+');
                    assert(crate::text::digit(d[0], 10) is None);
                }
            }
            return None;
        }
        let d = vstd::slice::slice_subrange(s, 1, s.len());
        assert(d@ =~= s@.skip(1));
        assert(crate::text::digits_of(d@) == d@);
        match parse_number(d, 10, 0) {
            Some(n) => Some(n as usize),
            None => {
                proof {
                    lemma_digits_nonneg(d@);
                }
                None
            },
        }
    } else {
        match parse_number(s, 10, 0x7FFF_FFFF) {
            Some(n) => Some(n as usize),
            None => None,
        }
    }
}

proof fn lemma_digits_nonneg(s: Seq<char>)
    ensures
        digits_value(s, 10) >= 0,
    decreases s.len(),
{
    if s.len() > 0 {
        lemma_digits_nonneg(s.drop_last());
    }
}

/// A 32-bit number with its bytes in the other order.
pub open spec fn swapped(x: int) -> int {
    (x % 0x100) * 0x100_0000 + (x / 0x100 % 0x100) * 0x1_0000 + (x / 0x1_0000 % 0x100) * 0x100 + x
        / 0x100_0000
}

/// Turns the bytes of a number round.
fn swap32(x: u32) -> (r: u32)
    ensures
        r == swapped(x as int),
{
    (x % 0x100) * 0x100_0000 + (x / 0x100 % 0x100) * 0x1_0000 + (x / 0x1_0000 % 0x100) * 0x100 + x
        / 0x100_0000
}

/// The destination and the mask of a line of the routing table, whose numbers are
/// written with the first byte lowest; what is no number counts as no
/// destination, or as no mask.
pub open spec fn route_numbers(w: Seq<Seq<char>>) -> (u32, u32) {
    (
        match number(w[1], 16, 0xFFFF_FFFF) {
            Some(d) => swapped(d) as u32,
            None => 0xFFFF_FFFF,
        },
        match number(w[7], 16, 0xFFFF_FFFF) {
            Some(m) => swapped(m) as u32,
            None => 0,
        },
    )
}

/// The interface of the first route from line `i` on that leads to an address,
/// else the one of the last default route.
pub open spec fn route_from(
    ls: Seq<Seq<char>>,
    i: int,
    addr: u32,
    default: Option<Seq<char>>,
) -> Option<Seq<char>>
    decreases ls.len() - i,
{
    if i < 0 || i >= ls.len() {
        default
    } else {
        let w = words(ls[i]);
        if w.len() < 4 {
            route_from(ls, i + 1, addr, default)
        } else {
            let (dest, mask) = route_numbers(w);
            if dest == 0 && mask == 0 {
                route_from(ls, i + 1, addr, Some(w[0]))
            } else if (addr & mask) == (dest & mask) {
                Some(w[0])
            } else {
                route_from(ls, i + 1, addr, default)
            }
        }
    }
}

/// Whether the search for a route never meets a line that has a gateway and flags
/// but ends before its mask.
pub open spec fn readable_from(ls: Seq<Seq<char>>, i: int, addr: u32) -> bool
    decreases ls.len() - i,
{
    if i < 0 || i >= ls.len() {
        true
    } else {
        let w = words(ls[i]);
        if w.len() < 4 {
            readable_from(ls, i + 1, addr)
        } else if w.len() < 8 {
            false
        } else {
            let (dest, mask) = route_numbers(w);
            if !(dest == 0 && mask == 0) && (addr & mask) == (dest & mask) {
                true
            } else {
                readable_from(ls, i + 1, addr)
            }
        }
    }
}

/// Whether a routing table can be searched for a server: it is not searched at all
/// for this machine and for IPv6.
pub open spec fn routes_readable(table: Seq<char>, addr: ServerAddr) -> bool {
    match addr {
        ServerAddr::V4(a) => addr.loopback() || readable_from(
            lines(table),
            1,
            v4_number(a@) as u32,
        ),
        ServerAddr::V6(_) => true,
    }
}

/// The interface that leads to a server; none for this machine and for IPv6.
pub open spec fn addr_iface(table: Seq<char>, addr: ServerAddr) -> Option<Seq<char>> {
    if addr.loopback() {
        None
    } else {
        match addr {
            ServerAddr::V4(a) => route_from(lines(table), 1, v4_number(a@) as u32, None),
            ServerAddr::V6(_) => None,
        }
    }
}

/// Reads the destination and the mask of a line of the routing table.
fn parse_route_numbers(w: &Vec<Vec<char>>) -> (r: (u32, u32))
    requires
        w@.len() >= 8,
    ensures
        r == route_numbers(views(w@)),
{
    assert(views(w@)[1] == w@[1]@ && views(w@)[7] == w@[7]@);
    let dest: u32 = match parse_number(w[1].as_slice(), 16, 0xFFFF_FFFF) {
        Some(d) => swap32(d as u32),
        None => 0xFFFF_FFFF,
    };
    let mask: u32 = match parse_number(w[7].as_slice(), 16, 0xFFFF_FFFF) {
        Some(m) => swap32(m as u32),
        None => 0,
    };
    (dest, mask)
}

/// Whether the text of a routing table can be searched for a server.
pub fn can_search_routes(table: &str, addr: &ServerAddr) -> (r: bool)
    ensures
        r == routes_readable(table@, *addr),
{
    let v4: u32 = match addr {
        ServerAddr::V4(a) => v4_to_u32(a),
        ServerAddr::V6(_) => {
            return true;
        },
    };
    if addr.is_loopback() {
        return true;
    }
    let chars = chars_of(table);
    let ls = split_lines(chars.as_slice());
    let ghost lv = lines(table@);
    assert(views(ls@) == lv);
    let mut i: usize = 1;
    while i < ls.len()
        invariant
            1 <= i,
            views(ls@) == lv,
            lv == lines(table@),
            !addr.loopback(),
            *addr matches ServerAddr::V4(a) && v4 == v4_number(a@),
            readable_from(lv, i as int, v4) == readable_from(lv, 1, v4),
        decreases ls@.len() - i,
    {
        assert(lv[i as int] == ls@[i as int]@);
        let w = split_words(ls[i].as_slice());
        assert(views(w@) == words(lv[i as int]));
        assert(w@.len() == words(lv[i as int]).len());
        if w.len() >= 4 {
            if w.len() < 8 {
                return false;
            }
            let (dest, mask) = parse_route_numbers(&w);
            if !(dest == 0 && mask == 0) && (v4 & mask) == (dest & mask) {
                return true;
            }
        }
        i += 1;
    }
    true
}

/// Finds the interface that leads to a server in the text of the routing table.
pub fn iface_for_addr(table: &str, addr: &ServerAddr) -> (r: Option<String>)
    requires
        routes_readable(table@, *addr),
    ensures
        match r {
            Some(s) => addr_iface(table@, *addr) == Some(s@),
            None => addr_iface(table@, *addr) is None,
        },
{
    if addr.is_loopback() {
        return None;
    }
    let v4: u32 = match addr {
        ServerAddr::V4(a) => v4_to_u32(a),
        ServerAddr::V6(_) => {
            return None;
        },
    };
    let chars = chars_of(table);
    let ls = split_lines(chars.as_slice());
    let ghost lv = lines(table@);
    assert(views(ls@) == lv);
    let mut default: Option<String> = None;
    let mut i: usize = 1;
    while i < ls.len()
        invariant
            1 <= i,
            views(ls@) == lv,
            lv == lines(table@),
            !addr.loopback(),
            *addr matches ServerAddr::V4(a) && v4 == v4_number(a@),
            readable_from(lv, i as int, v4),
            route_from(lv, 1, v4, None) == route_from(
                lv,
                i as int,
                v4,
                match default {
                    Some(s) => Some(s@),
                    None => None,
                },
            ),
        decreases ls@.len() - i,
    {
        assert(lv[i as int] == ls@[i as int]@);
        let w = split_words(ls[i].as_slice());
        let ghost wv = words(lv[i as int]);
        assert(views(w@) == wv);
        assert(w@.len() == wv.len());
        if w.len() >= 4 {
            assert(wv[0] == w@[0]@);
            let (dest, mask) = parse_route_numbers(&w);
            if dest == 0 && mask == 0 {
                default = Some(string_of(w[0].as_slice()));
            } else if (v4 & mask) == (dest & mask) {
                return Some(string_of(w[0].as_slice()));
            }
        }
        i += 1;
    }
    default
}

/// The cores of a node, in their order, among the first `n`; or those that are not
/// of it.
pub open spec fn cores_of_node(
    cores: Seq<usize>,
    nodes: Seq<Option<usize>>,
    node: usize,
    local: bool,
    n: nat,
) -> Seq<usize>
    decreases n,
{
    if n == 0 {
        Seq::empty()
    } else {
        let before = cores_of_node(cores, nodes, node, local, (n - 1) as nat);
        if (nodes[n - 1] == Some(node)) == local {
            before.push(cores[n - 1])
        } else {
            before
        }
    }
}

/// The cores with those of a node first; in their own order where no node is
/// preferred.
pub open spec fn numa_sorted(
    cores: Seq<usize>,
    nodes: Seq<Option<usize>>,
    preferred: Option<usize>,
) -> Seq<usize> {
    match preferred {
        None => cores,
        Some(node) => cores_of_node(cores, nodes, node, true, cores.len()) + cores_of_node(
            cores,
            nodes,
            node,
            false,
            cores.len(),
        ),
    }
}

/// Sorts the physical cores: those of the preferred node come first.
pub fn physical_cores_numa_sorted(
    cores: Vec<usize>,
    nodes: &Vec<Option<usize>>,
    preferred_node: Option<usize>,
) -> (r: Vec<usize>)
    requires
        nodes@.len() == cores@.len(),
    ensures
        r@ == numa_sorted(cores@, nodes@, preferred_node),
{
    let preferred: usize = match preferred_node {
        Some(p) => p,
        None => {
            return cores;
        },
    };
    let mut local: Vec<usize> = Vec::new();
    let mut remote: Vec<usize> = Vec::new();
    let mut i: usize = 0;
    while i < cores.len()
        invariant
            i <= cores@.len(),
            nodes@.len() == cores@.len(),
            local@ == cores_of_node(cores@, nodes@, preferred, true, i as nat),
            remote@ == cores_of_node(cores@, nodes@, preferred, false, i as nat),
        decreases cores@.len() - i,
    {
        let is_local: bool = match nodes[i] {
            Some(n) => n == preferred,
            None => false,
        };
        if is_local {
            local.push(cores[i]);
        } else {
            remote.push(cores[i]);
        }
        i += 1;
    }
    local.append(&mut remote);
    local
}

/// Sorting neither loses nor doubles a core.
pub proof fn sorting_keeps_cores(
    cores: Seq<usize>,
    nodes: Seq<Option<usize>>,
    preferred: Option<usize>,
)
    requires
        nodes.len() == cores.len(),
    ensures
        numa_sorted(cores, nodes, preferred).to_multiset() == cores.to_multiset(),
        numa_sorted(cores, nodes, preferred).len() == cores.len(),
{
    if let Some(node) = preferred {
        lemma_sorted_multiset(cores, nodes, node, cores.len());
        assert(cores.take(cores.len() as int) =~= cores);
        let a = cores_of_node(cores, nodes, node, true, cores.len());
        let b = cores_of_node(cores, nodes, node, false, cores.len());
        vstd::seq_lib::lemma_multiset_commutative(a, b);
        cores.to_multiset_ensures();
        (a + b).to_multiset_ensures();
        assert((a + b).to_multiset().len() == cores.to_multiset().len());
    }
}

proof fn lemma_sorted_multiset(
    cores: Seq<usize>,
    nodes: Seq<Option<usize>>,
    node: usize,
    n: nat,
)
    requires
        nodes.len() == cores.len(),
        n <= cores.len(),
    ensures
        cores_of_node(cores, nodes, node, true, n).to_multiset().add(
            cores_of_node(cores, nodes, node, false, n).to_multiset(),
        ) == cores.take(n as int).to_multiset(),
    decreases n,
{
    broadcast use vstd::seq_lib::group_to_multiset_ensures;

    if n == 0 {
        assert(cores.take(0) =~= Seq::<usize>::empty());
        assert(cores_of_node(cores, nodes, node, true, 0).to_multiset().add(
            cores_of_node(cores, nodes, node, false, 0).to_multiset(),
        ) =~= cores.take(0).to_multiset());
    } else {
        let m = (n - 1) as nat;
        lemma_sorted_multiset(cores, nodes, node, m);
        assert(cores.take(n as int) =~= cores.take(m as int).push(cores[m as int]));
        assert(cores_of_node(cores, nodes, node, true, n).to_multiset().add(
            cores_of_node(cores, nodes, node, false, n).to_multiset(),
        ) =~= cores.take(n as int).to_multiset());
    }
}

/// A heading is followed by its number: the first word is read as it is written.
pub proof fn first_word_is_the_number(rest: Seq<char>, n: nat)
    requires
        words(rest).len() > 0,
        words(rest)[0] == crate::text::decimal(n),
        n <= u64::MAX,
    ensures
        leading_number(rest) == n,
{
    crate::text::numbers_are_read_back(n, u64::MAX as int);
}

/// The first line that gives the free memory counts.
pub proof fn first_free_memory_counts(ls: Seq<Seq<char>>, from: int, i: int, rest: Seq<char>)
    requires
        0 <= from <= i < ls.len(),
        ls[i] == "MemAvailable:"@ + rest,
        forall|j: int|
            from <= j < i ==> after_prefix(#[trigger] ls[j], "MemAvailable:"@) is None,
    ensures
        avail_from(ls, from) == leading_number(rest),
    decreases i - from,
{
    crate::text::prefix_is_stripped(ls[i], "MemAvailable:"@, rest);
    if from < i {
        assert(after_prefix(ls[from], "MemAvailable:"@) is None);
        first_free_memory_counts(ls, from + 1, i, rest);
    }
}

/// A megabyte is 1024 kilobytes, and what is left over does not count.
pub proof fn megabytes_are_whole(meminfo: Seq<char>)
    ensures
        avail_mb(meminfo) * 1024 <= avail_from(lines(meminfo), 0) < (avail_mb(meminfo) + 1) * 1024,
{
}

/// The model of the processor is what follows the first heading, without the white space
/// around it.
pub proof fn first_model_counts(ls: Seq<Seq<char>>, from: int, i: int, rest: Seq<char>)
    requires
        0 <= from <= i < ls.len(),
        ls[i] == "model name\t:"@ + rest,
        forall|j: int| from <= j < i ==> after_prefix(#[trigger] ls[j], "model name\t:"@) is None,
    ensures
        model_from(ls, from) == Some(trim(rest)),
    decreases i - from,
{
    crate::text::prefix_is_stripped(ls[i], "model name\t:"@, rest);
    if from < i {
        assert(after_prefix(ls[from], "model name\t:"@) is None);
        first_model_counts(ls, from + 1, i, rest);
    }
}

/// Of the whole and the free memory the last line that gives it counts, and either leaves
/// the other alone.
pub proof fn last_memory_line_counts(ls: Seq<Seq<char>>, rest: Seq<char>)
    ensures
        total_and_avail(ls, 0) == (0u64, 0u64),
        total_and_avail(ls.push("MemTotal:"@ + rest), ls.len() + 1) == (
            leading_number(rest),
            total_and_avail(ls, ls.len()).1,
        ),
        total_and_avail(ls.push("MemAvailable:"@ + rest), ls.len() + 1) == (
            total_and_avail(ls, ls.len()).0,
            leading_number(rest),
        ),
{
    reveal_strlit("MemTotal:");
    reveal_strlit("MemAvailable:");
    let a = "MemTotal:"@ + rest;
    let b = "MemAvailable:"@ + rest;
    lemma_memory_start(ls.push(a), ls, ls.len());
    lemma_memory_start(ls.push(b), ls, ls.len());
    crate::text::prefix_is_stripped(a, "MemTotal:"@, rest);
    crate::text::prefix_is_stripped(b, "MemAvailable:"@, rest);
    assert("MemTotal:"@[3] == 'T' && b[3] == 'A');
    assert(after_prefix(b, "MemTotal:"@) is None);
}

proof fn lemma_memory_start(a: Seq<Seq<char>>, b: Seq<Seq<char>>, n: nat)
    requires
        forall|j: int| 0 <= j < n ==> a[j] == b[j],
    ensures
        total_and_avail(a, n) == total_and_avail(b, n),
    decreases n,
{
    if n > 0 {
        lemma_memory_start(a, b, (n - 1) as nat);
    }
}

/// Each core is there by one processor, and by the first that names it; the processors
/// come in their order.
pub proof fn cores_come_once(texts: Seq<Option<String>>, n: nat)
    requires
        n <= texts.len() <= usize::MAX,
    ensures
        ({
            let cores = first_of_core(texts, n);
            &&& forall|k: int|
                0 <= k < cores.len() ==> #[trigger] cores[k] < n && core_of(
                    texts[cores[k] as int],
                ) is Some
            &&& forall|k: int, j: int|
                0 <= k < cores.len() && 0 <= j < cores[k] ==> core_of(#[trigger] texts[j])
                    != core_of(texts[#[trigger] cores[k] as int])
            &&& forall|k: int, l: int|
                0 <= k < l < cores.len() ==> #[trigger] cores[k] < #[trigger] cores[l]
            &&& forall|j: int|
                0 <= j < n && core_of(#[trigger] texts[j]) is Some ==> exists|k: int|
                    0 <= k < cores.len() && core_of(texts[#[trigger] cores[k] as int]) == core_of(
                        texts[j],
                    )
        }),
    decreases n,
{
    if n > 0 {
        cores_come_once(texts, (n - 1) as nat);
        let before = first_of_core(texts, (n - 1) as nat);
        let cores = first_of_core(texts, n);
        let c = core_of(texts[n - 1]);
        let new = c is Some && forall|j: int|
            0 <= j < n - 1 ==> core_of(#[trigger] texts[j]) != c;
        if new {
            assert(cores == before.push((n - 1) as usize));
            assert(cores[before.len() as int] == n - 1);
        }
        assert forall|j: int| 0 <= j < n && core_of(#[trigger] texts[j]) is Some implies exists|
            k: int,
        |
            0 <= k < cores.len() && core_of(texts[#[trigger] cores[k] as int]) == core_of(
                texts[j],
            ) by {
            if j == n - 1 && new {
                assert(core_of(texts[cores[before.len() as int] as int]) == c);
            } else {
                let e = if j == n - 1 {
                    choose|i: int| 0 <= i < n - 1 && core_of(#[trigger] texts[i]) == c
                } else {
                    j
                };
                assert(core_of(texts[e]) == core_of(texts[j]));
                let k = choose|k: int|
                    0 <= k < before.len() && core_of(texts[#[trigger] before[k] as int])
                        == core_of(texts[e]);
                assert(cores[k] == before[k]);
            }
        }
    }
}

/// The node of a processor is the number behind the word in the first name of that form.
pub proof fn first_node_counts(names: Seq<Seq<char>>, from: int, i: int, n: nat)
    requires
        0 <= from <= i < names.len(),
        n <= usize::MAX,
        names[i] == "node"@ + crate::text::decimal(n),
        forall|j: int| from <= j < i ==> after_prefix(#[trigger] names[j], "node"@) is None,
    ensures
        node_from(names, from) == Some(n as usize),
    decreases i - from,
{
    crate::text::prefix_is_stripped(names[i], "node"@, crate::text::decimal(n));
    crate::text::numbers_are_read_back(n, usize::MAX as int);
    if from < i {
        assert(after_prefix(names[from], "node"@) is None);
        first_node_counts(names, from + 1, i, n);
    }
}

/// The node of an interface is the number in its file, and a negative one is none.
pub proof fn negative_nodes_are_none(n: nat)
    requires
        n <= 0x7FFF_FFFF,
    ensures
        non_negative(crate::text::decimal(n)) == Some(n as int),
        n > 0 ==> non_negative(seq!['-'] + crate::text::decimal(n)) is None,
{
    let d = crate::text::decimal(n);
    crate::text::numbers_are_read_back(n, 0x7FFF_FFFF);
    crate::text::numbers_are_read_back(n, 0);
    let s = seq!['-'] + d;
    assert(s.skip(1) =~= d);
    lemma_decimal_is_no_sign(n);
    assert(crate::text::digits_of(d) == d);
}

proof fn lemma_decimal_is_no_sign(n: nat)
    ensures
        crate::text::decimal(n).len() > 0,
        crate::text::decimal(n)[0] != '-',
        crate::text::decimal(n)[0] != '+',
    decreases n,
{
    if n >= 10 {
        lemma_decimal_is_no_sign(n / 10);
    }
}

/// Turning the bytes of a number round puts the first last, and doing so twice changes
/// nothing.
pub proof fn turning_twice_changes_nothing(x: u32)
    ensures
        0 <= swapped(x as int) <= u32::MAX,
        swapped(swapped(x as int)) == x,
        swapped(x as int) / 0x100_0000 == x % 256,
        swapped(x as int) % 256 == x / 0x100_0000,
        swapped(x as int) / 0x1_0000 % 256 == x / 256 % 256,
{
    let n = x as int;
    let (a, b, c, d) = (n % 256, n / 256 % 256, n / 0x1_0000 % 256, n / 0x100_0000);
    assert(n == a + 256 * b + 0x1_0000 * c + 0x100_0000 * d) by {
        assert(n / 0x1_0000 == (n / 256) / 256);
        assert(n / 0x100_0000 == (n / 0x1_0000) / 256);
    }
    lemma_four_bytes(d, c, b, a);
}

proof fn lemma_four_bytes(a: int, b: int, c: int, d: int)
    requires
        0 <= a < 256,
        0 <= b < 256,
        0 <= c < 256,
        0 <= d < 256,
    ensures
        ({
            let n = a + 256 * b + 0x1_0000 * c + 0x100_0000 * d;
            n % 256 == a && n / 256 % 256 == b && n / 0x1_0000 % 256 == c && n / 0x100_0000 == d
        }),
{
    let n = a + 256 * b + 0x1_0000 * c + 0x100_0000 * d;
    assert(n / 256 == b + 256 * c + 0x1_0000 * d);
    assert(n / 0x1_0000 == c + 256 * d);
    assert(n / 0x100_0000 == d);
}

/// Whether a line of the routing table leads to an address without being the default.
pub open spec fn line_leads(line: Seq<char>, addr: u32) -> bool {
    let w = words(line);
    let (dest, mask) = route_numbers(w);
    w.len() >= 4 && !(dest == 0 && mask == 0) && (addr & mask) == (dest & mask)
}

/// Whether a line of the routing table is a default route.
pub open spec fn line_is_default(line: Seq<char>) -> bool {
    words(line).len() >= 4 && route_numbers(words(line)) == (0u32, 0u32)
}

/// The first route that leads to an address is taken, whatever the defaults before it.
pub proof fn first_route_is_taken(
    ls: Seq<Seq<char>>,
    from: int,
    i: int,
    addr: u32,
    default: Option<Seq<char>>,
)
    requires
        0 <= from <= i < ls.len(),
        line_leads(ls[i], addr),
        forall|j: int| from <= j < i ==> !line_leads(#[trigger] ls[j], addr),
    ensures
        route_from(ls, from, addr, default) == Some(words(ls[i])[0]),
    decreases i - from,
{
    if from < i {
        assert(!line_leads(ls[from], addr));
        let w = words(ls[from]);
        let next = if line_is_default(ls[from]) {
            Some(w[0])
        } else {
            default
        };
        first_route_is_taken(ls, from + 1, i, addr, next);
    }
}

/// Where no route leads to an address, the last default is taken.
pub proof fn last_default_is_taken(
    ls: Seq<Seq<char>>,
    from: int,
    i: int,
    addr: u32,
    default: Option<Seq<char>>,
)
    requires
        0 <= from <= i < ls.len(),
        line_is_default(ls[i]),
        forall|j: int| from <= j < ls.len() ==> !line_leads(#[trigger] ls[j], addr),
        forall|j: int| i < j < ls.len() ==> !line_is_default(#[trigger] ls[j]),
    ensures
        route_from(ls, from, addr, default) == Some(words(ls[i])[0]),
    decreases i - from,
{
    assert(!line_leads(ls[from], addr));
    if from < i {
        let w = words(ls[from]);
        let next = if line_is_default(ls[from]) {
            Some(w[0])
        } else {
            default
        };
        last_default_is_taken(ls, from + 1, i, addr, next);
    } else {
        lemma_no_route(ls, from + 1, addr, Some(words(ls[i])[0]));
    }
}

proof fn lemma_no_route(ls: Seq<Seq<char>>, from: int, addr: u32, default: Option<Seq<char>>)
    requires
        0 <= from,
        forall|j: int| from <= j < ls.len() ==> !line_leads(#[trigger] ls[j], addr),
        forall|j: int| from <= j < ls.len() ==> !line_is_default(#[trigger] ls[j]),
    ensures
        route_from(ls, from, addr, default) == default,
    decreases ls.len() - from,
{
    if from < ls.len() {
        assert(!line_leads(ls[from], addr) && !line_is_default(ls[from]));
        lemma_no_route(ls, from + 1, addr, default);
    }
}

/// The numbers of a route are written with the first byte lowest, so that what stands
/// there is the address turned round.
pub proof fn routes_are_written_turned_round(w: Seq<Seq<char>>, dest: u32, mask: u32)
    requires
        number(w[1], 16, 0xFFFF_FFFF) == Some(swapped(dest as int)),
        number(w[7], 16, 0xFFFF_FFFF) == Some(swapped(mask as int)),
    ensures
        route_numbers(w) == (dest, mask),
{
    turning_twice_changes_nothing(dest);
    turning_twice_changes_nothing(mask);
}

/// A core of another node goes to the end, one of the preferred node before all that come
/// after it, and without a preferred node nothing moves.
pub proof fn near_cores_come_first(
    cores: Seq<usize>,
    nodes: Seq<Option<usize>>,
    node: usize,
    core: usize,
    other: Option<usize>,
)
    requires
        nodes.len() == cores.len(),
        other != Some(node),
    ensures
        numa_sorted(cores, nodes, None) == cores,
        numa_sorted(cores.push(core), nodes.push(other), Some(node)) == numa_sorted(
            cores,
            nodes,
            Some(node),
        ).push(core),
        numa_sorted(seq![core] + cores, seq![Some(node)] + nodes, Some(node)) == seq![core]
            + numa_sorted(cores, nodes, Some(node)),
{
    let n = cores.len();
    lemma_node_start(cores.push(core), cores, nodes.push(other), nodes, node, true, n);
    lemma_node_start(cores.push(core), cores, nodes.push(other), nodes, node, false, n);
    lemma_node_shift(cores, nodes, node, core, true, n);
    lemma_node_shift(cores, nodes, node, core, false, n);
    assert(numa_sorted(cores.push(core), nodes.push(other), Some(node)) =~= numa_sorted(
        cores,
        nodes,
        Some(node),
    ).push(core));
    assert(numa_sorted(seq![core] + cores, seq![Some(node)] + nodes, Some(node)) =~= seq![core]
        + numa_sorted(cores, nodes, Some(node)));
}

proof fn lemma_node_start(
    a: Seq<usize>,
    b: Seq<usize>,
    an: Seq<Option<usize>>,
    bn: Seq<Option<usize>>,
    node: usize,
    local: bool,
    n: nat,
)
    requires
        forall|j: int| 0 <= j < n ==> a[j] == b[j] && an[j] == bn[j],
    ensures
        cores_of_node(a, an, node, local, n) == cores_of_node(b, bn, node, local, n),
    decreases n,
{
    if n > 0 {
        lemma_node_start(a, b, an, bn, node, local, (n - 1) as nat);
    }
}

proof fn lemma_node_shift(
    cores: Seq<usize>,
    nodes: Seq<Option<usize>>,
    node: usize,
    core: usize,
    local: bool,
    n: nat,
)
    requires
        nodes.len() == cores.len(),
        n <= cores.len(),
    ensures
        cores_of_node(seq![core] + cores, seq![Some(node)] + nodes, node, local, n + 1) == (if local {
            seq![core]
        } else {
            Seq::<usize>::empty()
        }) + cores_of_node(cores, nodes, node, local, n),
    decreases n,
{
    let a = seq![core] + cores;
    let an = seq![Some(node)] + nodes;
    if n == 0 {
        assert(cores_of_node(a, an, node, local, 0) =~= Seq::<usize>::empty());
        assert(an[0] == Some(node) && a[0] == core);
        assert(cores_of_node(a, an, node, local, 1) =~= (if local {
            seq![core]
        } else {
            Seq::<usize>::empty()
        }));
    } else {
        lemma_node_shift(cores, nodes, node, core, local, (n - 1) as nat);
        assert(a[n as int] == cores[n - 1] && an[n as int] == nodes[n - 1]);
    }
}

/// The first line of the routing table is its heading: the search begins below it, and
/// whether the table can be searched is a matter of the lines below it too.
pub proof fn heading_is_passed_over(table: Seq<char>, a: [u8; 4])
    requires
        a@[0] != 127,
        lines(table).len() > 1,
    ensures
        ({
            let second = lines(table)[1];
            let n = v4_number(a@) as u32;
            &&& line_leads(second, n) ==> addr_iface(table, ServerAddr::V4(a)) == Some(
                words(second)[0],
            )
            &&& 4 <= words(second).len() < 8 ==> !routes_readable(table, ServerAddr::V4(a))
            &&& words(second).len() >= 8 && line_leads(second, n) ==> routes_readable(
                table,
                ServerAddr::V4(a),
            )
        }),
{
    let n = v4_number(a@) as u32;
    if line_leads(lines(table)[1], n) {
        first_route_is_taken(lines(table), 1, 1, n, None);
    }
}

/// This machine and servers of IPv6 are not looked for in the routing table.
pub proof fn some_servers_have_no_route(table: Seq<char>, a: [u8; 4], b: [u8; 16])
    ensures
        a@[0] == 127 ==> addr_iface(table, ServerAddr::V4(a)) is None && routes_readable(
            table,
            ServerAddr::V4(a),
        ),
        addr_iface(table, ServerAddr::V6(b)) is None,
        routes_readable(table, ServerAddr::V6(b)),
{
}

/// A table can be searched just where no line that is met is too short: each before the
/// first that leads to the address has its mask, or is no route at all.
pub proof fn met_lines_have_masks(ls: Seq<Seq<char>>, from: int, i: int, addr: u32)
    requires
        0 <= from <= i <= ls.len(),
        forall|j: int| from <= j < i ==> !line_leads(#[trigger] ls[j], addr),
    ensures
        i == ls.len() ==> (readable_from(ls, from, addr) <==> forall|j: int|
            from <= j < i ==> (#[trigger] words(ls[j])).len() < 4 || words(ls[j]).len() >= 8),
        i < ls.len() && line_leads(ls[i], addr) ==> (readable_from(ls, from, addr) <==> forall|
            j: int,
        |
            from <= j <= i ==> (#[trigger] words(ls[j])).len() < 4 || words(ls[j]).len() >= 8),
    decreases i - from,
{
    if from < i {
        met_lines_have_masks(ls, from + 1, i, addr);
        assert(!line_leads(ls[from], addr));
        let w = words(ls[from]);
        if w.len() < 4 || w.len() >= 8 {
            assert(readable_from(ls, from, addr) == readable_from(ls, from + 1, addr));
        } else {
            assert(!readable_from(ls, from, addr));
        }
        if i == ls.len() && readable_from(ls, from, addr) {
            assert forall|j: int| from <= j < i implies (#[trigger] words(ls[j])).len() < 4 || words(
                ls[j],
            ).len() >= 8 by {
                if j > from {
                    assert(words(ls[j]).len() < 4 || words(ls[j]).len() >= 8);
                }
            }
        }
    }
}

/// A processor belongs to the core whose number its file holds.
pub proof fn cores_have_numbers(text: String, n: nat)
    requires
        n <= usize::MAX,
        trim(text@) == crate::text::decimal(n),
    ensures
        core_of(Some(text)) == Some(n as int),
        core_of(None) is None,
{
    crate::text::numbers_are_read_back(n, usize::MAX as int);
}

} // verus!
