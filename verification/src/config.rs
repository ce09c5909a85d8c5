//! What a run is asked to do.

use vstd::prelude::*;

use crate::text::{chars_are, chars_of, number, parse_number, same_chars};

verus! {

/// A string in lower case.
pub uninterp spec fn lowercase(s: Seq<char>) -> Seq<char>;

/// An ASCII letter in lower case.
pub open spec fn lower(c: char) -> char {
    if 65 <= c as int <= 90 {
        (c as int + 32) as char
    } else {
        c
    }
}

/// `str::to_lowercase`: Unicode decides what lower case is; on a string of ASCII
/// characters it changes the letters from A to Z and nothing else.
#[verifier::external_body]
pub(crate) fn to_lower(s: &str) -> (r: String)
    ensures
        r@ == lowercase(s@),
        (forall|i: int| 0 <= i < s@.len() ==> (s@[i] as int) < 128) ==> r@ == Seq::new(
            s@.len(),
            |i: int| lower(s@[i]),
        ),
{
    s.to_lowercase()
}

/// How queries travel.
#[derive(Debug, Clone, Copy, PartialEq, Eq, Structural)]
pub enum Protocol {
    Udp,
    Tcp,
    Dot,
}

/// Why a configuration is refused.
#[derive(Debug)]
pub enum ConfigError {
    /// The protocol is not known; the text says so.
    UnknownProtocol(String),
    /// The number of clients cannot be read.
    InvalidClients,
    /// Two targets are reached over one interface; the text names all three.
    SharedInterface(String),
}

/// The protocol that a word in lower case names.
pub open spec fn protocol_of(s: Seq<char>) -> Option<Protocol> {
    if s == "udp"@ {
        Some(Protocol::Udp)
    } else if s == "tcp"@ {
        Some(Protocol::Tcp)
    } else if s == "dot"@ {
        Some(Protocol::Dot)
    } else {
        None
    }
}

/// What is said of a protocol that is not known.
pub open spec fn unknown_protocol(s: Seq<char>) -> Seq<char> {
    "unknown protocol '"@ + s + "', use udp|tcp|dot"@
}

impl Protocol {
    /// Reads a protocol in any case.
    pub fn from_str(s: &str) -> (r: Result<Self, ConfigError>)
        ensures
            match protocol_of(lowercase(s@)) {
                Some(p) => r == Ok::<Self, ConfigError>(p),
                None => r matches Err(ConfigError::UnknownProtocol(m)) && m@ == unknown_protocol(
                    lowercase(s@),
                ),
            },
    {
        let l = to_lower(s);
        Self::from_lower(l.as_str())
    }

    /// Reads a protocol in lower case.
    pub fn from_lower(l: &str) -> (r: Result<Self, ConfigError>)
        ensures
            match protocol_of(l@) {
                Some(p) => r == Ok::<Self, ConfigError>(p),
                None => r matches Err(ConfigError::UnknownProtocol(m)) && m@ == unknown_protocol(
                    l@,
                ),
            },
    {
        let c = chars_of(l);
        let w = c.as_slice();
        if chars_are(w, "udp") {
            Ok(Protocol::Udp)
        } else if chars_are(w, "tcp") {
            Ok(Protocol::Tcp)
        } else if chars_are(w, "dot") {
            Ok(Protocol::Dot)
        } else {
            let mut m = "unknown protocol '".to_owned();
            m.append(l);
            m.append("', use udp|tcp|dot");
            Err(ConfigError::UnknownProtocol(m))
        }
    }

    /// The name of a protocol.
    pub fn as_str(&self) -> (r: &'static str)
        ensures
            r@ == match *self {
                Protocol::Udp => "UDP"@,
                Protocol::Tcp => "TCP"@,
                Protocol::Dot => "DoT"@,
            },
    {
        match self {
            Protocol::Udp => "UDP",
            Protocol::Tcp => "TCP",
            Protocol::Dot => "DoT",
        }
    }
}

/// An address of a server.
#[derive(Debug, Clone, Copy)]
pub enum ServerAddr {
    V4([u8; 4]),
    V6([u8; 16]),
}

/// An IPv4 address as a number, its first byte the highest.
pub open spec fn v4_number(a: Seq<u8>) -> int {
    a[0] * 0x100_0000 + a[1] * 0x1_0000 + a[2] * 0x100 + a[3]
}

/// An IPv4 address as a number.
pub fn v4_to_u32(a: &[u8; 4]) -> (r: u32)
    ensures
        r == v4_number(a@),
{
    (a[0] as u32) * 0x100_0000 + (a[1] as u32) * 0x1_0000 + (a[2] as u32) * 0x100 + (a[3] as u32)
}

impl ServerAddr {
    /// Whether two addresses are the same.
    pub open spec fn same(self, other: ServerAddr) -> bool {
        match (self, other) {
            (ServerAddr::V4(a), ServerAddr::V4(b)) => a@ == b@,
            (ServerAddr::V6(a), ServerAddr::V6(b)) => a@ == b@,
            _ => false,
        }
    }

    /// Whether two addresses are the same.
    pub fn same_as(&self, other: &ServerAddr) -> (r: bool)
        ensures
            r == self.same(*other),
    {
        match (self, other) {
            (ServerAddr::V4(a), ServerAddr::V4(b)) => {
                let r = a[0] == b[0] && a[1] == b[1] && a[2] == b[2] && a[3] == b[3];
                proof {
                    if r {
                        assert(a@ =~= b@);
                    }
                }
                r
            },
            (ServerAddr::V6(a), ServerAddr::V6(b)) => {
                let mut i: usize = 0;
                while i < 16
                    invariant
                        i <= 16,
                        *self == ServerAddr::V6(*a),
                        *other == ServerAddr::V6(*b),
                        forall|j: int| 0 <= j < i ==> a@[j] == b@[j],
                    decreases 16 - i,
                {
                    if a[i] != b[i] {
                        return false;
                    }
                    i += 1;
                }
                assert(a@ =~= b@);
                true
            },
            _ => false,
        }
    }

    /// Whether the address is this machine's own: 127 in front, or `::1`.
    pub open spec fn loopback(self) -> bool {
        match self {
            ServerAddr::V4(a) => a@[0] == 127,
            ServerAddr::V6(a) => a@[15] == 1 && forall|i: int| 0 <= i < 15 ==> a@[i] == 0,
        }
    }

    /// Whether the address is this machine's own.
    pub fn is_loopback(&self) -> (r: bool)
        ensures
            r == self.loopback(),
    {
        match self {
            ServerAddr::V4(a) => a[0] == 127,
            ServerAddr::V6(a) => {
                let mut i: usize = 0;
                while i < 15
                    invariant
                        i <= 15,
                        *self == ServerAddr::V6(*a),
                        forall|j: int| 0 <= j < i ==> a@[j] == 0,
                    decreases 15 - i,
                {
                    if a[i] != 0 {
                        return false;
                    }
                    i += 1;
                }
                a[15] == 1
            },
        }
    }
}

/// What is asked for on the command line.
#[derive(Debug)]
pub struct Options {
    pub servers: Vec<ServerAddr>,
    pub port: u16,
    pub query_file: Option<String>,
    /// `auto`, or a number; zero is `auto` too.
    pub clients: String,
    pub qps: u64,
    pub duration: Option<u64>,
    pub timeout_ms: u64,
    pub threads: Option<usize>,
    pub quiet: bool,
    pub verbose: bool,
    pub stats_interval: u64,
    pub ramp: bool,
    pub random: bool,
    pub random_domain: String,
    pub random_type: String,
    pub compare: Option<ServerAddr>,
    pub protocol: String,
    pub json: bool,
    pub csv: Option<String>,
    pub no_tui: bool,
    pub xdp: bool,
    pub no_xdp: bool,
    pub max_outstanding: Option<usize>,
    pub nic_stats: bool,
    pub wire_latency: bool,
}

/// What a run is asked to do.
#[derive(Debug)]
pub struct Config {
    /// The first target.
    pub server: ServerAddr,
    /// All targets, none of them twice.
    pub servers: Vec<ServerAddr>,
    pub port: u16,
    pub query_file: Option<String>,
    pub concurrent: usize,
    /// The rate to offer; zero is no bound.
    pub qps: u64,
    pub duration_secs: u64,
    pub timeout_ms: u64,
    pub threads: usize,
    pub quiet: bool,
    pub verbose: bool,
    pub stats_interval_secs: u64,
    pub ramp: bool,
    pub random: bool,
    pub random_domain: String,
    pub random_qtype: u16,
    pub compare: Option<ServerAddr>,
    pub protocol: Protocol,
    pub json_output: bool,
    pub csv_file: Option<String>,
    pub no_tui: bool,
    pub force_xdp: bool,
    pub no_xdp: bool,
    /// How many queries a worker may have under way; zero is no bound.
    pub max_outstanding: usize,
    pub nic_stats: bool,
}

/// Whether the first `n` addresses hold an address.
pub open spec fn has_server(servers: Seq<ServerAddr>, n: int, s: ServerAddr) -> bool {
    exists|i: int| 0 <= i < n && s.same(#[trigger] servers[i])
}

/// The first `n` addresses, each where it comes first.
pub open spec fn firsts(servers: Seq<ServerAddr>, n: nat) -> Seq<ServerAddr>
    decreases n,
{
    if n == 0 {
        Seq::empty()
    } else {
        let before = firsts(servers, (n - 1) as nat);
        if has_server(servers, n - 1, servers[n - 1]) {
            before
        } else {
            before.push(servers[n - 1])
        }
    }
}

/// The targets in the order in which they were asked for, none of them twice.
pub fn distinct_servers(servers: &Vec<ServerAddr>) -> (r: Vec<ServerAddr>)
    ensures
        r@ == firsts(servers@, servers@.len()),
        servers@.len() > 0 ==> r@.len() > 0 && r@[0] == servers@[0],
{
    let mut out: Vec<ServerAddr> = Vec::new();
    let mut i: usize = 0;
    while i < servers.len()
        invariant
            i <= servers@.len(),
            out@ == firsts(servers@, i as nat),
            i > 0 ==> out@.len() > 0 && out@[0] == servers@[0],
        decreases servers@.len() - i,
    {
        let mut known: bool = false;
        let mut j: usize = 0;
        while j < i
            invariant
                j <= i < servers@.len(),
                known == has_server(servers@, j as int, servers@[i as int]),
            decreases i - j,
        {
            if servers[i].same_as(&servers[j]) {
                known = true;
            }
            j += 1;
            proof {
                if has_server(servers@, j - 1, servers@[i as int]) {
                    let k = choose|k: int|
                        0 <= k < j - 1 && servers@[i as int].same(#[trigger] servers@[k]);
                    assert(servers@[i as int].same(servers@[k]));
                }
                if servers@[i as int].same(servers@[j - 1]) {
                    assert(has_server(servers@, j as int, servers@[i as int]));
                }
            }
        }
        if !known {
            out.push(servers[i]);
        }
        i += 1;
    }
    out
}

/// No target comes twice, and each that was asked for is there.
pub proof fn targets_are_distinct(servers: Seq<ServerAddr>)
    ensures
        forall|i: int, j: int|
            0 <= i < j < firsts(servers, servers.len()).len() ==> !(#[trigger] firsts(
                servers,
                servers.len(),
            )[i]).same(#[trigger] firsts(servers, servers.len())[j]),
        forall|i: int|
            0 <= i < servers.len() ==> has_server(
                firsts(servers, servers.len()),
                firsts(servers, servers.len()).len() as int,
                #[trigger] servers[i],
            ),
{
    lemma_firsts(servers, servers.len());
}

proof fn lemma_firsts(servers: Seq<ServerAddr>, n: nat)
    requires
        n <= servers.len(),
    ensures
        forall|i: int, j: int|
            0 <= i < j < firsts(servers, n).len() ==> !(#[trigger] firsts(servers, n)[i]).same(
                #[trigger] firsts(servers, n)[j],
            ),
        forall|i: int|
            0 <= i < firsts(servers, n).len() ==> has_server(
                servers,
                n as int,
                #[trigger] firsts(servers, n)[i],
            ),
        forall|i: int|
            0 <= i < n ==> has_server(
                firsts(servers, n),
                firsts(servers, n).len() as int,
                #[trigger] servers[i],
            ),
    decreases n,
{
    if n > 0 {
        let m = (n - 1) as nat;
        lemma_firsts(servers, m);
        let before = firsts(servers, m);
        let after = firsts(servers, n);
        let s = servers[m as int];
        assert(s.same(s));
        if !has_server(servers, m as int, s) {
            assert forall|i: int, j: int| 0 <= i < j < after.len() implies !(
            #[trigger] after[i]).same(#[trigger] after[j]) by {
                if j == before.len() {
                    assert(after[i] == before[i]);
                    let k = choose|k: int| 0 <= k < m && before[i].same(#[trigger] servers[k]);
                    if after[i].same(s) {
                        assert(s.same(servers[k]));
                    }
                } else {
                    assert(after[i] == before[i] && after[j] == before[j]);
                }
            }
        }
        assert forall|i: int| 0 <= i < after.len() implies has_server(
            servers,
            n as int,
            #[trigger] after[i],
        ) by {
            if i < before.len() {
                assert(after[i] == before[i]);
                let k = choose|k: int| 0 <= k < m && before[i].same(#[trigger] servers[k]);
                assert(after[i].same(servers[k]));
            } else {
                assert(after[i].same(servers[m as int]));
            }
        }
        assert forall|i: int| 0 <= i < n implies has_server(
            after,
            after.len() as int,
            #[trigger] servers[i],
        ) by {
            if i < m {
                let k = choose|k: int| 0 <= k < before.len() && servers[i].same(#[trigger] before[k]);
                assert(after[k] == before[k]);
                assert(servers[i].same(after[k]));
            } else if has_server(servers, m as int, s) {
                let k = choose|k: int| 0 <= k < m && s.same(#[trigger] servers[k]);
                assert(has_server(before, before.len() as int, servers[k]));
                let q = choose|q: int|
                    0 <= q < before.len() && servers[k].same(#[trigger] before[q]);
                assert(s.same(after[q]));
            } else {
                assert(s.same(after[before.len() as int]));
            }
        }
    }
}

/// Whether two targets are reached over the same interface, as far as that is known.
pub open spec fn share(ifaces: Seq<Option<String>>, i: int, j: int) -> bool {
    match (ifaces[i], ifaces[j]) {
        (Some(a), Some(b)) => a@ == b@,
        _ => false,
    }
}

/// Whether the interface of target `j` was that of an earlier target.
pub open spec fn taken(ifaces: Seq<Option<String>>, j: int) -> bool {
    exists|i: int| 0 <= i < j && #[trigger] share(ifaces, i, j)
}

/// What is said of two targets that share an interface.
pub open spec fn shared_interface(a: Seq<char>, b: Seq<char>, iface: Seq<char>) -> Seq<char> {
    "Targets "@ + a + " and "@ + b + " both route via '"@ + iface
        + "'. Multi-NIC requires distinct NICs per target (no bonding)."@
}

/// How many of the first `n` targets have an interface that is known.
pub open spec fn known_ifaces(ifaces: Seq<Option<String>>, n: nat) -> nat
    decreases n,
{
    if n == 0 {
        0
    } else {
        known_ifaces(ifaces, (n - 1) as nat) + if ifaces[n - 1] is Some {
            1nat
        } else {
            0
        }
    }
}

/// Sees to it that each target is reached over an interface of its own; says how
/// many interfaces that takes. The names are those of the targets.
pub fn check_interfaces(names: &Vec<String>, ifaces: &Vec<Option<String>>) -> (r: Result<
    usize,
    ConfigError,
>)
    requires
        names@.len() == ifaces@.len(),
    ensures
        match r {
            Ok(n) => {
                &&& forall|j: int| 0 <= j < ifaces@.len() ==> !#[trigger] taken(ifaces@, j)
                &&& n == known_ifaces(ifaces@, ifaces@.len())
            },
            Err(ConfigError::SharedInterface(m)) => exists|i: int, j: int|
                {
                    &&& 0 <= i < j < ifaces@.len()
                    &&& #[trigger] share(ifaces@, i, j)
                    &&& forall|k: int| 0 <= k < j ==> !#[trigger] taken(ifaces@, k)
                    &&& m@ == shared_interface(names@[i]@, names@[j]@, ifaces@[j]->0@)
                },
            Err(_) => false,
        },
{
    let mut known: usize = 0;
    let mut j: usize = 0;
    while j < ifaces.len()
        invariant
            j <= ifaces@.len(),
            names@.len() == ifaces@.len(),
            known == known_ifaces(ifaces@, j as nat),
            known <= j,
            forall|k: int| 0 <= k < j ==> !#[trigger] taken(ifaces@, k),
        decreases ifaces@.len() - j,
    {
        match &ifaces[j] {
            Some(b) => {
                let bc = chars_of(b.as_str());
                let mut i: usize = 0;
                while i < j
                    invariant
                        i <= j < ifaces@.len(),
                        names@.len() == ifaces@.len(),
                        ifaces@[j as int] == Some(*b),
                        bc@ == b@,
                        forall|k: int| 0 <= k < i ==> !#[trigger] share(ifaces@, k, j as int),
                        forall|k: int| 0 <= k < j ==> !#[trigger] taken(ifaces@, k),
                    decreases j - i,
                {
                    match &ifaces[i] {
                        Some(a) => {
                            let ac = chars_of(a.as_str());
                            if same_chars(ac.as_slice(), bc.as_slice()) {
                                let mut m = "Targets ".to_owned();
                                m.append(names[i].as_str());
                                m.append(" and ");
                                m.append(names[j].as_str());
                                m.append(" both route via '");
                                m.append(b.as_str());
                                m.append(
                                    "'. Multi-NIC requires distinct NICs per target (no bonding).",
                                );
                                assert(share(ifaces@, i as int, j as int));
                                return Err(ConfigError::SharedInterface(m));
                            }
                        },
                        None => {},
                    }
                    i += 1;
                }
                known += 1;
            },
            None => {},
        }
        assert(!taken(ifaces@, j as int));
        j += 1;
    }
    Ok(known)
}

/// How many clients a text asks for: `auto` and zero are one for each physical
/// core, eight at least; any other number is taken, one at least.
pub open spec fn clients_of(s: Seq<char>, physical: usize) -> Option<int> {
    if s == "auto"@ || s == "0"@ {
        Some(
            if physical > 8 {
                physical as int
            } else {
                8
            },
        )
    } else {
        match number(s, 10, usize::MAX as int) {
            Some(n) => Some(
                if n > 1 {
                    n
                } else {
                    1
                },
            ),
            None => None,
        }
    }
}

/// Whether a text leaves the number of clients open.
pub fn clients_are_auto(s: &str) -> (r: bool)
    ensures
        r == (s@ == "auto"@ || s@ == "0"@),
{
    let c = chars_of(s);
    chars_are(c.as_slice(), "auto") || chars_are(c.as_slice(), "0")
}

/// Reads the number of clients.
pub fn parse_clients(s: &str, physical: usize) -> (r: Result<usize, ConfigError>)
    ensures
        match clients_of(s@, physical) {
            Some(n) => r matches Ok(m) && m == n,
            None => r matches Err(ConfigError::InvalidClients),
        },
{
    if clients_are_auto(s) {
        if physical > 8 {
            Ok(physical)
        } else {
            Ok(8)
        }
    } else {
        let c = chars_of(s);
        match parse_number(c.as_slice(), 10, usize::MAX as u64) {
            Some(n) => if n > 1 {
                Ok(n as usize)
            } else {
                Ok(1)
            },
            None => Err(ConfigError::InvalidClients),
        }
    }
}

/// The record type of random queries: AAAA where it is asked for, else A.
pub open spec fn random_qtype(lower: Seq<char>) -> u16 {
    if lower == "aaaa"@ {
        28
    } else {
        1
    }
}

/// Reads the record type of random queries from its name in lower case.
pub fn parse_random_qtype(lower: &str) -> (r: u16)
    ensures
        r == random_qtype(lower@),
{
    let c = chars_of(lower);
    if chars_are(c.as_slice(), "aaaa") {
        28
    } else {
        1
    }
}

impl Options {
    /// Whether the run looks for the capacity of the server though it was not asked
    /// to: neither a rate nor a duration was asked for, nor a mode of another kind.
    pub open spec fn auto_ramp(self) -> bool {
        &&& !self.ramp
        &&& self.qps == 0
        &&& self.duration is None
        &&& !self.random
        &&& self.compare is None
        &&& !self.wire_latency
    }

    /// Whether the run looks for the capacity of the server though it was not asked
    /// to.
    pub fn is_auto_ramp(&self) -> (r: bool)
        ensures
            r == self.auto_ramp(),
    {
        !self.ramp && self.qps == 0 && self.duration.is_none() && !self.random
            && self.compare.is_none() && !self.wire_latency
    }

    /// Whether the run looks for the capacity of the server.
    pub open spec fn ramps(self) -> bool {
        self.ramp || self.auto_ramp()
    }

    /// How many queries a worker may have under way. Where nothing is asked for there
    /// is no bound on the open loop; on the closed loop of the kernel it is 32 while
    /// the capacity is looked for, else 100.
    pub open spec fn outstanding(self) -> usize {
        match self.max_outstanding {
            Some(n) => n,
            None => if self.xdp {
                0
            } else if self.ramps() {
                32
            } else {
                100
            },
        }
    }

    /// How many threads the runtime has: one at least.
    pub open spec fn worker_threads(self, cpus: usize) -> usize {
        let n = match self.threads {
            Some(t) => t,
            None => cpus,
        };
        if n > 1 {
            n
        } else {
            1
        }
    }
}

impl Config {
    /// Whether this is what the options ask for on a machine with so many processors
    /// and physical cores, given two of their texts in lower case.
    pub open spec fn answers(
        self,
        o: Options,
        protocol: Seq<char>,
        random_type: Seq<char>,
        cpus: usize,
        physical: usize,
    ) -> bool {
        &&& self.server == o.servers@[0]
        &&& self.servers@ == firsts(o.servers@, o.servers@.len())
        &&& self.port == o.port
        &&& self.query_file == o.query_file
        &&& Some(self.concurrent as int) == clients_of(o.clients@, physical)
        &&& self.qps == o.qps
        &&& self.duration_secs == match o.duration {
            Some(d) => d,
            None => 30,
        }
        &&& self.timeout_ms == o.timeout_ms
        &&& self.threads == o.worker_threads(cpus)
        &&& self.quiet == o.quiet
        &&& self.verbose == o.verbose
        &&& self.stats_interval_secs == o.stats_interval
        &&& self.ramp == o.ramps()
        &&& self.random == o.random
        &&& self.random_domain == o.random_domain
        &&& self.random_qtype == random_qtype(random_type)
        &&& self.compare == o.compare
        &&& Some(self.protocol) == protocol_of(protocol)
        &&& self.json_output == o.json
        &&& self.csv_file == o.csv
        &&& self.no_tui == (o.no_tui || o.quiet)
        &&& self.force_xdp == o.xdp
        &&& self.no_xdp == o.no_xdp
        &&& self.max_outstanding == o.outstanding()
        &&& self.nic_stats == o.nic_stats
    }

    /// What the options ask for on a machine with so many processors and physical
    /// cores.
    pub fn resolve(o: Options, cpus: usize, physical: usize) -> (r: Result<Config, ConfigError>)
        requires
            o.servers@.len() > 0,
        ensures
            match r {
                Ok(c) => c.answers(
                    o,
                    lowercase(o.protocol@),
                    lowercase(o.random_type@),
                    cpus,
                    physical,
                ),
                Err(ConfigError::UnknownProtocol(m)) => protocol_of(lowercase(o.protocol@)) is None
                    && m@ == unknown_protocol(lowercase(o.protocol@)),
                Err(ConfigError::InvalidClients) => protocol_of(lowercase(o.protocol@)) is Some
                    && clients_of(o.clients@, physical) is None,
                Err(_) => false,
            },
    {
        let protocol = to_lower(o.protocol.as_str());
        let random_type = to_lower(o.random_type.as_str());
        Self::resolve_lower(o, protocol.as_str(), random_type.as_str(), cpus, physical)
    }

    /// What the options ask for, given two of their texts in lower case.
    pub fn resolve_lower(
        o: Options,
        protocol: &str,
        random_type: &str,
        cpus: usize,
        physical: usize,
    ) -> (r: Result<Config, ConfigError>)
        requires
            o.servers@.len() > 0,
        ensures
            match r {
                Ok(c) => c.answers(o, protocol@, random_type@, cpus, physical),
                Err(ConfigError::UnknownProtocol(m)) => protocol_of(protocol@) is None && m@
                    == unknown_protocol(protocol@),
                Err(ConfigError::InvalidClients) => protocol_of(protocol@) is Some && clients_of(
                    o.clients@,
                    physical,
                ) is None,
                Err(_) => false,
            },
    {
        let transport: Protocol = match Protocol::from_lower(protocol) {
            Ok(p) => p,
            Err(e) => {
                return Err(e);
            },
        };
        let concurrent: usize = match parse_clients(o.clients.as_str(), physical) {
            Ok(n) => n,
            Err(e) => {
                return Err(e);
            },
        };
        let wanted: usize = match o.threads {
            Some(t) => t,
            None => cpus,
        };
        let threads: usize = if wanted > 1 {
            wanted
        } else {
            1
        };
        let ramp: bool = o.ramp || o.is_auto_ramp();
        let duration_secs: u64 = match o.duration {
            Some(d) => d,
            None => 30,
        };
        let max_outstanding: usize = match o.max_outstanding {
            Some(n) => n,
            None => if o.xdp {
                0
            } else if ramp {
                32
            } else {
                100
            },
        };
        let servers = distinct_servers(&o.servers);
        Ok(
            Config {
                server: servers[0],
                servers,
                port: o.port,
                query_file: o.query_file,
                concurrent,
                qps: o.qps,
                duration_secs,
                timeout_ms: o.timeout_ms,
                threads,
                quiet: o.quiet,
                verbose: o.verbose,
                stats_interval_secs: o.stats_interval,
                ramp,
                random: o.random,
                random_domain: o.random_domain,
                random_qtype: parse_random_qtype(random_type),
                compare: o.compare,
                protocol: transport,
                json_output: o.json,
                csv_file: o.csv,
                no_tui: o.no_tui || o.quiet,
                force_xdp: o.xdp,
                no_xdp: o.no_xdp,
                max_outstanding,
                nic_stats: o.nic_stats,
            },
        )
    }
}

/// How a run is told of its workers.
#[derive(Debug, Clone, Copy, PartialEq, Eq, Structural)]
pub enum WorkersNote {
    /// Chosen, and more than there are physical cores.
    Least,
    /// Chosen: one for each physical core.
    Cores,
    /// Asked for.
    Manual,
}

/// How a run is told of its workers.
pub fn workers_note(auto: bool, physical: usize) -> (r: WorkersNote)
    ensures
        r == if !auto {
            WorkersNote::Manual
        } else if physical < 8 {
            WorkersNote::Least
        } else {
            WorkersNote::Cores
        },
{
    if !auto {
        WorkersNote::Manual
    } else if physical < 8 {
        WorkersNote::Least
    } else {
        WorkersNote::Cores
    }
}

/// The rate of the latency probe: the one asked for, else 5000.
pub open spec fn probe_rate_of(qps: u64) -> u64 {
    if qps > 0 {
        qps
    } else {
        5000
    }
}

/// The rate of the latency probe.
pub fn probe_rate(qps: u64) -> (r: u64)
    ensures
        r == probe_rate_of(qps),
{
    if qps > 0 {
        qps
    } else {
        5000
    }
}

/// How many queries the latency probe sends: what the rate gives over the
/// duration, 200 at least and two million at most.
pub fn probe_count(rate: u64, duration_secs: u64) -> (r: usize)
    ensures
        r == if rate * duration_secs < 200 {
            200int
        } else if rate * duration_secs > 2_000_000 {
            2_000_000
        } else {
            rate * duration_secs
        },
        200 <= r <= 2_000_000,
        200 <= rate * duration_secs <= 2_000_000 ==> r == rate * duration_secs,
{
    match rate.checked_mul(duration_secs) {
        Some(n) => if n < 200 {
            200
        } else if n > 2_000_000 {
            2_000_000
        } else {
            n as usize
        },
        None => 2_000_000,
    }
}

/// The kind of a run.
#[derive(Debug, Clone, Copy, PartialEq, Eq, Structural)]
pub enum RunMode {
    /// Two servers side by side.
    Compare,
    /// Several targets, each over an interface of its own.
    MultiNic,
    /// One target.
    Single,
}

impl Config {
    /// The kind of the run: a comparison goes before several targets.
    pub fn run_mode(&self) -> (r: RunMode)
        ensures
            r == if self.compare is Some {
                RunMode::Compare
            } else if self.servers@.len() > 1 {
                RunMode::MultiNic
            } else {
                RunMode::Single
            },
    {
        if self.compare.is_some() {
            RunMode::Compare
        } else if self.servers.len() > 1 {
            RunMode::MultiNic
        } else {
            RunMode::Single
        }
    }
}

/// The defaults of a run and what follows from what was asked for. Nothing that was asked
/// for is changed; where no duration is given it is thirty seconds; a run that asks for
/// neither a rate nor a duration nor another mode is a search; and without a bound on what
/// is under way there is none over the card's own rings, and over the kernel 32 in a
/// search and else 100.
pub proof fn defaults_are_known(
    c: Config,
    o: Options,
    protocol: Seq<char>,
    random_type: Seq<char>,
    cpus: usize,
    physical: usize,
)
    requires
        c.answers(o, protocol, random_type, cpus, physical),
    ensures
        c.qps == o.qps && c.port == o.port && c.timeout_ms == o.timeout_ms,
        c.server == o.servers@[0],
        c.query_file == o.query_file && c.csv_file == o.csv && c.compare == o.compare,
        c.json_output == o.json && c.random == o.random && c.random_domain == o.random_domain,
        c.force_xdp == o.xdp && c.no_xdp == o.no_xdp && c.nic_stats == o.nic_stats,
        c.quiet == o.quiet && c.verbose == o.verbose,
        c.stats_interval_secs == o.stats_interval,
        o.duration matches Some(d) ==> c.duration_secs == d,
        o.duration is None ==> c.duration_secs == 30,
        o.ramp ==> c.ramp,
        !o.ramp && (o.qps > 0 || o.duration is Some || o.random || o.compare is Some
            || o.wire_latency) ==> !c.ramp,
        o.qps == 0 && o.duration is None && !o.random && o.compare is None && !o.wire_latency
            ==> c.ramp,
        o.max_outstanding matches Some(n) ==> c.max_outstanding == n,
        o.max_outstanding is None && o.xdp ==> c.max_outstanding == 0,
        o.max_outstanding is None && !o.xdp && c.ramp ==> c.max_outstanding == 32,
        o.max_outstanding is None && !o.xdp && !c.ramp ==> c.max_outstanding == 100,
        c.threads >= 1,
        o.threads matches Some(t) ==> (t >= 1 ==> c.threads == t),
        o.threads is None && cpus >= 1 ==> c.threads == cpus,
        o.no_tui || o.quiet ==> c.no_tui,
        !o.no_tui && !o.quiet ==> !c.no_tui,
        protocol == "udp"@ ==> c.protocol == Protocol::Udp,
        protocol == "tcp"@ ==> c.protocol == Protocol::Tcp,
        protocol == "dot"@ ==> c.protocol == Protocol::Dot,
        random_type == "aaaa"@ ==> c.random_qtype == 28,
        random_type != "aaaa"@ ==> c.random_qtype == 1,
{
    reveal_strlit("udp");
    reveal_strlit("tcp");
    reveal_strlit("dot");
    assert("udp"@[0] == 'u' && "tcp"@[0] == 't' && "dot"@[0] == 'd');
}

/// How many clients a number asks for: as many, and one at least; none that is given is
/// one for each physical core and eight at least.
pub proof fn clients_are_counted(n: nat, physical: usize)
    requires
        n <= usize::MAX,
    ensures
        n > 0 ==> clients_of(crate::text::decimal(n), physical) == Some(n as int),
        clients_of("auto"@, physical) matches Some(k) && k >= 8 && k >= physical && (k == 8 || k
            == physical),
        clients_of("0"@, physical) == clients_of("auto"@, physical),
{
    if n > 0 {
        let s = crate::text::decimal(n);
        crate::text::numbers_are_read_back(n, usize::MAX as int);
        crate::text::numbers_are_read_back(0, usize::MAX as int);
        reveal_strlit("auto");
        reveal_strlit("0");
        assert(number("0"@, 10, usize::MAX as int) == Some(0int)) by {
            assert("0"@ =~= crate::text::decimal(0));
        }
        assert(number("auto"@, 10, usize::MAX as int) is None) by {
            crate::text::other_text_is_no_number("auto"@, 0, usize::MAX as int);
        }
        assert(s != "0"@ && s != "auto"@);
    }
}

/// An address as a number has its first byte highest.
pub proof fn numbers_have_first_byte_highest(a: Seq<u8>)
    requires
        a.len() == 4,
    ensures
        ({
            let n = v4_number(a);
            &&& n / 16_777_216 == a[0]
            &&& n / 65536 % 256 == a[1]
            &&& n / 256 % 256 == a[2]
            &&& n % 256 == a[3]
        }),
{
}

/// This machine's own addresses are those that begin with 127, and the one of IPv6 whose
/// last byte is one and all others zero.
pub proof fn loopbacks_are_known(a: [u8; 4], b: [u8; 16])
    ensures
        ServerAddr::V4(a).loopback() <==> a@[0] == 127,
        ServerAddr::V6(b).loopback() ==> b@[15] == 1 && b@[0] == 0 && b@[7] == 0 && b@[14] == 0,
        (forall|i: int| 0 <= i < 15 ==> #[trigger] b@[i] == 0) && b@[15] == 1 ==> ServerAddr::V6(
            b,
        ).loopback(),
{
    if ServerAddr::V6(b).loopback() {
        assert(b@[0] == 0 && b@[7] == 0 && b@[14] == 0);
    }
}

/// The targets keep the order in which they were first asked for.
pub proof fn targets_keep_their_order(servers: Seq<ServerAddr>, s: ServerAddr)
    ensures
        firsts(servers, 0) == Seq::<ServerAddr>::empty(),
        (forall|i: int| 0 <= i < servers.len() ==> !s.same(#[trigger] servers[i])) ==> firsts(
            servers.push(s),
            servers.len() + 1,
        ) == firsts(servers, servers.len()).push(s),
        (exists|i: int| 0 <= i < servers.len() && s.same(#[trigger] servers[i])) ==> firsts(
            servers.push(s),
            servers.len() + 1,
        ) == firsts(servers, servers.len()),
{
    let all = servers.push(s);
    let n = servers.len() as int;
    lemma_firsts_start(all, servers, servers.len());
    if exists|i: int| 0 <= i < n && s.same(#[trigger] servers[i]) {
        let i = choose|i: int| 0 <= i < n && s.same(#[trigger] servers[i]);
        assert(s.same(all[i]));
        assert(has_server(all, n, s));
    }
    if has_server(all, n, s) {
        let i = choose|i: int| 0 <= i < n && s.same(#[trigger] all[i]);
        assert(s.same(servers[i]));
    }
}

proof fn lemma_firsts_start(a: Seq<ServerAddr>, b: Seq<ServerAddr>, n: nat)
    requires
        forall|j: int| 0 <= j < n ==> a[j] == b[j],
    ensures
        firsts(a, n) == firsts(b, n),
    decreases n,
{
    if n > 0 {
        lemma_firsts_start(a, b, (n - 1) as nat);
        let s = a[n - 1];
        if has_server(a, n - 1, s) {
            let i = choose|i: int| 0 <= i < n - 1 && s.same(#[trigger] a[i]);
            assert(s.same(b[i]));
        }
        if has_server(b, n - 1, s) {
            let i = choose|i: int| 0 <= i < n - 1 && s.same(#[trigger] b[i]);
            assert(s.same(a[i]));
        }
    }
}

/// A probe has the rate that was asked for, and else five thousand a second.
pub proof fn probes_have_a_rate(qps: u64)
    ensures
        qps > 0 ==> probe_rate_of(qps) == qps,
        probe_rate_of(0) == 5000,
{
}

/// An interface is taken where an earlier target has it too; where one of the two is not
/// known it is not.
pub proof fn interfaces_are_told_apart(ifaces: Seq<Option<String>>, j: int)
    requires
        0 <= j < ifaces.len(),
    ensures
        taken(ifaces, j) <==> ifaces[j] is Some && exists|i: int|
            0 <= i < j && (#[trigger] ifaces[i]) is Some && ifaces[i]->0@ == ifaces[j]->0@,
{
    if taken(ifaces, j) {
        let i = choose|i: int| 0 <= i < j && #[trigger] share(ifaces, i, j);
        assert(ifaces[i] is Some && ifaces[i]->0@ == ifaces[j]->0@);
    }
    if ifaces[j] is Some && exists|i: int|
        0 <= i < j && (#[trigger] ifaces[i]) is Some && ifaces[i]->0@ == ifaces[j]->0@ {
        let i = choose|i: int|
            0 <= i < j && (#[trigger] ifaces[i]) is Some && ifaces[i]->0@ == ifaces[j]->0@;
        assert(share(ifaces, i, j));
    }
}

/// How many interfaces are known: with one more target one more, where its is known.
pub proof fn known_interfaces_add_up(ifaces: Seq<Option<String>>, iface: Option<String>)
    ensures
        known_ifaces(ifaces, 0) == 0,
        known_ifaces(ifaces.push(iface), ifaces.len() + 1) == known_ifaces(ifaces, ifaces.len())
            + if iface is Some {
            1int
        } else {
            0int
        },
{
    lemma_known_start(ifaces.push(iface), ifaces, ifaces.len());
}

proof fn lemma_known_start(a: Seq<Option<String>>, b: Seq<Option<String>>, n: nat)
    requires
        forall|j: int| 0 <= j < n ==> a[j] == b[j],
    ensures
        known_ifaces(a, n) == known_ifaces(b, n),
    decreases n,
{
    if n > 0 {
        lemma_known_start(a, b, (n - 1) as nat);
    }
}

/// What is said of two targets names both of them, the first first, and the interface.
pub proof fn shared_interface_is_named(a: Seq<char>, b: Seq<char>, iface: Seq<char>)
    ensures
        ({
            let m = shared_interface(a, b, iface);
            &&& m.take(8) == "Targets "@
            &&& m.subrange(8, 8int + a.len()) == a
            &&& m.subrange(8int + a.len(), 13int + a.len()) == " and "@
            &&& m.subrange(13int + a.len(), 13int + a.len() + b.len()) == b
            &&& m.subrange(
                30int + a.len() + b.len(),
                30int + a.len() + b.len() + iface.len(),
            ) == iface
        }),
{
    reveal_strlit("Targets ");
    reveal_strlit(" and ");
    reveal_strlit(" both route via '");
    let m = shared_interface(a, b, iface);
    let k = a.len() as int;
    let l = b.len() as int;
    assert(m.take(8) =~= "Targets "@);
    assert(m.subrange(8, 8 + k) =~= a);
    assert(m.subrange(8 + k, 13 + k) =~= " and "@);
    assert(m.subrange(13 + k, 13 + k + l) =~= b);
    assert(m.subrange(30 + k + l, 30 + k + l + iface.len()) =~= iface);
}

/// What is said of a protocol that is not known names it.
pub proof fn unknown_protocol_is_named(s: Seq<char>)
    ensures
        unknown_protocol(s).take(18) == "unknown protocol '"@,
        unknown_protocol(s).subrange(18, 18int + s.len()) == s,
        unknown_protocol(s).skip(18int + s.len()) == "', use udp|tcp|dot"@,
{
    reveal_strlit("unknown protocol '");
    assert(unknown_protocol(s).take(18) =~= "unknown protocol '"@);
    assert(unknown_protocol(s).subrange(18, 18int + s.len()) =~= s);
    assert(unknown_protocol(s).skip(18int + s.len()) =~= "', use udp|tcp|dot"@);
}

} // verus!
