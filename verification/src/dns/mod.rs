//! DNS messages: building a query and naming record types.

use vstd::prelude::*;
use vstd::string::*;

use crate::text::{chars_are, chars_of, number, parse_number};

pub use response::{parse_response, ResponseInfo};

pub mod response;

verus! {

/// A 16-bit number in network order.
pub open spec fn be16(x: int) -> Seq<u8> {
    seq![(x / 256) as u8, (x % 256) as u8]
}

/// The first place at or after `i` that holds a dot, or the length.
pub open spec fn dot_from(s: Seq<u8>, i: int) -> int
    decreases s.len() - i,
{
    if i >= s.len() {
        s.len() as int
    } else if s[i] == 0x2E {
        i
    } else {
        dot_from(s, i + 1)
    }
}

/// The labels of a dotted name from place `i` on, each after its length's low
/// byte. Empty labels are left out.
pub open spec fn labels_from(s: Seq<u8>, i: int) -> Seq<u8>
    decreases s.len() - i,
{
    if i < 0 || i >= s.len() {
        Seq::empty()
    } else if s[i] == 0x2E {
        labels_from(s, i + 1)
    } else {
        let e = dot_from(s, i);
        proof {
            lemma_dot_from(s, i);
        }
        seq![((e - i) % 256) as u8] + s.subrange(i, e) + labels_from(s, e)
    }
}

/// Where the first dot lies.
pub proof fn lemma_dot_from(s: Seq<u8>, i: int)
    requires
        0 <= i <= s.len(),
    ensures
        i <= dot_from(s, i) <= s.len(),
        dot_from(s, i) < s.len() ==> s[dot_from(s, i)] == 0x2E,
        forall|j: int| i <= j < dot_from(s, i) ==> s[j] != 0x2E,
        i < s.len() && s[i] != 0x2E ==> dot_from(s, i) > i,
    decreases s.len() - i,
{
    if i < s.len() && s[i] != 0x2E {
        lemma_dot_from(s, i + 1);
    }
}

/// A dotted name in wire form, with the root label at its end.
pub open spec fn qname(name: Seq<u8>) -> Seq<u8> {
    labels_from(name, 0).push(0)
}

/// A recursive query of class IN for one name, as it goes on the wire.
pub open spec fn query(id: int, name: Seq<u8>, qtype: int) -> Seq<u8> {
    be16(id) + seq![1u8, 0, 0, 1, 0, 0, 0, 0, 0, 0] + qname(name) + be16(qtype) + be16(1)
}

/// Appends a 16-bit number in network order.
pub fn push_be16(buf: &mut Vec<u8>, x: u16)
    ensures
        final(buf)@ == old(buf)@ + be16(x as int),
{
    buf.push((x / 256) as u8);
    buf.push((x % 256) as u8);
    assert(buf@ =~= old(buf)@ + be16(x as int));
}

/// Appends the labels of a dotted name.
fn push_labels(buf: &mut Vec<u8>, name: &[u8])
    ensures
        final(buf)@ == old(buf)@ + labels_from(name@, 0),
{
    let ghost start = buf@;
    let mut i: usize = 0;
    while i < name.len()
        invariant
            i <= name@.len(),
            buf@ + labels_from(name@, i as int) == start + labels_from(name@, 0),
        decreases name@.len() - i,
    {
        let ghost before = buf@;
        let ghost rest = labels_from(name@, i as int);
        if name[i] == 0x2E {
            i += 1;
        } else {
            let mut e: usize = i;
            while e < name.len() && name[e] != 0x2E
                invariant
                    i <= e <= name@.len(),
                    dot_from(name@, e as int) == dot_from(name@, i as int),
                decreases name@.len() - e,
            {
                e += 1;
            }
            buf.push(((e - i) % 256) as u8);
            let mut k: usize = i;
            while k < e
                invariant
                    i <= k <= e <= name@.len(),
                    buf@ == before + seq![((e - i) % 256) as u8] + name@.subrange(
                        i as int,
                        k as int,
                    ),
                decreases e - k,
            {
                buf.push(name[k]);
                assert(name@.subrange(i as int, k as int).push(name@[k as int])
                    =~= name@.subrange(i as int, k + 1));
                k += 1;
            }
            proof {
                assert(buf@ + labels_from(name@, e as int) =~= before + rest);
            }
            i = e;
        }
    }
    assert(buf@ + labels_from(name@, i as int) =~= buf@);
}

/// Builds a recursive query of class IN for `name` and `qtype`.
pub fn build_query(id: u16, name: &str, qtype: u16) -> (buf: Vec<u8>)
    ensures
        buf@ == query(id as int, name.spec_bytes(), qtype as int),
{
    let mut buf: Vec<u8> = Vec::with_capacity(512);
    push_be16(&mut buf, id);
    push_be16(&mut buf, 0x0100);
    push_be16(&mut buf, 1);
    push_be16(&mut buf, 0);
    push_be16(&mut buf, 0);
    push_be16(&mut buf, 0);
    assert(buf@ =~= be16(id as int) + seq![1u8, 0, 0, 1, 0, 0, 0, 0, 0, 0]);
    push_labels(&mut buf, name.as_bytes());
    buf.push(0);
    push_be16(&mut buf, qtype);
    push_be16(&mut buf, 1);
    assert(buf@ =~= query(id as int, name.spec_bytes(), qtype as int));
    buf
}

/// `c` with an ASCII letter raised to upper case.
pub open spec fn upper(c: char) -> char {
    if 97 <= c as int <= 122 {
        (c as int - 32) as char
    } else {
        c
    }
}

/// `s` with its ASCII letters raised to upper case.
pub open spec fn upper_all(s: Seq<char>) -> Seq<char> {
    Seq::new(s.len(), |i: int| upper(s[i]))
}

/// Raises the ASCII letters to upper case.
fn to_upper(s: &[char]) -> (r: Vec<char>)
    ensures
        r@ == upper_all(s@),
{
    let mut out: Vec<char> = Vec::new();
    let mut i: usize = 0;
    while i < s.len()
        invariant
            i <= s@.len(),
            out@ == upper_all(s@).take(i as int),
        decreases s@.len() - i,
    {
        let c: char = s[i];
        let u: u32 = c as u32;
        if 97 <= u && u <= 122 {
            out.push((u - 32) as u8 as char);
        } else {
            out.push(c);
        }
        assert(out@ =~= upper_all(s@).take(i + 1));
        i += 1;
    }
    assert(out@ =~= upper_all(s@));
    out
}

/// The record types that have a name here, with their numbers.
pub open spec fn named_type(s: Seq<char>) -> Option<u16> {
    if s == "A"@ {
        Some(1)
    } else if s == "NS"@ {
        Some(2)
    } else if s == "CNAME"@ {
        Some(5)
    } else if s == "SOA"@ {
        Some(6)
    } else if s == "PTR"@ {
        Some(12)
    } else if s == "MX"@ {
        Some(15)
    } else if s == "TXT"@ {
        Some(16)
    } else if s == "AAAA"@ {
        Some(28)
    } else if s == "SRV"@ {
        Some(33)
    } else if s == "NAPTR"@ {
        Some(35)
    } else if s == "DS"@ {
        Some(43)
    } else if s == "RRSIG"@ {
        Some(46)
    } else if s == "NSEC"@ {
        Some(47)
    } else if s == "DNSKEY"@ {
        Some(48)
    } else if s == "NSEC3"@ {
        Some(50)
    } else if s == "TLSA"@ {
        Some(52)
    } else if s == "CAA"@ {
        Some(257)
    } else if s == "ANY"@ {
        Some(255)
    } else {
        None
    }
}

/// The record type that a text stands for: a name in either case, or a number;
/// anything else is an A record.
pub open spec fn record_type(s: Seq<char>) -> u16 {
    match named_type(upper_all(s)) {
        Some(t) => t,
        None => match number(upper_all(s), 10, 65535) {
            Some(n) => n as u16,
            None => 1,
        },
    }
}

/// Reads a record type.
pub fn parse_record_type(s: &str) -> (t: u16)
    ensures
        t == record_type(s@),
{
    let chars = chars_of(s);
    let up = to_upper(chars.as_slice());
    let u = up.as_slice();
    if chars_are(u, "A") {
        1
    } else if chars_are(u, "NS") {
        2
    } else if chars_are(u, "CNAME") {
        5
    } else if chars_are(u, "SOA") {
        6
    } else if chars_are(u, "PTR") {
        12
    } else if chars_are(u, "MX") {
        15
    } else if chars_are(u, "TXT") {
        16
    } else if chars_are(u, "AAAA") {
        28
    } else if chars_are(u, "SRV") {
        33
    } else if chars_are(u, "NAPTR") {
        35
    } else if chars_are(u, "DS") {
        43
    } else if chars_are(u, "RRSIG") {
        46
    } else if chars_are(u, "NSEC") {
        47
    } else if chars_are(u, "DNSKEY") {
        48
    } else if chars_are(u, "NSEC3") {
        50
    } else if chars_are(u, "TLSA") {
        52
    } else if chars_are(u, "CAA") {
        257
    } else if chars_are(u, "ANY") {
        255
    } else {
        match parse_number(u, 10, 65535) {
            Some(n) => n as u16,
            None => 1,
        }
    }
}

/// The labels that a message holds from place `at` on, read by their length bytes up to
/// the root label, and the place behind it; nothing where the message ends before.
pub open spec fn read_labels(msg: Seq<u8>, at: int) -> Option<(Seq<Seq<u8>>, int)>
    decreases msg.len() - at,
{
    if at < 0 || at >= msg.len() {
        None
    } else if msg[at] == 0 {
        Some((Seq::empty(), at + 1))
    } else if at + 1 + msg[at] > msg.len() {
        None
    } else {
        match read_labels(msg, at + 1 + msg[at]) {
            None => None,
            Some((rest, end)) => Some(
                (seq![msg.subrange(at + 1, at + 1 + msg[at])] + rest, end),
            ),
        }
    }
}

/// Some labels with a dot between any two of them.
pub open spec fn dotted(labels: Seq<Seq<u8>>) -> Seq<u8>
    decreases labels.len(),
{
    if labels.len() == 0 {
        Seq::empty()
    } else if labels.len() == 1 {
        labels[0]
    } else {
        labels[0] + seq![46u8] + dotted(labels.skip(1))
    }
}

/// Whether a label can go on the wire: it is not empty, holds no dot and has no more
/// than 63 bytes.
pub open spec fn is_label(l: Seq<u8>) -> bool {
    &&& 1 <= l.len() <= 63
    &&& forall|i: int| 0 <= i < l.len() ==> #[trigger] l[i] != 46
}

proof fn lemma_dot_shift(a: Seq<u8>, b: Seq<u8>, i: int)
    requires
        0 <= i <= b.len(),
    ensures
        dot_from(a + b, a.len() + i) == a.len() + dot_from(b, i),
    decreases b.len() - i,
{
    if i < b.len() {
        assert((a + b)[a.len() + i] == b[i]);
        lemma_dot_shift(a, b, i + 1);
    }
}

/// What stands before a place has no part in the labels from there on.
proof fn lemma_labels_shift(a: Seq<u8>, b: Seq<u8>, i: int)
    requires
        0 <= i <= b.len(),
    ensures
        labels_from(a + b, a.len() + i) == labels_from(b, i),
    decreases b.len() - i,
{
    let ab = a + b;
    if i < b.len() {
        assert(ab[a.len() + i] == b[i]);
        if b[i] == 46 {
            lemma_labels_shift(a, b, i + 1);
        } else {
            lemma_dot_shift(a, b, i);
            lemma_dot_from(b, i);
            let e = dot_from(b, i);
            lemma_labels_shift(a, b, e);
            assert(ab.subrange(a.len() + i, a.len() + e) =~= b.subrange(i, e));
        }
    }
}

proof fn lemma_dot_in(s: Seq<u8>, i: int, e: int)
    requires
        0 <= i <= e <= s.len(),
        forall|j: int| i <= j < e ==> #[trigger] s[j] != 46,
        e < s.len() ==> s[e] == 46,
    ensures
        dot_from(s, i) == e,
    decreases e - i,
{
    if i < e {
        assert(s[i] != 46);
        lemma_dot_in(s, i + 1, e);
    }
}

/// A dot ends a label: what follows it stands for itself.
proof fn lemma_labels_split(a: Seq<u8>, b: Seq<u8>, i: int)
    requires
        0 <= i <= a.len(),
    ensures
        labels_from(a + seq![46u8] + b, i) == labels_from(a, i) + labels_from(b, 0),
    decreases a.len() - i,
{
    let s = a + seq![46u8] + b;
    if i == a.len() {
        assert(s[i] == 46);
        lemma_labels_shift(a + seq![46u8], b, 0);
        assert(labels_from(a, i) + labels_from(b, 0) =~= labels_from(b, 0));
    } else {
        assert(s[i] == a[i]);
        if a[i] == 46 {
            lemma_labels_split(a, b, i + 1);
        } else {
            lemma_dot_from(a, i);
            let e = dot_from(a, i);
            assert(forall|j: int| i <= j < e ==> #[trigger] s[j] == a[j]);
            assert(s[e] == 46);
            lemma_dot_in(s, i, e);
            lemma_labels_split(a, b, e);
            assert(s.subrange(i, e) =~= a.subrange(i, e));
            assert(labels_from(s, i) =~= labels_from(a, i) + labels_from(b, 0));
        }
    }
}

proof fn lemma_one_label(l: Seq<u8>)
    requires
        is_label(l),
    ensures
        labels_from(l, 0) == seq![l.len() as u8] + l,
{
    lemma_dot_in(l, 0, l.len() as int);
    assert(l[0] != 46);
    assert(l.subrange(0, l.len() as int) =~= l);
    assert(labels_from(l, l.len() as int) =~= Seq::empty());
    assert(labels_from(l, 0) =~= seq![l.len() as u8] + l);
}

/// Reading what labels make gives the labels, whatever stands before and behind.
proof fn lemma_read_back(pre: Seq<u8>, labels: Seq<Seq<u8>>, post: Seq<u8>)
    requires
        forall|i: int| 0 <= i < labels.len() ==> is_label(#[trigger] labels[i]),
    ensures
        ({
            let wire = labels_from(dotted(labels), 0);
            read_labels(pre + wire + seq![0u8] + post, pre.len() as int) == Some(
                (labels, (pre.len() + wire.len() + 1) as int),
            )
        }),
    decreases labels.len(),
{
    let wire = labels_from(dotted(labels), 0);
    let msg = pre + wire + seq![0u8] + post;
    let at = pre.len() as int;
    if labels.len() == 0 {
        assert(wire =~= Seq::empty());
        assert(msg[at] == 0);
        assert(labels =~= Seq::empty());
    } else {
        let l = labels[0];
        let rest = labels.skip(1);
        assert(is_label(l));
        assert forall|i: int| 0 <= i < rest.len() implies is_label(#[trigger] rest[i]) by {
            assert(rest[i] == labels[i + 1]);
        }
        lemma_one_label(l);
        let tail = labels_from(dotted(rest), 0);
        if labels.len() == 1 {
            assert(rest =~= Seq::empty());
            assert(tail =~= Seq::empty());
            assert(wire =~= seq![l.len() as u8] + l + tail);
        } else {
            lemma_labels_split(l, dotted(rest), 0);
            assert(wire =~= seq![l.len() as u8] + l + tail);
        }
        let front = pre + seq![l.len() as u8] + l;
        lemma_read_back(front, rest, post);
        assert(front + tail + seq![0u8] + post =~= msg);
        assert(msg[at] == l.len());
        assert(msg.subrange(at + 1, at + 1 + l.len()) =~= l);
        assert(seq![l] + rest =~= labels);
    }
}

/// A query decodes to its name: read by their length bytes from the end of the header
/// on, its labels are the parts of the name between the dots, and they end where the
/// record type begins.
pub proof fn query_names_what_was_asked(id: int, labels: Seq<Seq<u8>>, qtype: int)
    requires
        forall|i: int| 0 <= i < labels.len() ==> is_label(#[trigger] labels[i]),
    ensures
        read_labels(query(id, dotted(labels), qtype), 12) == Some(
            (labels, query(id, dotted(labels), qtype).len() - 4),
        ),
{
    let name = dotted(labels);
    let pre = be16(id) + seq![1u8, 0, 0, 1, 0, 0, 0, 0, 0, 0];
    let post = be16(qtype) + be16(1);
    lemma_read_back(pre, labels, post);
    assert(pre + labels_from(name, 0) + seq![0u8] + post =~= query(id, name, qtype));
}

/// Empty parts of a name do not count: a dot at its start, at its end or next to
/// another dot changes nothing.
pub proof fn empty_labels_do_not_count(id: int, a: Seq<u8>, b: Seq<u8>, qtype: int)
    ensures
        query(id, seq![46u8] + a, qtype) == query(id, a, qtype),
        query(id, a + seq![46u8], qtype) == query(id, a, qtype),
        query(id, a + seq![46u8, 46] + b, qtype) == query(id, a + seq![46u8] + b, qtype),
{
    let dot = seq![46u8];
    let none = Seq::<u8>::empty();
    assert(labels_from(none, 0) =~= none);
    lemma_labels_split(none, a, 0);
    assert(none + dot + a =~= dot + a);
    assert(none + labels_from(a, 0) =~= labels_from(a, 0));
    lemma_labels_split(a, none, 0);
    assert(a + dot + none =~= a + dot);
    assert(labels_from(a, 0) + none =~= labels_from(a, 0));
    lemma_labels_split(a, dot + b, 0);
    lemma_labels_split(a, b, 0);
    lemma_labels_split(none, b, 0);
    assert(none + dot + b =~= dot + b);
    assert(none + labels_from(b, 0) =~= labels_from(b, 0));
    assert(a + dot + (dot + b) =~= a + seq![46u8, 46] + b);
}

/// The fixed parts of a query, place by place: the id, a recursive query with one
/// question and nothing else, and at its end the record type and the class IN.
pub proof fn query_has_its_header(id: u16, name: Seq<u8>, qtype: u16)
    ensures
        ({
            let q = query(id as int, name, qtype as int);
            let n = q.len() as int;
            &&& n >= 17
            &&& q[0] * 256 + q[1] == id
            &&& q[2] == 0x01 && q[3] == 0
            &&& q[4] == 0 && q[5] == 1
            &&& forall|i: int| 6 <= i < 12 ==> #[trigger] q[i] == 0
            &&& q[n - 5] == 0
            &&& q[n - 4] * 256 + q[n - 3] == qtype
            &&& q[n - 2] == 0 && q[n - 1] == 1
        }),
{
    let q = query(id as int, name, qtype as int);
    let n = q.len() as int;
    let pre = be16(id as int) + seq![1u8, 0, 0, 1, 0, 0, 0, 0, 0, 0];
    let post = be16(qtype as int) + be16(1);
    assert(q =~= pre + qname(name) + post);
    assert(forall|i: int| 0 <= i < 12 ==> q[i] == pre[i]);
    assert(q[n - 5] == qname(name).last());
    assert(q[n - 4] == post[0] && q[n - 3] == post[1] && q[n - 2] == post[2] && q[n - 1]
        == post[3]);
}

/// The record types that are asked for by name have the numbers that they have in DNS,
/// in whatever case the name is written.
pub proof fn types_have_their_numbers(s: Seq<char>)
    ensures
        upper_all(s) == "A"@ ==> record_type(s) == 1,
        upper_all(s) == "NS"@ ==> record_type(s) == 2,
        upper_all(s) == "CNAME"@ ==> record_type(s) == 5,
        upper_all(s) == "SOA"@ ==> record_type(s) == 6,
        upper_all(s) == "PTR"@ ==> record_type(s) == 12,
        upper_all(s) == "MX"@ ==> record_type(s) == 15,
        upper_all(s) == "TXT"@ ==> record_type(s) == 16,
        upper_all(s) == "AAAA"@ ==> record_type(s) == 28,
        upper_all(s) == "SRV"@ ==> record_type(s) == 33,
        upper_all(s) == "NAPTR"@ ==> record_type(s) == 35,
        upper_all(s) == "DS"@ ==> record_type(s) == 43,
        upper_all(s) == "RRSIG"@ ==> record_type(s) == 46,
        upper_all(s) == "NSEC"@ ==> record_type(s) == 47,
        upper_all(s) == "DNSKEY"@ ==> record_type(s) == 48,
        upper_all(s) == "NSEC3"@ ==> record_type(s) == 50,
        upper_all(s) == "TLSA"@ ==> record_type(s) == 52,
        upper_all(s) == "CAA"@ ==> record_type(s) == 257,
        upper_all(s) == "ANY"@ ==> record_type(s) == 255,
{
    reveal_strlit("A");
    reveal_strlit("NS");
    reveal_strlit("CNAME");
    reveal_strlit("SOA");
    reveal_strlit("PTR");
    reveal_strlit("MX");
    reveal_strlit("TXT");
    reveal_strlit("AAAA");
    reveal_strlit("SRV");
    reveal_strlit("NAPTR");
    reveal_strlit("DS");
    reveal_strlit("RRSIG");
    reveal_strlit("NSEC");
    reveal_strlit("DNSKEY");
    reveal_strlit("NSEC3");
    reveal_strlit("TLSA");
    reveal_strlit("CAA");
    reveal_strlit("ANY");
}

/// Upper case is what small letters become: the letter of the same place in the
/// alphabet. All else stays.
pub proof fn case_makes_no_difference(s: Seq<char>, i: int)
    requires
        0 <= i < s.len(),
    ensures
        upper_all(s).len() == s.len(),
        'a' as int <= s[i] as int <= 'z' as int ==> upper_all(s)[i] as int - 'A' as int
            == s[i] as int - 'a' as int,
        !('a' as int <= s[i] as int <= 'z' as int) ==> upper_all(s)[i] == s[i],
        record_type(upper_all(s)) == record_type(s),
{
    assert(upper_all(upper_all(s)) =~= upper_all(s));
}

/// A record type can be given by its number; what is neither a name nor a number asks
/// for addresses, and so does a number that is too large.
pub proof fn types_can_be_numbers(n: nat)
    ensures
        n <= 65535 ==> record_type(crate::text::decimal(n)) == n,
        n > 65535 ==> record_type(crate::text::decimal(n)) == 1,
{
    let s = crate::text::decimal(n);
    lemma_decimal_upper(n);
    crate::text::numbers_are_read_back(n, 65535);
    reveal_strlit("A");
    reveal_strlit("NS");
    reveal_strlit("CNAME");
    reveal_strlit("SOA");
    reveal_strlit("PTR");
    reveal_strlit("MX");
    reveal_strlit("TXT");
    reveal_strlit("AAAA");
    reveal_strlit("SRV");
    reveal_strlit("NAPTR");
    reveal_strlit("DS");
    reveal_strlit("RRSIG");
    reveal_strlit("NSEC");
    reveal_strlit("DNSKEY");
    reveal_strlit("NSEC3");
    reveal_strlit("TLSA");
    reveal_strlit("CAA");
    reveal_strlit("ANY");
    assert(48 <= s[0] as int <= 57);
    assert(named_type(s) is None);
}

proof fn lemma_decimal_upper(n: nat)
    ensures
        upper_all(crate::text::decimal(n)) == crate::text::decimal(n),
        crate::text::decimal(n).len() > 0,
        48 <= crate::text::decimal(n)[0] as int <= 57,
    decreases n,
{
    let s = crate::text::decimal(n);
    if n >= 10 {
        lemma_decimal_upper(n / 10);
        let p = crate::text::decimal(n / 10);
        assert(upper_all(s) =~= upper_all(p).push((48 + n % 10) as char));
    } else {
        assert(upper_all(s) =~= s);
    }
}

/// A text that names no type and holds something else than digits asks for addresses.
pub proof fn unknown_types_are_addresses(s: Seq<char>, i: int)
    requires
        0 <= i < s.len(),
        !(48 <= upper_all(s)[i] as int <= 57) && (i > 0 || s[i] != '+'),
        named_type(upper_all(s)) is None,
    ensures
        record_type(s) == 1,
{
    let u = upper_all(s);
    assert(i == 0 ==> u[0] != '+') by {
        assert(u[0] == upper(s[0]));
    }
    crate::text::other_text_is_no_number(u, i, 65535);
}

} // verus!
