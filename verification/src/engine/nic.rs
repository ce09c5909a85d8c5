//! What the counters of a network interface say.

use vstd::prelude::*;

use crate::text::{
    after_prefix, chars_of, lines, number, parse_number, same_chars, split_lines, split_words,
    string_of, string_views, strip_prefix, trim, trimmed, views, words,
};

verus! {

/// A text without the colons and blanks at its start.
pub open spec fn skip_marks(s: Seq<char>) -> Seq<char>
    decreases s.len(),
{
    if s.len() > 0 && (s[0] == ':' || s[0] == ' ') {
        skip_marks(s.skip(1))
    } else {
        s
    }
}

/// The number that the first word of a text is.
pub open spec fn first_number(s: Seq<char>) -> Option<int> {
    let w = words(s);
    if w.len() > 0 {
        number(w[0], 10, u64::MAX as int)
    } else {
        None
    }
}

/// Drops the colons and blanks at the start of a text and reads its first word.
fn parse_after_marks(s: &[char]) -> (r: Option<u64>)
    ensures
        match r {
            Some(n) => first_number(skip_marks(s@)) == Some(n as int),
            None => first_number(skip_marks(s@)) is None,
        },
{
    let mut i: usize = 0;
    assert(s@.skip(0) =~= s@);
    while i < s.len() && (s[i] == ':' || s[i] == ' ')
        invariant
            i <= s@.len(),
            skip_marks(s@.skip(i as int)) == skip_marks(s@),
        decreases s@.len() - i,
    {
        assert(s@.skip(i as int).skip(1) =~= s@.skip(i + 1));
        i += 1;
    }
    let rest = vstd::slice::slice_subrange(s, i, s.len());
    assert(rest@ =~= s@.skip(i as int));
    assert(rest@ == skip_marks(s@));
    let w = split_words(rest);
    assert(views(w@) == words(rest@));
    if w.len() > 0 {
        assert(words(rest@)[0] == w@[0]@);
        parse_number(w[0].as_slice(), 10, u64::MAX)
    } else {
        None
    }
}

/// The value of a counter by the first line from `i` on that begins with its name
/// and goes on with a number.
pub open spec fn counter_from(ls: Seq<Seq<char>>, i: int, key: Seq<char>) -> Option<int>
    decreases ls.len() - i,
{
    if i < 0 || i >= ls.len() {
        None
    } else {
        match after_prefix(trim(ls[i]), key) {
            Some(rest) => match first_number(skip_marks(rest)) {
                Some(n) => Some(n),
                None => counter_from(ls, i + 1, key),
            },
            None => counter_from(ls, i + 1, key),
        }
    }
}

/// Looks for a counter by its name.
fn find_counter(ls: &Vec<Vec<char>>, key: &str) -> (r: Option<u64>)
    ensures
        match r {
            Some(n) => counter_from(views(ls@), 0, key@) == Some(n as int),
            None => counter_from(views(ls@), 0, key@) is None,
        },
{
    let ghost lv = views(ls@);
    let mut i: usize = 0;
    while i < ls.len()
        invariant
            i <= ls@.len(),
            lv == views(ls@),
            counter_from(lv, i as int, key@) == counter_from(lv, 0, key@),
        decreases ls@.len() - i,
    {
        assert(lv[i as int] == ls@[i as int]@);
        let l = trimmed(ls[i].as_slice());
        match strip_prefix(l.as_slice(), key) {
            Some(rest) => match parse_after_marks(rest.as_slice()) {
                Some(n) => {
                    return Some(n);
                },
                None => {},
            },
            None => {},
        }
        i += 1;
    }
    None
}

/// The packets that an interface put on the wire, by the list of its counters:
/// the first of three names that it has counts.
pub open spec fn wire_tx(list: Seq<char>) -> Option<int> {
    let ls = lines(list);
    match counter_from(ls, 0, "tx_pkts_nic"@) {
        Some(n) => Some(n),
        None => match counter_from(ls, 0, "port.tx_unicast"@) {
            Some(n) => Some(n),
            None => counter_from(ls, 0, "tx_unicast"@),
        },
    }
}

/// Reads the packets that an interface put on the wire from the list of its
/// counters.
pub fn nic_wire_tx_packets(list: &str) -> (r: Option<u64>)
    ensures
        match r {
            Some(n) => wire_tx(list@) == Some(n as int),
            None => wire_tx(list@) is None,
        },
{
    let chars = chars_of(list);
    let ls = split_lines(chars.as_slice());
    assert(views(ls@) == lines(list@));
    match find_counter(&ls, "tx_pkts_nic") {
        Some(n) => {
            return Some(n);
        },
        None => {},
    }
    match find_counter(&ls, "port.tx_unicast") {
        Some(n) => {
            return Some(n);
        },
        None => {},
    }
    find_counter(&ls, "tx_unicast")
}

/// The unicast packets that an interface received, by the first line from `i` on
/// that is the port's counter and nothing but a number.
pub open spec fn rx_unicast_from(ls: Seq<Seq<char>>, i: int) -> Option<int>
    decreases ls.len() - i,
{
    if i < 0 || i >= ls.len() {
        None
    } else {
        match after_prefix(trim(ls[i]), "rx_unicast:"@) {
            Some(rest) => match number(trim(rest), 10, u64::MAX as int) {
                Some(n) => Some(n),
                None => rx_unicast_from(ls, i + 1),
            },
            None => rx_unicast_from(ls, i + 1),
        }
    }
}

/// Reads the unicast packets that an interface received from the list of its
/// counters. Those of a queue or of a bridge inside the card do not count.
pub fn nic_rx_unicast(list: &str) -> (r: Option<u64>)
    ensures
        match r {
            Some(n) => rx_unicast_from(lines(list@), 0) == Some(n as int),
            None => rx_unicast_from(lines(list@), 0) is None,
        },
{
    let chars = chars_of(list);
    let ls = split_lines(chars.as_slice());
    let ghost lv = lines(list@);
    assert(views(ls@) == lv);
    let mut i: usize = 0;
    while i < ls.len()
        invariant
            i <= ls@.len(),
            lv == views(ls@),
            lv == lines(list@),
            rx_unicast_from(lv, i as int) == rx_unicast_from(lv, 0),
        decreases ls@.len() - i,
    {
        assert(lv[i as int] == ls@[i as int]@);
        let l = trimmed(ls[i].as_slice());
        match strip_prefix(l.as_slice(), "rx_unicast:") {
            Some(rest) => {
                let t = trimmed(rest.as_slice());
                match parse_number(t.as_slice(), 10, u64::MAX) {
                    Some(n) => {
                        return Some(n);
                    },
                    None => {},
                }
            },
            None => {},
        }
        i += 1;
    }
    None
}

/// The number in the file of a counter, where it can be read.
pub open spec fn file_counter(text: Option<String>) -> Option<int> {
    match text {
        Some(s) => number(trim(s@), 10, u64::MAX as int),
        None => None,
    }
}

/// Reads the file of a counter; on the interface's received bytes this is all
/// there is to do.
pub fn nic_rx_bytes(text: &Option<String>) -> (r: Option<u64>)
    ensures
        match r {
            Some(n) => file_counter(*text) == Some(n as int),
            None => file_counter(*text) is None,
        },
{
    match text {
        Some(s) => {
            let chars = chars_of(s.as_str());
            let t = trimmed(chars.as_slice());
            parse_number(t.as_slice(), 10, u64::MAX)
        },
        None => None,
    }
}

/// A number, or zero.
pub open spec fn or_zero(n: Option<int>) -> int {
    match n {
        Some(v) => v,
        None => 0,
    }
}

/// The replies that arrived on an interface: the packets received and those that
/// found no room in its ring. Without the former nothing is known.
pub open spec fn rx_arrived(
    packets: Option<String>,
    missed: Option<String>,
    fifo: Option<String>,
    over: Option<String>,
) -> Option<int> {
    match file_counter(packets) {
        Some(p) => Some(
            p + or_zero(file_counter(missed)) + or_zero(file_counter(fifo)) + or_zero(
                file_counter(over),
            ),
        ),
        None => None,
    }
}

/// Reads the replies that arrived on an interface from the files of its counters.
pub fn nic_rx_packets(
    packets: &Option<String>,
    missed: &Option<String>,
    fifo: &Option<String>,
    over: &Option<String>,
) -> (r: Option<u64>)
    requires
        rx_arrived(*packets, *missed, *fifo, *over) matches Some(n) ==> n <= u64::MAX,
    ensures
        match r {
            Some(n) => rx_arrived(*packets, *missed, *fifo, *over) == Some(n as int),
            None => rx_arrived(*packets, *missed, *fifo, *over) is None,
        },
{
    let p: u64 = match nic_rx_bytes(packets) {
        Some(p) => p,
        None => {
            return None;
        },
    };
    let m: u64 = match nic_rx_bytes(missed) {
        Some(n) => n,
        None => 0,
    };
    let f: u64 = match nic_rx_bytes(fifo) {
        Some(n) => n,
        None => 0,
    };
    let o: u64 = match nic_rx_bytes(over) {
        Some(n) => n,
        None => 0,
    };
    Some(p + m + f + o)
}

/// The sum of the first `n` counters that are known.
pub open spec fn sum_known(v: Seq<Option<u64>>, n: nat) -> int
    decreases n,
{
    if n == 0 {
        0
    } else {
        sum_known(v, (n - 1) as nat) + match v[n - 1] {
            Some(x) => x as int,
            None => 0,
        }
    }
}

proof fn lemma_sum_known(v: Seq<Option<u64>>, i: nat, n: nat)
    requires
        i <= n,
    ensures
        0 <= sum_known(v, i) <= sum_known(v, n),
    decreases n,
{
    if i < n {
        lemma_sum_known(v, i, (n - 1) as nat);
    } else if n > 0 {
        lemma_sum_known(v, (n - 1) as nat, (n - 1) as nat);
    }
}

/// Adds up the counters that are known.
pub fn sum_counters(v: &Vec<Option<u64>>) -> (r: u64)
    requires
        sum_known(v@, v@.len()) <= u64::MAX,
    ensures
        r == sum_known(v@, v@.len()),
{
    let mut total: u64 = 0;
    let mut i: usize = 0;
    while i < v.len()
        invariant
            i <= v@.len(),
            total == sum_known(v@, i as nat),
            sum_known(v@, v@.len()) <= u64::MAX,
        decreases v@.len() - i,
    {
        proof {
            lemma_sum_known(v@, (i + 1) as nat, v@.len());
        }
        match v[i] {
            Some(x) => {
                total += x;
            },
            None => {},
        }
        i += 1;
    }
    total
}

/// Adds up the counters that are known; nothing where none is.
pub fn rx_hw(v: &Vec<Option<u64>>) -> (r: Option<u64>)
    requires
        sum_known(v@, v@.len()) <= u64::MAX,
    ensures
        match r {
            Some(n) => n == sum_known(v@, v@.len()) && exists|i: int|
                0 <= i < v@.len() && v@[i] is Some,
            None => forall|i: int| 0 <= i < v@.len() ==> v@[i] is None,
        },
{
    let mut i: usize = 0;
    while i < v.len()
        invariant
            i <= v@.len(),
            sum_known(v@, v@.len()) <= u64::MAX,
            forall|j: int| 0 <= j < i ==> v@[j] is None,
        decreases v@.len() - i,
    {
        if v[i].is_some() {
            return Some(sum_counters(v));
        }
        i += 1;
    }
    None
}

/// The first `n` names, each where it comes first.
pub open spec fn first_names(names: Seq<Seq<char>>, n: nat) -> Seq<Seq<char>>
    decreases n,
{
    if n == 0 {
        Seq::empty()
    } else {
        let before = first_names(names, (n - 1) as nat);
        if before.contains(names[n - 1]) {
            before
        } else {
            before.push(names[n - 1])
        }
    }
}

/// The interfaces over which queries leave and replies come back, none of them
/// twice, given the interface of each target.
pub fn return_ifaces(names: &Vec<String>) -> (r: Vec<String>)
    ensures
        string_views(r@) == first_names(string_views(names@), names@.len()),
{
    let ghost nv = string_views(names@);
    let mut out: Vec<String> = Vec::new();
    assert(string_views(out@) =~= Seq::<Seq<char>>::empty());
    let mut i: usize = 0;
    while i < names.len()
        invariant
            i <= names@.len(),
            nv == string_views(names@),
            string_views(out@) == first_names(nv, i as nat),
        decreases names@.len() - i,
    {
        let c = chars_of(names[i].as_str());
        let ghost ov = string_views(out@);
        assert(nv[i as int] == c@);
        let mut known: bool = false;
        let mut j: usize = 0;
        while j < out.len() && !known
            invariant
                j <= out@.len(),
                ov == string_views(out@),
                known ==> ov.contains(c@),
                !known ==> forall|k: int| 0 <= k < j ==> ov[k] != c@,
            decreases out@.len() - j + if known { 0int } else { 1 },
        {
            let o = chars_of(out[j].as_str());
            assert(ov[j as int] == o@);
            if same_chars(o.as_slice(), c.as_slice()) {
                known = true;
            } else {
                j += 1;
            }
        }
        if !known {
            let s = string_of(c.as_slice());
            out.push(s);
            assert(string_views(out@) =~= ov.push(c@));
        }
        i += 1;
    }
    out
}

/// What a counter is: the number on the first line that begins with its name and goes
/// on with one; lines before that, of another name or without a number, do not count.
pub proof fn first_named_line_counts(ls: Seq<Seq<char>>, key: Seq<char>, i: int, n: int)
    requires
        0 <= i < ls.len(),
        after_prefix(trim(ls[i]), key) matches Some(rest) && first_number(skip_marks(rest))
            == Some(n),
        forall|j: int|
            0 <= j < i ==> (after_prefix(#[trigger] trim(ls[j]), key) matches Some(rest)
                ==> first_number(skip_marks(rest)) is None),
    ensures
        counter_from(ls, 0, key) == Some(n),
{
    lemma_counter_at(ls, key, 0, i, n);
}

proof fn lemma_counter_at(ls: Seq<Seq<char>>, key: Seq<char>, from: int, i: int, n: int)
    requires
        0 <= from <= i < ls.len(),
        after_prefix(trim(ls[i]), key) matches Some(rest) && first_number(skip_marks(rest))
            == Some(n),
        forall|j: int|
            from <= j < i ==> (after_prefix(#[trigger] trim(ls[j]), key) matches Some(rest)
                ==> first_number(skip_marks(rest)) is None),
    ensures
        counter_from(ls, from, key) == Some(n),
    decreases i - from,
{
    if from < i {
        assert(after_prefix(trim(ls[from]), key) matches Some(rest) ==> first_number(
            skip_marks(rest),
        ) is None);
        lemma_counter_at(ls, key, from + 1, i, n);
    }
}

/// Without a line of its name that goes on with a number a counter is not there.
pub proof fn unnamed_counter_is_none(ls: Seq<Seq<char>>, key: Seq<char>, from: int)
    requires
        0 <= from,
        forall|j: int|
            from <= j < ls.len() ==> (after_prefix(#[trigger] trim(ls[j]), key) matches Some(rest)
                ==> first_number(skip_marks(rest)) is None),
    ensures
        counter_from(ls, from, key) is None,
    decreases ls.len() - from,
{
    if from < ls.len() {
        assert(after_prefix(trim(ls[from]), key) matches Some(rest) ==> first_number(
            skip_marks(rest),
        ) is None);
        unnamed_counter_is_none(ls, key, from + 1);
    }
}

/// Whether a line is the port's own count of unicast packets received: its name, a
/// colon, and a number alone.
pub open spec fn is_rx_line(line: Seq<char>, n: int) -> bool {
    after_prefix(trim(line), "rx_unicast:"@) matches Some(rest) && number(
        trim(rest),
        10,
        u64::MAX as int,
    ) == Some(n)
}

/// The first such line counts.
pub proof fn first_rx_line_counts(ls: Seq<Seq<char>>, from: int, i: int, n: int)
    requires
        0 <= from <= i < ls.len(),
        is_rx_line(ls[i], n),
        forall|j: int, m: int| from <= j < i ==> !#[trigger] is_rx_line(ls[j], m),
    ensures
        rx_unicast_from(ls, from) == Some(n),
    decreases i - from,
{
    if from < i {
        match after_prefix(trim(ls[from]), "rx_unicast:"@) {
            Some(rest) => match number(trim(rest), 10, u64::MAX as int) {
                Some(m) => {
                    assert(is_rx_line(ls[from], m));
                },
                None => {},
            },
            None => {},
        }
        first_rx_line_counts(ls, from + 1, i, n);
    }
}

proof fn lemma_sum_start(a: Seq<Option<u64>>, b: Seq<Option<u64>>, n: nat)
    requires
        forall|j: int| 0 <= j < n ==> a[j] == b[j],
    ensures
        sum_known(a, n) == sum_known(b, n),
    decreases n,
{
    if n > 0 {
        lemma_sum_start(a, b, (n - 1) as nat);
    }
}

/// The sum of counters: of one that is known itself, of one that is not nothing, and of
/// two lists the sum of their sums.
pub proof fn counters_add_up(a: Seq<Option<u64>>, b: Seq<Option<u64>>, x: u64)
    ensures
        sum_known(seq![Some(x)], 1) == x,
        sum_known(seq![None], 1) == 0,
        sum_known(a + b, (a + b).len()) == sum_known(a, a.len()) + sum_known(b, b.len()),
    decreases b.len(),
{
    assert(sum_known(seq![Some(x)], 0) == 0);
    assert(sum_known(seq![None], 0) == 0);
    if b.len() == 0 {
        assert(a + b =~= a);
    } else {
        let d = b.drop_last();
        counters_add_up(a, d, x);
        lemma_sum_start(a + b, a + d, (a + d).len());
        lemma_sum_start(b, d, d.len());
        assert((a + b)[(a + b).len() - 1] == b.last());
    }
}

/// What arrived is what was received together with what the card had to drop; a count
/// that cannot be read is nothing, but without the first nothing is known.
pub proof fn drops_count_as_arrived(
    packets: Option<String>,
    missed: Option<String>,
    fifo: Option<String>,
    over: Option<String>,
)
    ensures
        file_counter(packets) is None ==> rx_arrived(packets, missed, fifo, over) is None,
        file_counter(packets) matches Some(p) ==> {
            &&& rx_arrived(packets, None, None, None) == Some(p)
            &&& file_counter(missed) matches Some(m) ==> rx_arrived(packets, missed, None, None)
                == Some(p + m)
            &&& file_counter(missed) matches Some(m) ==> (file_counter(fifo) matches Some(f) ==> (
            file_counter(over) matches Some(o) ==> rx_arrived(packets, missed, fifo, over) == Some(
                p + m + f + o,
            )))
        },
{
}

/// Each interface is named once, none is left out, and they keep the order in which
/// they first came.
pub proof fn names_come_once(names: Seq<Seq<char>>, n: nat)
    requires
        n <= names.len(),
    ensures
        ({
            let r = first_names(names, n);
            &&& forall|i: int, j: int| 0 <= i < j < r.len() ==> #[trigger] r[i] != #[trigger] r[j]
            &&& forall|i: int| 0 <= i < n ==> r.contains(#[trigger] names[i])
            &&& forall|i: int|
                0 <= i < r.len() ==> exists|j: int| 0 <= j < n && names[j] == #[trigger] r[i]
            &&& n > 0 ==> r.len() > 0 && r[0] == names[0]
        }),
    decreases n,
{
    if n > 0 {
        names_come_once(names, (n - 1) as nat);
        let before = first_names(names, (n - 1) as nat);
        let r = first_names(names, n);
        assert forall|i: int| 0 <= i < n implies r.contains(#[trigger] names[i]) by {
            if i < n - 1 {
                assert(before.contains(names[i]));
                let k = choose|k: int| 0 <= k < before.len() && before[k] == names[i];
                assert(r[k] == names[i]);
            } else if !before.contains(names[n - 1]) {
                assert(r[before.len() as int] == names[n - 1]);
            }
        }
        assert forall|i: int| 0 <= i < r.len() implies exists|j: int|
            0 <= j < n && names[j] == #[trigger] r[i] by {
            if i < before.len() {
                assert(r[i] == before[i]);
                let j = choose|j: int| 0 <= j < n - 1 && names[j] == before[i];
                assert(names[j] == r[i]);
            } else {
                assert(names[n - 1] == r[i]);
            }
        }
        if n == 1 {
            assert(before =~= Seq::empty());
            assert(!before.contains(names[0]));
        }
    }
}

/// Which counter tells what left on the wire: the first of three names that the card
/// has.
pub proof fn wire_counter_has_three_names(list: Seq<char>, n: int)
    ensures
        counter_from(lines(list), 0, "tx_pkts_nic"@) == Some(n) ==> wire_tx(list) == Some(n),
        counter_from(lines(list), 0, "tx_pkts_nic"@) is None && counter_from(
            lines(list),
            0,
            "port.tx_unicast"@,
        ) == Some(n) ==> wire_tx(list) == Some(n),
        counter_from(lines(list), 0, "tx_pkts_nic"@) is None && counter_from(
            lines(list),
            0,
            "port.tx_unicast"@,
        ) is None ==> wire_tx(list) == counter_from(lines(list), 0, "tx_unicast"@),
{
}

/// The file of a counter holds its number, and a line names it by its first word.
pub proof fn counters_are_read_as_written(text: String, s: Seq<char>, n: nat)
    requires
        n <= u64::MAX,
    ensures
        trim(text@) == crate::text::decimal(n) ==> file_counter(Some(text)) == Some(n as int),
        file_counter(None) is None,
        words(s).len() > 0 && words(s)[0] == crate::text::decimal(n) ==> first_number(s) == Some(
            n as int,
        ),
        words(s).len() == 0 ==> first_number(s) is None,
{
    crate::text::numbers_are_read_back(n, u64::MAX as int);
}

/// Colons and blanks at the start of a text do not count, and what starts otherwise stays
/// as it is.
pub proof fn marks_do_not_count(s: Seq<char>)
    ensures
        skip_marks(seq![':'] + s) == skip_marks(s),
        skip_marks(seq![' '] + s) == skip_marks(s),
        s.len() > 0 && s[0] != ':' && s[0] != ' ' ==> skip_marks(s) == s,
{
    assert((seq![':'] + s).skip(1) =~= s);
    assert((seq![' '] + s).skip(1) =~= s);
}

} // verus!
