//! Queries for names that no cache knows.

use vstd::prelude::*;

use crate::text::{
    all_digits, chars_of, digit, digits_value, number, string_of, trim_end_char, trimmed_end_char,
};

use super::{pair_views, QueryEntry, QuerySource};

verus! {

/// How many entries stand for a source without an end.
pub const SAMPLE: usize = 4096;

/// `rand::random` at its type of 128 bits: any value may come back.
#[verifier::external_body]
pub(crate) fn random_u128() -> (r: u128) {
    rand::random()
}

/// A digit in base sixteen, letters in lower case.
pub open spec fn hex_char(d: int) -> char {
    if d < 10 {
        (48 + d) as char
    } else {
        (87 + d) as char
    }
}

/// The last `n` digits of a number in base sixteen.
pub open spec fn hex_digits(x: nat, n: nat) -> Seq<char>
    decreases n,
{
    if n == 0 {
        Seq::empty()
    } else {
        hex_digits(x / 16, (n - 1) as nat).push(hex_char((x % 16) as int))
    }
}

/// The name for an id under a domain: thirty-two digits, a dot, the domain.
pub open spec fn random_name(base: Seq<char>, id: u128) -> Seq<char> {
    hex_digits(id as nat, 32).push('.') + base
}

/// Appends the last `n` digits of a number in base sixteen.
fn push_hex(s: &mut String, x: u128, n: u32)
    ensures
        final(s)@ == old(s)@ + hex_digits(x as nat, n as nat),
    decreases n,
{
    if n > 0 {
        push_hex(s, x / 16, n - 1);
        let d: u8 = (x % 16) as u8;
        let c: char = if d < 10 {
            (48 + d) as char
        } else {
            (87 + d) as char
        };
        s.push(c);
        assert(s@ =~= old(s)@ + hex_digits(x as nat, n as nat));
    } else {
        assert(s@ =~= old(s)@ + hex_digits(x as nat, 0));
    }
}

/// Two numbers with the same digits are the same as far as the digits reach.
proof fn lemma_hex_digits(a: nat, b: nat, n: nat)
    requires
        n > 0,
        hex_digits(a, n) == hex_digits(b, n),
    ensures
        a % 16 == b % 16,
        hex_digits(a / 16, (n - 1) as nat) == hex_digits(b / 16, (n - 1) as nat),
{
    let (x, y) = (hex_digits(a, n), hex_digits(b, n));
    assert(x.last() == hex_char((a % 16) as int));
    assert(y.last() == hex_char((b % 16) as int));
    assert(x.drop_last() =~= hex_digits(a / 16, (n - 1) as nat));
    assert(y.drop_last() =~= hex_digits(b / 16, (n - 1) as nat));
}

proof fn lemma_hex_injective(a: nat, b: nat, n: nat)
    requires
        hex_digits(a, n) == hex_digits(b, n),
        a < vstd::arithmetic::power::pow(16, n),
        b < vstd::arithmetic::power::pow(16, n),
    ensures
        a == b,
    decreases n,
{
    reveal(vstd::arithmetic::power::pow);
    if n > 0 {
        lemma_hex_digits(a, b, n);
        let p = vstd::arithmetic::power::pow(16, (n - 1) as nat);
        assert(vstd::arithmetic::power::pow(16, n) == 16 * p);
        lemma_hex_injective(a / 16, b / 16, (n - 1) as nat);
    }
}

/// Different ids give different names.
pub proof fn random_names_differ(base: Seq<char>, a: u128, b: u128)
    requires
        a != b,
    ensures
        random_name(base, a) != random_name(base, b),
{
    if random_name(base, a) == random_name(base, b) {
        lemma_hex_len(a as nat, 32);
        lemma_hex_len(b as nat, 32);
        assert(random_name(base, a).take(32) =~= hex_digits(a as nat, 32));
        assert(random_name(base, b).take(32) =~= hex_digits(b as nat, 32));
        vstd::arithmetic::power::lemma_pow_adds(16, 16, 16);
        assert(vstd::arithmetic::power::pow(16, 16) == 0x1_0000_0000_0000_0000) by {
            reveal_with_fuel(vstd::arithmetic::power::pow, 17);
        }
        lemma_hex_injective(a as nat, b as nat, 32);
    }
}

proof fn lemma_hex_len(x: nat, n: nat)
    ensures
        hex_digits(x, n).len() == n,
    decreases n,
{
    if n > 0 {
        lemma_hex_len(x / 16, (n - 1) as nat);
    }
}

/// Names that never repeat, under one domain.
pub struct RandomQuerySource {
    pub base_domain: String,
    pub qtype: u16,
}

impl RandomQuerySource {
    /// A source of names under a domain, given with or without its last dot.
    pub fn new(base_domain: &str, qtype: u16) -> (r: Self)
        ensures
            r.base_domain@ == trim_end_char(base_domain@, '.'),
            r.qtype == qtype,
    {
        let chars = chars_of(base_domain);
        let base = trimmed_end_char(chars.as_slice(), '.');
        Self { base_domain: string_of(base.as_slice()), qtype }
    }

    /// What to ask for with a given id.
    pub fn entry_for(&self, id: u128) -> (e: QueryEntry)
        ensures
            e@ == (random_name(self.base_domain@, id), self.qtype),
    {
        let mut name = String::new();
        push_hex(&mut name, id, 32);
        name.push('.');
        name.append(self.base_domain.as_str());
        assert(name@ =~= random_name(self.base_domain@, id));
        QueryEntry { name, qtype: self.qtype }
    }
}

impl QuerySource for RandomQuerySource {
    open spec fn ready(&self) -> bool {
        true
    }

    open spec fn can_yield(&self, e: (Seq<char>, u16)) -> bool {
        exists|id: u128|
            e == (#[trigger] random_name(self.base_domain@, id), self.qtype)
    }

    open spec fn moves_to(&self, after: &Self) -> bool {
        *after == *self
    }

    open spec fn can_list(&self, v: Seq<(Seq<char>, u16)>) -> bool {
        &&& v.len() == SAMPLE
        &&& forall|i: int| 0 <= i < v.len() ==> self.can_yield(#[trigger] v[i])
    }

    fn next(&mut self) -> (e: QueryEntry) {
        let id: u128 = random_u128();
        self.entry_for(id)
    }

    fn all_wire_pairs(&self) -> (v: Vec<(String, u16)>) {
        let mut out: Vec<(String, u16)> = Vec::new();
        let mut i: usize = 0;
        while i < SAMPLE
            invariant
                i <= SAMPLE,
                out@.len() == i,
                forall|j: int| 0 <= j < i ==> self.can_yield(#[trigger] pair_views(out@)[j]),
            decreases SAMPLE - i,
        {
            let ghost before = pair_views(out@);
            let id: u128 = random_u128();
            let e = self.entry_for(id);
            assert(self.can_yield(e@));
            out.push((e.name, e.qtype));
            assert(pair_views(out@) =~= before.push(e@));
            i += 1;
        }
        out
    }
}

proof fn lemma_hex_value(x: nat, n: nat)
    ensures
        all_digits(hex_digits(x, n), 16),
        x < vstd::arithmetic::power::pow(16, n) ==> digits_value(hex_digits(x, n), 16) == x,
    decreases n,
{
    reveal(vstd::arithmetic::power::pow);
    let s = hex_digits(x, n);
    if n > 0 {
        lemma_hex_value(x / 16, (n - 1) as nat);
        assert(vstd::arithmetic::power::pow(16, n) == 16 * vstd::arithmetic::power::pow(
            16,
            (n - 1) as nat,
        ));
        let p = hex_digits(x / 16, (n - 1) as nat);
        assert(s.drop_last() =~= p);
        assert(digit(s.last(), 16) == Some((x % 16) as int));
        assert forall|i: int| 0 <= i < s.len() implies (#[trigger] digit(s[i], 16)) is Some by {
            if i < p.len() {
                assert(digit(p[i], 16) is Some);
            }
        }
    }
}

/// The name for an id: thirty-two digits that write the id in base sixteen, letters in
/// lower case, then a dot and the domain.
pub proof fn random_name_writes_its_id(base: Seq<char>, id: u128)
    ensures
        ({
            let name = random_name(base, id);
            &&& name.len() == 33 + base.len()
            &&& number(name.take(32), 16, u128::MAX as int) == Some(id as int)
            &&& forall|i: int|
                0 <= i < 32 ==> !('A' as int <= #[trigger] name[i] as int <= 'Z' as int)
            &&& name[32] == '.'
            &&& name.skip(33) == base
        }),
{
    let name = random_name(base, id);
    let d = hex_digits(id as nat, 32);
    lemma_hex_len(id as nat, 32);
    lemma_hex_value(id as nat, 32);
    vstd::arithmetic::power::lemma_pow_adds(16, 16, 16);
    assert(vstd::arithmetic::power::pow(16, 16) == 0x1_0000_0000_0000_0000) by {
        reveal_with_fuel(vstd::arithmetic::power::pow, 17);
    }
    assert(name.take(32) =~= d);
    assert(name.skip(33) =~= base);
    lemma_hex_lower(id as nat, 32);
    assert forall|i: int| 0 <= i < 32 implies !('A' as int <= #[trigger] name[i] as int
        <= 'Z' as int) by {
        assert(name[i] == d[i]);
    }
    assert(d[0] != '+') by {
        assert(digit(d[0], 16) is Some);
    }
}

proof fn lemma_hex_lower(x: nat, n: nat)
    ensures
        forall|i: int|
            0 <= i < hex_digits(x, n).len() ==> !('A' as int <= #[trigger] hex_digits(
                x,
                n,
            )[i] as int <= 'Z' as int),
    decreases n,
{
    if n > 0 {
        lemma_hex_lower(x / 16, (n - 1) as nat);
        let p = hex_digits(x / 16, (n - 1) as nat);
        let s = hex_digits(x, n);
        assert forall|i: int| 0 <= i < s.len() implies !('A' as int <= #[trigger] s[i] as int
            <= 'Z' as int) by {
            if i < p.len() {
                assert(s[i] == p[i]);
            }
        }
    }
}

/// What a source of random names can give: a name under its domain of its type, and as
/// a list four thousand and ninety-six of them.
pub proof fn random_names_are_under_the_domain(
    source: RandomQuerySource,
    e: (Seq<char>, u16),
    v: Seq<(Seq<char>, u16)>,
)
    ensures
        source.can_yield(e) ==> {
            &&& e.1 == source.qtype
            &&& e.0.len() == 33 + source.base_domain@.len()
            &&& e.0[32] == '.'
            &&& e.0.skip(33) == source.base_domain@
        },
        source.can_list(v) ==> v.len() == 4096 && forall|i: int|
            0 <= i < v.len() ==> (#[trigger] v[i]).1 == source.qtype && v[i].0.skip(33)
                == source.base_domain@,
{
    if source.can_yield(e) {
        let id = choose|id: u128|
            e == (#[trigger] random_name(source.base_domain@, id), source.qtype);
        random_name_writes_its_id(source.base_domain@, id);
    }
    if source.can_list(v) {
        assert forall|i: int| 0 <= i < v.len() implies (#[trigger] v[i]).1 == source.qtype
            && v[i].0.skip(33) == source.base_domain@ by {
            assert(source.can_yield(v[i]));
            let id = choose|id: u128|
                v[i] == (#[trigger] random_name(source.base_domain@, id), source.qtype);
            random_name_writes_its_id(source.base_domain@, id);
        }
    }
}

/// A sample holds 4096 names.
pub proof fn sample_has_its_size()
    ensures
        SAMPLE == 4096,
{
}

} // verus!
