//! Text as sequences of characters: lines, words, fields and numbers.

use vstd::prelude::*;

verus! {

/// Appends one character to a string (`String::push`).
pub assume_specification[ String::push ](s: &mut String, c: char)
    ensures
        final(s)@ == old(s)@.push(c),
;

/// The characters that Unicode calls white space.
pub open spec fn is_space(c: char) -> bool {
    let u = c as int;
    ||| 9 <= u <= 13
    ||| u == 0x20
    ||| u == 0x85
    ||| u == 0xA0
    ||| u == 0x1680
    ||| 0x2000 <= u <= 0x200A
    ||| u == 0x2028
    ||| u == 0x2029
    ||| u == 0x202F
    ||| u == 0x205F
    ||| u == 0x3000
}

/// Whether `c` is white space.
pub fn char_is_space(c: char) -> (r: bool)
    ensures
        r == is_space(c),
{
    let u: u32 = c as u32;
    (9 <= u && u <= 13) || u == 0x20 || u == 0x85 || u == 0xA0 || u == 0x1680 || (0x2000 <= u && u
        <= 0x200A) || u == 0x2028 || u == 0x2029 || u == 0x202F || u == 0x205F || u == 0x3000
}

/// The characters of a string, one by one.
pub fn chars_of(s: &str) -> (v: Vec<char>)
    ensures
        v@ == s@,
{
    let mut v: Vec<char> = Vec::new();
    for c in it: s.chars()
        invariant
            v@ == it.seq().take(it.index()),
            it.seq() == s@,
    {
        v.push(c);
        assert(it.seq().take(it.index()).push(c) =~= it.seq().take(it.index() + 1));
    }
    assert(v@ =~= s@);
    v
}

/// A string made of the given characters.
pub fn string_of(v: &[char]) -> (s: String)
    ensures
        s@ == v@,
{
    let mut s = String::new();
    let mut i: usize = 0;
    while i < v.len()
        invariant
            i <= v@.len(),
            s@ == v@.take(i as int),
        decreases v@.len() - i,
    {
        s.push(v[i]);
        assert(v@.take(i as int).push(v@[i as int]) =~= v@.take(i + 1));
        i += 1;
    }
    assert(v@.take(i as int) =~= v@);
    s
}

/// The views of a list of character lists.
pub open spec fn views(v: Seq<Vec<char>>) -> Seq<Seq<char>> {
    Seq::new(v.len(), |i: int| v[i]@)
}

/// The views of a list of strings.
pub open spec fn string_views(v: Seq<String>) -> Seq<Seq<char>> {
    Seq::new(v.len(), |i: int| v[i]@)
}

/// The first place at or after `i` that holds `c`, or the length.
pub open spec fn find_from(s: Seq<char>, i: int, c: char) -> int
    decreases s.len() - i,
{
    if i >= s.len() {
        s.len() as int
    } else if s[i] == c {
        i
    } else {
        find_from(s, i + 1, c)
    }
}

/// The first place at or after `i` whose being white space is `space`, or the length.
pub open spec fn space_from(s: Seq<char>, i: int, space: bool) -> int
    decreases s.len() - i,
{
    if i >= s.len() {
        s.len() as int
    } else if is_space(s[i]) == space {
        i
    } else {
        space_from(s, i + 1, space)
    }
}

/// Where the first occurrence of `c` lies, and that nothing before it is `c`.
pub proof fn lemma_find_from(s: Seq<char>, i: int, c: char)
    requires
        0 <= i <= s.len(),
    ensures
        i <= find_from(s, i, c) <= s.len(),
        find_from(s, i, c) < s.len() ==> s[find_from(s, i, c)] == c,
        forall|j: int| i <= j < find_from(s, i, c) ==> s[j] != c,
    decreases s.len() - i,
{
    if i < s.len() && s[i] != c {
        lemma_find_from(s, i + 1, c);
    }
}

/// Where the first (non-)space lies, and what stands before it.
pub proof fn lemma_space_from(s: Seq<char>, i: int, space: bool)
    requires
        0 <= i <= s.len(),
    ensures
        i <= space_from(s, i, space) <= s.len(),
        space_from(s, i, space) < s.len() ==> is_space(s[space_from(s, i, space)]) == space,
        forall|j: int| i <= j < space_from(s, i, space) ==> is_space(s[j]) != space,
    decreases s.len() - i,
{
    if i < s.len() && is_space(s[i]) != space {
        lemma_space_from(s, i + 1, space);
    }
}

/// Finds the first place at or after `from` that holds `c`.
pub fn find_char(s: &[char], from: usize, c: char) -> (r: usize)
    requires
        from <= s@.len(),
    ensures
        r == find_from(s@, from as int, c),
        from <= r <= s@.len(),
{
    proof {
        lemma_find_from(s@, from as int, c);
    }
    let mut i: usize = from;
    while i < s.len() && s[i] != c
        invariant
            from <= i <= s@.len(),
            find_from(s@, i as int, c) == find_from(s@, from as int, c),
        decreases s@.len() - i,
    {
        i += 1;
    }
    i
}

/// Finds the first place at or after `from` whose being white space is `space`.
pub fn find_space(s: &[char], from: usize, space: bool) -> (r: usize)
    requires
        from <= s@.len(),
    ensures
        r == space_from(s@, from as int, space),
        from <= r <= s@.len(),
{
    proof {
        lemma_space_from(s@, from as int, space);
    }
    let mut i: usize = from;
    while i < s.len() && char_is_space(s[i]) != space
        invariant
            from <= i <= s@.len(),
            space_from(s@, i as int, space) == space_from(s@, from as int, space),
        decreases s@.len() - i,
    {
        i += 1;
    }
    i
}

/// The lines of `s` from place `i` on: each ends at a line feed, which is not
/// part of it, nor is a carriage return before that line feed.
pub open spec fn lines_from(s: Seq<char>, i: int) -> Seq<Seq<char>>
    decreases s.len() - i,
{
    if i < 0 || i >= s.len() {
        Seq::empty()
    } else {
        let e = find_from(s, i, '\n');
        proof {
            lemma_find_from(s, i, '\n');
        }
        if e >= s.len() {
            seq![s.subrange(i, s.len() as int)]
        } else {
            seq![without_cr(s.subrange(i, e))] + lines_from(s, e + 1)
        }
    }
}

/// `s` without one carriage return at its end.
pub open spec fn without_cr(s: Seq<char>) -> Seq<char> {
    if s.len() > 0 && s.last() == '\r' {
        s.drop_last()
    } else {
        s
    }
}

/// The lines of a text.
pub open spec fn lines(s: Seq<char>) -> Seq<Seq<char>> {
    lines_from(s, 0)
}

/// Splits a text into lines.
pub fn split_lines(s: &[char]) -> (r: Vec<Vec<char>>)
    ensures
        views(r@) == lines(s@),
{
    let mut out: Vec<Vec<char>> = Vec::new();
    let mut i: usize = 0;
    while i < s.len()
        invariant
            i <= s@.len(),
            views(out@) + lines_from(s@, i as int) == lines(s@),
        decreases s@.len() - i,
    {
        let e: usize = find_char(s, i, '\n');
        let ghost before = out@;
        let ghost rest = lines_from(s@, i as int);
        if e >= s.len() {
            let line = vstd::slice::slice_to_vec(vstd::slice::slice_subrange(s, i, e));
            out.push(line);
            i = e;
            proof {
                assert(rest == seq![line@]);
                assert(views(out@) =~= views(before) + seq![line@]);
                assert(lines_from(s@, i as int) =~= Seq::empty());
            }
        } else {
            let end: usize = if e > i && s[e - 1] == '\r' {
                e - 1
            } else {
                e
            };
            let line = vstd::slice::slice_to_vec(vstd::slice::slice_subrange(s, i, end));
            out.push(line);
            proof {
                assert(line@ =~= without_cr(s@.subrange(i as int, e as int)));
                assert(rest == seq![line@] + lines_from(s@, e + 1));
                assert(views(out@) =~= views(before) + seq![line@]);
            }
            i = e + 1;
        }
        assert(views(out@) + lines_from(s@, i as int) =~= views(before) + rest);
    }
    assert(views(out@) + lines_from(s@, i as int) =~= views(out@));
    out
}

/// The words of `s` from place `i` on: the longest runs without white space.
pub open spec fn words_from(s: Seq<char>, i: int) -> Seq<Seq<char>>
    decreases s.len() - i,
{
    if i < 0 || i >= s.len() {
        Seq::empty()
    } else {
        let a = space_from(s, i, false);
        let b = space_from(s, a, true);
        proof {
            lemma_space_from(s, i, false);
            lemma_space_from(s, a, true);
        }
        if a >= s.len() {
            Seq::empty()
        } else {
            seq![s.subrange(a, b)] + words_from(s, b)
        }
    }
}

/// The words of a text.
pub open spec fn words(s: Seq<char>) -> Seq<Seq<char>> {
    words_from(s, 0)
}

/// Splits a text at its white space.
pub fn split_words(s: &[char]) -> (r: Vec<Vec<char>>)
    ensures
        views(r@) == words(s@),
{
    let mut out: Vec<Vec<char>> = Vec::new();
    let mut i: usize = 0;
    while i < s.len()
        invariant
            i <= s@.len(),
            views(out@) + words_from(s@, i as int) == words(s@),
        decreases s@.len() - i,
    {
        let a: usize = find_space(s, i, false);
        let ghost before = out@;
        let ghost rest = words_from(s@, i as int);
        proof {
            lemma_space_from(s@, i as int, false);
        }
        if a >= s.len() {
            i = s.len();
            assert(rest =~= Seq::empty());
            assert(words_from(s@, i as int) =~= Seq::empty());
        } else {
            let b: usize = find_space(s, a, true);
            proof {
                lemma_space_from(s@, a as int, true);
            }
            let word = vstd::slice::slice_to_vec(vstd::slice::slice_subrange(s, a, b));
            out.push(word);
            i = b;
            proof {
                assert(rest == seq![word@] + words_from(s@, b as int));
                assert(views(out@) =~= views(before) + seq![word@]);
            }
        }
        assert(views(out@) + words_from(s@, i as int) =~= views(before) + rest);
    }
    assert(views(out@) + words_from(s@, i as int) =~= views(out@));
    out
}

/// The fields of `s` from place `i` on that `sep` separates; empty ones count.
pub open spec fn fields_from(s: Seq<char>, i: int, sep: char) -> Seq<Seq<char>>
    decreases s.len() - i,
{
    if i < 0 || i > s.len() {
        Seq::empty()
    } else {
        let e = find_from(s, i, sep);
        proof {
            lemma_find_from(s, i, sep);
        }
        if e >= s.len() {
            seq![s.subrange(i, s.len() as int)]
        } else {
            seq![s.subrange(i, e)] + fields_from(s, e + 1, sep)
        }
    }
}

/// The fields of a text that `sep` separates.
pub open spec fn fields(s: Seq<char>, sep: char) -> Seq<Seq<char>> {
    fields_from(s, 0, sep)
}

/// Splits a text at every `sep`.
pub fn split_fields(s: &[char], sep: char) -> (r: Vec<Vec<char>>)
    ensures
        views(r@) == fields(s@, sep),
        r@.len() > 0,
{
    let mut out: Vec<Vec<char>> = Vec::new();
    let mut i: usize = 0;
    let mut e: usize = find_char(s, 0, sep);
    while e < s.len()
        invariant
            i <= e <= s@.len(),
            e == find_from(s@, i as int, sep),
            views(out@) + fields_from(s@, i as int, sep) == fields(s@, sep),
        decreases s@.len() - i,
    {
        let ghost before = out@;
        let ghost rest = fields_from(s@, i as int, sep);
        let field = vstd::slice::slice_to_vec(vstd::slice::slice_subrange(s, i, e));
        out.push(field);
        i = e + 1;
        e = find_char(s, i, sep);
        proof {
            assert(rest == seq![field@] + fields_from(s@, i as int, sep));
            assert(views(out@) =~= views(before) + seq![field@]);
            assert(views(out@) + fields_from(s@, i as int, sep) =~= views(before) + rest);
        }
    }
    let ghost before = out@;
    let field = vstd::slice::slice_to_vec(vstd::slice::slice_subrange(s, i, e));
    out.push(field);
    assert(views(out@) =~= views(before) + seq![field@]);
    out
}

/// `s` without the white space at its end.
pub open spec fn trim_end(s: Seq<char>) -> Seq<char>
    decreases s.len(),
{
    if s.len() > 0 && is_space(s.last()) {
        trim_end(s.drop_last())
    } else {
        s
    }
}

/// `s` without the white space at its start.
pub open spec fn trim_start(s: Seq<char>) -> Seq<char> {
    s.skip(space_from(s, 0, false))
}

/// `s` without the white space at either end.
pub open spec fn trim(s: Seq<char>) -> Seq<char> {
    trim_end(trim_start(s))
}

proof fn lemma_trim_end(s: Seq<char>)
    ensures
        trim_end(s).len() <= s.len(),
        forall|i: int| 0 <= i < trim_end(s).len() ==> trim_end(s)[i] == s[i],
        trim_end(s).len() > 0 ==> !is_space(trim_end(s).last()),
    decreases s.len(),
{
    if s.len() > 0 && is_space(s.last()) {
        let d = s.drop_last();
        lemma_trim_end(d);
        assert forall|i: int| 0 <= i < trim_end(s).len() implies trim_end(s)[i] == s[i] by {
            assert(trim_end(d)[i] == d[i]);
        }
    }
}

/// A text without white space at either end stays as it is when it is trimmed.
pub proof fn lemma_trim_keeps(s: Seq<char>)
    requires
        s.len() > 0 ==> !is_space(s[0]) && !is_space(s.last()),
    ensures
        trim(s) == s,
{
    assert(trim_start(s) =~= s);
}

/// Trimming a text twice is trimming it once.
pub proof fn lemma_trim_twice(s: Seq<char>)
    ensures
        trim(trim(s)) == trim(s),
{
    lemma_space_from(s, 0, false);
    let t = trim_start(s);
    lemma_trim_end(t);
    if trim(s).len() > 0 {
        assert(trim(s)[0] == t[0]);
        assert(t[0] == s[space_from(s, 0, false)]);
    }
    lemma_trim_keeps(trim(s));
}

/// Takes the white space off both ends.
pub fn trimmed(s: &[char]) -> (r: Vec<char>)
    ensures
        r@ == trim(s@),
{
    let a: usize = find_space(s, 0, false);
    proof {
        lemma_space_from(s@, 0, false);
    }
    let mut b: usize = s.len();
    assert(s@.subrange(a as int, b as int) =~= trim_start(s@));
    while b > a && char_is_space(s[b - 1])
        invariant
            a <= b <= s@.len(),
            trim_end(s@.subrange(a as int, b as int)) == trim(s@),
        decreases b,
    {
        assert(s@.subrange(a as int, b as int).drop_last() =~= s@.subrange(
            a as int,
            b - 1,
        ));
        b -= 1;
    }
    let r = vstd::slice::slice_to_vec(vstd::slice::slice_subrange(s, a, b));
    r
}

/// `s` without any `c` at its end.
pub open spec fn trim_end_char(s: Seq<char>, c: char) -> Seq<char>
    decreases s.len(),
{
    if s.len() > 0 && s.last() == c {
        trim_end_char(s.drop_last(), c)
    } else {
        s
    }
}

/// Takes every `c` off the end.
pub fn trimmed_end_char(s: &[char], c: char) -> (r: Vec<char>)
    ensures
        r@ == trim_end_char(s@, c),
{
    let mut b: usize = s.len();
    assert(s@.subrange(0, b as int) =~= s@);
    while b > 0 && s[b - 1] == c
        invariant
            b <= s@.len(),
            trim_end_char(s@.subrange(0, b as int), c) == trim_end_char(s@, c),
        decreases b,
    {
        assert(s@.subrange(0, b as int).drop_last() =~= s@.subrange(0, b - 1));
        b -= 1;
    }
    vstd::slice::slice_to_vec(vstd::slice::slice_subrange(s, 0, b))
}

/// Whether `s` starts with `prefix`.
pub open spec fn starts_with(s: Seq<char>, prefix: Seq<char>) -> bool {
    prefix.len() <= s.len() && s.take(prefix.len() as int) == prefix
}

/// What follows `prefix` in `s`, if `s` starts with it.
pub open spec fn after_prefix(s: Seq<char>, prefix: Seq<char>) -> Option<Seq<char>> {
    if starts_with(s, prefix) {
        Some(s.skip(prefix.len() as int))
    } else {
        None
    }
}

/// Whether two character lists are the same.
pub fn same_chars(a: &[char], b: &[char]) -> (r: bool)
    ensures
        r == (a@ == b@),
{
    if a.len() != b.len() {
        return false;
    }
    let mut i: usize = 0;
    while i < a.len()
        invariant
            a@.len() == b@.len(),
            i <= a@.len(),
            forall|j: int| 0 <= j < i ==> a@[j] == b@[j],
        decreases a@.len() - i,
    {
        if a[i] != b[i] {
            return false;
        }
        i += 1;
    }
    assert(a@ =~= b@);
    true
}

/// Whether a character list reads as the given string.
pub fn chars_are(a: &[char], b: &str) -> (r: bool)
    ensures
        r == (a@ == b@),
{
    let v = chars_of(b);
    same_chars(a, v.as_slice())
}

/// Strips a prefix, if it is there.
pub fn strip_prefix(s: &[char], prefix: &str) -> (r: Option<Vec<char>>)
    ensures
        match r {
            Some(v) => after_prefix(s@, prefix@) == Some(v@),
            None => after_prefix(s@, prefix@) is None,
        },
{
    let p = chars_of(prefix);
    if p.len() > s.len() {
        return None;
    }
    let head = vstd::slice::slice_subrange(s, 0, p.len());
    assert(head@ =~= s@.take(prefix@.len() as int));
    if same_chars(head, p.as_slice()) {
        let tail = vstd::slice::slice_to_vec(vstd::slice::slice_subrange(s, p.len(), s.len()));
        assert(tail@ =~= s@.skip(prefix@.len() as int));
        Some(tail)
    } else {
        None
    }
}

/// The digit that `c` stands for in base `radix`, letters of either case above nine.
pub open spec fn digit(c: char, radix: int) -> Option<int> {
    let u = c as int;
    let d = if 48 <= u <= 57 {
        u - 48
    } else if 97 <= u <= 122 {
        u - 87
    } else if 65 <= u <= 90 {
        u - 55
    } else {
        99
    };
    if d < radix {
        Some(d)
    } else {
        None
    }
}

/// Whether every character is a digit.
pub open spec fn all_digits(s: Seq<char>, radix: int) -> bool {
    forall|i: int| 0 <= i < s.len() ==> (#[trigger] digit(s[i], radix)) is Some
}

/// The number that a run of digits writes.
pub open spec fn digits_value(s: Seq<char>, radix: int) -> int
    decreases s.len(),
{
    if s.len() == 0 {
        0
    } else {
        digits_value(s.drop_last(), radix) * radix + digit(s.last(), radix).unwrap_or(0)
    }
}

/// The digits of a number's text: all of it but one plus sign at its start.
pub open spec fn digits_of(s: Seq<char>) -> Seq<char> {
    if s.len() > 0 && s[0] == '+' {
        s.skip(1)
    } else {
        s
    }
}

/// The number that `s` writes in base `radix`, if it writes one no larger than `max`.
pub open spec fn number(s: Seq<char>, radix: int, max: int) -> Option<int> {
    let d = digits_of(s);
    if d.len() > 0 && all_digits(d, radix) && digits_value(d, radix) <= max {
        Some(digits_value(d, radix))
    } else {
        None
    }
}

proof fn lemma_digits_value_grows(s: Seq<char>, i: int, radix: int)
    requires
        0 <= i <= s.len(),
        radix >= 2,
    ensures
        0 <= digits_value(s.take(i), radix) <= digits_value(s, radix),
    decreases s.len(),
{
    if s.len() == 0 {
        assert(s.take(i) =~= s);
    } else if i == s.len() {
        lemma_digits_value_grows(s.drop_last(), i - 1, radix);
        assert(s.take(i) =~= s);
        let v = digits_value(s.drop_last(), radix);
        assert(v * radix >= 0) by (nonlinear_arith)
            requires
                v >= 0,
                radix >= 2,
        ;
    } else {
        lemma_digits_value_grows(s.drop_last(), i, radix);
        assert(s.drop_last().take(i) =~= s.take(i));
        let v = digits_value(s.drop_last(), radix);
        assert(v * radix >= v) by (nonlinear_arith)
            requires
                v >= 0,
                radix >= 2,
        ;
    }
}

/// The digit that a character stands for.
pub fn char_digit(c: char, radix: u64) -> (r: Option<u64>)
    requires
        2 <= radix <= 36,
    ensures
        match r {
            Some(d) => digit(c, radix as int) == Some(d as int),
            None => digit(c, radix as int) is None,
        },
{
    let u: u32 = c as u32;
    let d: u32 = if 48 <= u && u <= 57 {
        u - 48
    } else if 97 <= u && u <= 122 {
        u - 87
    } else if 65 <= u && u <= 90 {
        u - 55
    } else {
        99
    };
    if (d as u64) < radix {
        Some(d as u64)
    } else {
        None
    }
}

/// Reads a whole text as one number in base `radix` that is at most `max`.
pub fn parse_number(s: &[char], radix: u64, max: u64) -> (r: Option<u64>)
    requires
        2 <= radix <= 36,
    ensures
        match r {
            Some(v) => number(s@, radix as int, max as int) == Some(v as int),
            None => number(s@, radix as int, max as int) is None,
        },
{
    let start: usize = if s.len() > 0 && s[0] == '+' {
        1
    } else {
        0
    };
    let ghost d = digits_of(s@);
    assert(d =~= s@.skip(start as int));
    if start >= s.len() {
        return None;
    }
    let mut acc: u64 = 0;
    let mut i: usize = start;
    assert(d.take(0) =~= Seq::empty());
    while i < s.len()
        invariant
            start <= i <= s@.len(),
            start <= 1,
            2 <= radix <= 36,
            d == digits_of(s@),
            d == s@.skip(start as int),
            acc == digits_value(d.take(i - start), radix as int),
            acc <= max,
            forall|j: int| 0 <= j < i - start ==> (#[trigger] digit(d[j], radix as int)) is Some,
        decreases s@.len() - i,
    {
        let ghost k = i - start;
        assert(d[k] == s@[i as int]);
        match char_digit(s[i], radix) {
            None => {
                assert(!all_digits(d, radix as int));
                return None;
            },
            Some(v) => {
                assert((acc as int) * (radix as int) <= u64::MAX * 36) by (nonlinear_arith)
                    requires
                        0 <= acc <= u64::MAX,
                        2 <= radix <= 36,
                ;
                let wide: u128 = (acc as u128) * (radix as u128) + (v as u128);
                assert(d.take(k + 1).drop_last() =~= d.take(k));
                assert(d.take(k + 1).last() == d[k]);
                assert(wide == digits_value(d.take(k + 1), radix as int));
                if wide > max as u128 {
                    proof {
                        lemma_digits_value_grows(d, k + 1, radix as int);
                    }
                    return None;
                }
                acc = wide as u64;
            },
        }
        i += 1;
    }
    assert(d.take(i - start) =~= d);
    Some(acc)
}

/// Whether a text occurs in another at place `i`.
pub open spec fn occurs_at(s: Seq<char>, part: Seq<char>, i: int) -> bool {
    0 <= i <= s.len() - part.len() && s.subrange(i, i + part.len()) == part
}

/// Whether a text occurs in another.
pub open spec fn occurs(s: Seq<char>, part: Seq<char>) -> bool {
    exists|i: int| occurs_at(s, part, i)
}

/// Whether a text occurs in another.
pub fn has_text(s: &[char], part: &str) -> (r: bool)
    ensures
        r == occurs(s@, part@),
{
    let p = chars_of(part);
    let n: usize = p.len();
    let total: usize = s.len();
    if total < n {
        return false;
    }
    let last: usize = total - n;
    let mut i: usize = 0;
    loop
        invariant
            p@ == part@,
            n == p@.len(),
            total == s@.len(),
            last == total - n,
            n <= total,
            i <= last,
            forall|j: int| 0 <= j < i ==> !occurs_at(s@, part@, j),
        decreases last - i,
    {
        if same_chars(vstd::slice::slice_subrange(s, i, i + n), p.as_slice()) {
            assert(occurs_at(s@, part@, i as int));
            return true;
        }
        assert(!occurs_at(s@, part@, i as int));
        if i == last {
            return false;
        }
        i += 1;
    }
}

proof fn lemma_find_at(s: Seq<char>, i: int, e: int, c: char)
    requires
        0 <= i <= e <= s.len(),
        forall|j: int| i <= j < e ==> #[trigger] s[j] != c,
        e < s.len() ==> s[e] == c,
    ensures
        find_from(s, i, c) == e,
    decreases e - i,
{
    if i < e {
        assert(s[i] != c);
        lemma_find_at(s, i + 1, e, c);
    }
}

proof fn lemma_find_shift(a: Seq<char>, b: Seq<char>, i: int, c: char)
    requires
        0 <= i <= b.len(),
    ensures
        find_from(a + b, a.len() + i, c) == a.len() + find_from(b, i, c),
    decreases b.len() - i,
{
    if i < b.len() {
        assert((a + b)[a.len() + i] == b[i]);
        lemma_find_shift(a, b, i + 1, c);
    }
}

proof fn lemma_space_at(s: Seq<char>, i: int, e: int, space: bool)
    requires
        0 <= i <= e <= s.len(),
        forall|j: int| i <= j < e ==> is_space(#[trigger] s[j]) != space,
        e < s.len() ==> is_space(s[e]) == space,
    ensures
        space_from(s, i, space) == e,
    decreases e - i,
{
    if i < e {
        assert(is_space(s[i]) != space);
        lemma_space_at(s, i + 1, e, space);
    }
}

proof fn lemma_space_shift(a: Seq<char>, b: Seq<char>, i: int, space: bool)
    requires
        0 <= i <= b.len(),
    ensures
        space_from(a + b, a.len() + i, space) == a.len() + space_from(b, i, space),
    decreases b.len() - i,
{
    if i < b.len() {
        assert((a + b)[a.len() + i] == b[i]);
        lemma_space_shift(a, b, i + 1, space);
    }
}

proof fn lemma_lines_shift(a: Seq<char>, b: Seq<char>, i: int)
    requires
        0 <= i <= b.len(),
    ensures
        lines_from(a + b, a.len() + i) == lines_from(b, i),
    decreases b.len() - i,
{
    let ab = a + b;
    let n = a.len() as int;
    if i < b.len() {
        lemma_find_shift(a, b, i, '\n');
        lemma_find_from(b, i, '\n');
        let e = find_from(b, i, '\n');
        if e >= b.len() {
            assert(ab.subrange(n + i, ab.len() as int) =~= b.subrange(i, b.len() as int));
        } else {
            assert(ab.subrange(n + i, n + e) =~= b.subrange(i, e));
            lemma_lines_shift(a, b, e + 1);
        }
    }
}

proof fn lemma_words_shift(a: Seq<char>, b: Seq<char>, i: int)
    requires
        0 <= i <= b.len(),
    ensures
        words_from(a + b, a.len() + i) == words_from(b, i),
    decreases b.len() - i,
{
    let ab = a + b;
    let n = a.len() as int;
    if i < b.len() {
        lemma_space_from(b, i, false);
        lemma_space_shift(a, b, i, false);
        let p = space_from(b, i, false);
        lemma_space_from(b, p, true);
        lemma_space_shift(a, b, p, true);
        let q = space_from(b, p, true);
        if p < b.len() {
            assert(ab.subrange(n + p, n + q) =~= b.subrange(p, q));
            lemma_words_shift(a, b, q);
        }
    }
}

proof fn lemma_fields_shift(a: Seq<char>, b: Seq<char>, i: int, sep: char)
    requires
        0 <= i <= b.len(),
    ensures
        fields_from(a + b, a.len() + i, sep) == fields_from(b, i, sep),
    decreases b.len() - i,
{
    let ab = a + b;
    let n = a.len() as int;
    lemma_find_shift(a, b, i, sep);
    lemma_find_from(b, i, sep);
    let e = find_from(b, i, sep);
    if e >= b.len() {
        assert(ab.subrange(n + i, ab.len() as int) =~= b.subrange(i, b.len() as int));
    } else {
        assert(ab.subrange(n + i, n + e) =~= b.subrange(i, e));
        lemma_fields_shift(a, b, e + 1, sep);
    }
}

/// Whether a character does not occur in a text.
pub open spec fn lacks(s: Seq<char>, c: char) -> bool {
    forall|i: int| 0 <= i < s.len() ==> #[trigger] s[i] != c
}

/// Whether a text is all white space.
pub open spec fn blank(s: Seq<char>) -> bool {
    forall|i: int| 0 <= i < s.len() ==> is_space(#[trigger] s[i])
}

/// Whether a text is a word: not empty and without white space.
pub open spec fn is_word(s: Seq<char>) -> bool {
    s.len() > 0 && forall|i: int| 0 <= i < s.len() ==> !is_space(#[trigger] s[i])
}

/// What lines are: a line feed ends one and is not part of it, nor is a carriage return
/// before it; what follows makes lines of its own, and the last one needs no end.
pub proof fn line_feeds_end_lines(line: Seq<char>, rest: Seq<char>)
    requires
        lacks(line, '\n'),
    ensures
        lines(Seq::<char>::empty()) == Seq::<Seq<char>>::empty(),
        line.len() > 0 ==> lines(line) == seq![line],
        lines(line + seq!['\r', '\n'] + rest) == seq![line] + lines(rest),
        line.len() == 0 || line.last() != '\r' ==> lines(line + seq!['\n'] + rest) == seq![line]
            + lines(rest),
{
    assert(lines(Seq::<char>::empty()) =~= Seq::empty());
    lemma_find_at(line, 0, line.len() as int, '\n');
    assert(line.subrange(0, line.len() as int) =~= line);
    let n = line.len() as int;
    let long = line + seq!['\r', '\n'] + rest;
    assert forall|j: int| 0 <= j < n + 1 implies #[trigger] long[j] != '\n' by {
        if j < n {
            assert(long[j] == line[j]);
        }
    }
    lemma_find_at(long, 0, n + 1, '\n');
    assert(long.subrange(0, n + 1) =~= line.push('\r'));
    assert(line.push('\r').drop_last() =~= line);
    lemma_lines_shift(line + seq!['\r', '\n'], rest, 0);
    let short = line + seq!['\n'] + rest;
    assert forall|j: int| 0 <= j < n implies #[trigger] short[j] != '\n' by {
        assert(short[j] == line[j]);
    }
    lemma_find_at(short, 0, n, '\n');
    assert(short.subrange(0, n) =~= line);
    lemma_lines_shift(line + seq!['\n'], rest, 0);
}

/// What words are: white space at the start does not count, white space ends a word,
/// and what follows makes words of its own.
pub proof fn white_space_ends_words(gap: Seq<char>, word: Seq<char>, c: char, rest: Seq<char>)
    requires
        blank(gap),
        is_word(word),
        is_space(c),
    ensures
        words(gap) == Seq::<Seq<char>>::empty(),
        words(gap + rest) == words(rest),
        words(word) == seq![word],
        words(word + seq![c] + rest) == seq![word] + words(rest),
{
    let none = Seq::<Seq<char>>::empty();
    lemma_space_at(gap, 0, gap.len() as int, false);
    assert(words(gap) =~= none);
    lemma_gap(gap, rest);
    let n = word.len() as int;
    assert(!is_space(word[0]));
    lemma_space_at(word, 0, 0, false);
    lemma_space_at(word, 0, n, true);
    assert(word.subrange(0, n) =~= word);
    assert(words_from(word, n) =~= none);
    assert(words(word) =~= seq![word]);
    let s = word + seq![c] + rest;
    assert forall|j: int| 0 <= j < n implies !is_space(#[trigger] s[j]) by {
        assert(s[j] == word[j]);
    }
    lemma_space_at(s, 0, 0, false);
    lemma_space_at(s, 0, n, true);
    assert(s.subrange(0, n) =~= word);
    let tail = seq![c] + rest;
    assert(s =~= word + tail);
    lemma_words_shift(word, tail, 0);
    assert(blank(seq![c]));
    lemma_gap(seq![c], rest);
}

proof fn lemma_gap(gap: Seq<char>, rest: Seq<char>)
    requires
        blank(gap),
    ensures
        words(gap + rest) == words(rest),
{
    let s = gap + rest;
    let n = gap.len() as int;
    lemma_space_from(rest, 0, false);
    let a = space_from(rest, 0, false);
    assert forall|j: int| 0 <= j < n + a implies is_space(#[trigger] s[j]) by {
        if j < n {
            assert(s[j] == gap[j]);
        } else {
            assert(s[j] == rest[j - n]);
        }
    }
    if n + a < s.len() {
        assert(s[n + a] == rest[a]);
    }
    lemma_space_at(s, 0, n + a, false);
    if a < rest.len() {
        lemma_space_from(rest, a, true);
        let b = space_from(rest, a, true);
        lemma_space_shift(gap, rest, a, true);
        lemma_words_shift(gap, rest, b);
        assert(s.subrange(n + a, n + b) =~= rest.subrange(a, b));
    } else {
        assert(words(s) =~= Seq::<Seq<char>>::empty());
        assert(words(rest) =~= Seq::<Seq<char>>::empty());
    }
}

/// Which characters of ASCII are white space: tab to carriage return and the blank, and
/// none that can be seen.
pub proof fn seen_characters_are_no_space(c: char)
    ensures
        c == ' ' || c == '\t' || c == '\n' || c == '\r' ==> is_space(c),
        33 <= c as int <= 126 ==> !is_space(c),
{
}

/// What fields are: a separator ends one, empty or not, and what follows makes fields of
/// its own.
pub proof fn separators_end_fields(field: Seq<char>, rest: Seq<char>, sep: char)
    requires
        lacks(field, sep),
    ensures
        fields(field, sep) == seq![field],
        fields(field + seq![sep] + rest, sep) == seq![field] + fields(rest, sep),
{
    let n = field.len() as int;
    lemma_find_at(field, 0, n, sep);
    assert(field.subrange(0, n) =~= field);
    let s = field + seq![sep] + rest;
    assert forall|j: int| 0 <= j < n implies #[trigger] s[j] != sep by {
        assert(s[j] == field[j]);
    }
    lemma_find_at(s, 0, n, sep);
    assert(s.subrange(0, n) =~= field);
    lemma_fields_shift(field + seq![sep], rest, 0, sep);
}

proof fn lemma_trim_end_blank(s: Seq<char>, b: Seq<char>)
    requires
        blank(b),
    ensures
        trim_end(s + b) == trim_end(s),
    decreases b.len(),
{
    if b.len() == 0 {
        assert(s + b =~= s);
    } else {
        assert(is_space(b.last()));
        assert((s + b).last() == b.last());
        assert((s + b).drop_last() =~= s + b.drop_last());
        lemma_trim_end_blank(s, b.drop_last());
    }
}

/// Trimming takes the white space off both ends and nothing else.
pub proof fn trimming_leaves_the_middle(a: Seq<char>, s: Seq<char>, b: Seq<char>)
    requires
        blank(a),
        blank(b),
        s.len() > 0 ==> !is_space(s[0]) && !is_space(s.last()),
    ensures
        trim(a + s + b) == s,
{
    let t = a + s + b;
    if s.len() > 0 {
        assert forall|j: int| 0 <= j < a.len() implies is_space(#[trigger] t[j]) by {
            assert(t[j] == a[j]);
        }
        assert(t[a.len() as int] == s[0]);
        lemma_space_at(t, 0, a.len() as int, false);
        assert(trim_start(t) =~= s + b);
        lemma_trim_end_blank(s, b);
    } else {
        assert forall|j: int| 0 <= j < t.len() implies is_space(#[trigger] t[j]) by {
            if j < a.len() {
                assert(t[j] == a[j]);
            } else {
                assert(t[j] == b[j - a.len()]);
            }
        }
        lemma_space_at(t, 0, t.len() as int, false);
        assert(trim_start(t) =~= s);
    }
}

/// Taking a character off the end takes all of it and stops at any other.
pub proof fn end_is_stripped(s: Seq<char>, c: char)
    ensures
        trim_end_char(s.push(c), c) == trim_end_char(s, c),
        s.len() == 0 || s.last() != c ==> trim_end_char(s, c) == s,
{
    assert(s.push(c).drop_last() =~= s);
}

/// What follows a prefix is what it was put before, and there is none without it.
pub proof fn prefix_is_stripped(s: Seq<char>, prefix: Seq<char>, rest: Seq<char>)
    ensures
        after_prefix(prefix + rest, prefix) == Some(rest),
        after_prefix(s, prefix) matches Some(r) ==> s == prefix + r,
{
    let p = prefix + rest;
    assert(p.take(prefix.len() as int) =~= prefix);
    assert(p.skip(prefix.len() as int) =~= rest);
    if starts_with(s, prefix) {
        assert(s =~= s.take(prefix.len() as int) + s.skip(prefix.len() as int));
    }
}

/// The text of a number in base ten.
pub open spec fn decimal(n: nat) -> Seq<char>
    decreases n,
{
    if n < 10 {
        seq![(48 + n) as char]
    } else {
        decimal(n / 10).push((48 + n % 10) as char)
    }
}

proof fn lemma_decimal(n: nat)
    ensures
        decimal(n).len() > 0,
        48 <= decimal(n)[0] as int <= 57,
        all_digits(decimal(n), 10),
        digits_value(decimal(n), 10) == n,
    decreases n,
{
    let s = decimal(n);
    if n < 10 {
        assert(s.drop_last() =~= Seq::<char>::empty());
        assert(digits_value(Seq::<char>::empty(), 10) == 0);
        assert(digit(s[0], 10) == Some(n as int));
    } else {
        lemma_decimal(n / 10);
        let c = (48 + n % 10) as char;
        assert(s.drop_last() =~= decimal(n / 10));
        assert(digit(c, 10) == Some((n % 10) as int));
        assert forall|i: int| 0 <= i < s.len() implies (#[trigger] digit(s[i], 10)) is Some by {
            if i < s.len() - 1 {
                assert(digit(decimal(n / 10)[i], 10) is Some);
            }
        }
    }
}

/// Reading a number gives back the number that was written, with a plus sign or
/// without, where it is no larger than it may be.
pub proof fn numbers_are_read_back(n: nat, max: int)
    ensures
        number(decimal(n), 10, max) == if n <= max {
            Some(n as int)
        } else {
            None
        },
        number(seq!['+'] + decimal(n), 10, max) == number(decimal(n), 10, max),
{
    lemma_decimal(n);
    assert((seq!['+'] + decimal(n)).skip(1) =~= decimal(n));
}

/// A text with anything but digits is no number, nor is an empty one.
pub proof fn other_text_is_no_number(s: Seq<char>, i: int, max: int)
    requires
        0 <= i < s.len() ==> !(48 <= s[i] as int <= 57) && (i > 0 || s[i] != '+'),
    ensures
        s.len() == 0 ==> number(s, 10, max) is None,
        0 <= i < s.len() ==> number(s, 10, max) is None,
        number(seq!['+'], 10, max) is None,
{
    assert(seq!['+'].skip(1) =~= Seq::<char>::empty());
    if 0 <= i < s.len() {
        let d = digits_of(s);
        let k = if s[0] == '+' {
            i - 1
        } else {
            i
        };
        assert(d[k] == s[i]);
        assert(digit(d[k], 10) is None);
    }
}

/// The digits of base sixteen: those of base ten, then the first six letters in either
/// case; each further one adds to sixteen times what stands before it.
pub proof fn hex_digits_have_values(s: Seq<char>, c: char, d: int, max: int)
    requires
        0 <= d < 16,
        d < 10 ==> c as int == '0' as int + d,
        d >= 10 ==> c as int == 'a' as int + d - 10 || c as int == 'A' as int + d - 10,
        s.len() > 0 ==> s[0] != '+',
    ensures
        number(seq![c], 16, 15) == Some(d),
        number(s, 16, max) matches Some(n) ==> (16 * n + d <= max ==> number(s.push(c), 16, max)
            == Some(16 * n + d)),
{
    let one = seq![c];
    assert(one.drop_last() =~= Seq::<char>::empty());
    assert(digits_value(Seq::<char>::empty(), 16) == 0);
    assert(one.last() == c);
    assert(digit(c, 16) == Some(d));
    let t = s.push(c);
    assert(t.drop_last() =~= s);
    if number(s, 16, max) is Some {
        assert(t[0] == s[0]);
        assert forall|i: int| 0 <= i < t.len() implies (#[trigger] digit(t[i], 16)) is Some by {
            if i < s.len() {
                assert(digit(s[i], 16) is Some);
            }
        }
    }
}

/// A text occurs in whatever it is a part of, and in nothing that is shorter.
pub proof fn parts_occur(a: Seq<char>, part: Seq<char>, b: Seq<char>)
    ensures
        occurs(a + part + b, part),
        forall|s: Seq<char>| s.len() < part.len() ==> !#[trigger] occurs(s, part),
{
    assert((a + part + b).subrange(a.len() as int, (a.len() + part.len()) as int) =~= part);
    assert(occurs_at(a + part + b, part, a.len() as int));
}

} // verus!
