//! Character classes, white-space separated words and unsigned decimals.
use vstd::prelude::*;

verus! {

/// White space in Unicode's sense, the set that `char::is_whitespace` tests.
pub open spec fn is_space(c: char) -> bool {
    let u = c as u32;
    u == 0x20 || (0x09 <= u && u <= 0x0d) || u == 0x85 || u == 0xa0 || u == 0x1680 || (0x2000
        <= u && u <= 0x200a) || u == 0x2028 || u == 0x2029 || u == 0x202f || u == 0x205f || u
        == 0x3000
}

pub open spec fn is_digit(c: char) -> bool {
    0x30 <= (c as u32) && (c as u32) <= 0x39
}

pub open spec fn digit_value(c: char) -> nat {
    ((c as u32) - 0x30) as nat
}

pub open spec fn all_digits(d: Seq<char>) -> bool {
    forall|i: int| 0 <= i < d.len() ==> is_digit(#[trigger] d[i])
}

/// The number that a string of decimal digits denotes, most significant first.
pub open spec fn decimal_value(d: Seq<char>) -> nat
    decreases d.len(),
{
    if d.len() == 0 {
        0
    } else {
        decimal_value(d.drop_last()) * 10 + digit_value(d.last())
    }
}

/// What `str::parse::<u64>` makes of `t`: an optional `+`, then at least one
/// decimal digit and nothing else, denoting a value that fits in 64 bits.
pub open spec fn parse_u64_spec(t: Seq<char>) -> Option<u64> {
    let d = if t.len() > 0 && t[0] == '+' {
        t.drop_first()
    } else {
        t
    };
    if d.len() > 0 && all_digits(d) && decimal_value(d) <= u64::MAX {
        Some(decimal_value(d) as u64)
    } else {
        None
    }
}

/// The first position at or after `i` (and before `end`) that holds no white space.
pub open spec fn skip_space(s: Seq<char>, i: int, end: int) -> int
    decreases end - i,
{
    if i < end && is_space(s[i]) {
        skip_space(s, i + 1, end)
    } else {
        i
    }
}

/// The end of the word that starts at `i`: the first white space at or after
/// `i`, or `end`.
pub open spec fn word_end(s: Seq<char>, i: int, end: int) -> int
    decreases end - i,
{
    if i < end && !is_space(s[i]) {
        word_end(s, i + 1, end)
    } else {
        i
    }
}

/// The first position at or after `i` (and before `end`) that holds `c`, or `end`.
pub open spec fn find_char(s: Seq<char>, c: char, i: int, end: int) -> int
    decreases end - i,
{
    if i < end && s[i] != c {
        find_char(s, c, i + 1, end)
    } else {
        i
    }
}

/// A longer run of digits never denotes a smaller number than its prefix.
pub proof fn lemma_decimal_prefix_le(d: Seq<char>, k: int)
    requires
        0 <= k <= d.len(),
    ensures
        decimal_value(d.subrange(0, k)) <= decimal_value(d),
    decreases d.len(),
{
    if k < d.len() {
        let p = d.drop_last();
        lemma_decimal_prefix_le(p, k);
        assert(p.subrange(0, k) =~= d.subrange(0, k));
    } else {
        assert(d.subrange(0, k) =~= d);
    }
}

pub fn is_space_char(c: char) -> (r: bool)
    ensures
        r == is_space(c),
{
    let u = c as u32;
    u == 0x20 || (0x09 <= u && u <= 0x0d) || u == 0x85 || u == 0xa0 || u == 0x1680 || (0x2000
        <= u && u <= 0x200a) || u == 0x2028 || u == 0x2029 || u == 0x202f || u == 0x205f || u
        == 0x3000
}

pub fn is_digit_char(c: char) -> (r: bool)
    ensures
        r == is_digit(c),
{
    let u = c as u32;
    0x30 <= u && u <= 0x39
}

/// The characters of `text`, one element each. Each character is looked up
/// from the start of `text`, so this takes time quadratic in its length: it
/// is meant for texts of a few kilobytes, such as the device table.
pub fn chars_of(text: &str) -> (cs: Vec<char>)
    ensures
        cs@ == text@,
{
    let n = text.unicode_len();
    let mut cs: Vec<char> = Vec::new();
    let mut i: usize = 0;
    while i < n
        invariant
            n == text@.len(),
            i <= n,
            cs@ == text@.subrange(0, i as int),
        decreases n - i,
    {
        cs.push(text.get_char(i));
        i = i + 1;
        assert(cs@ =~= text@.subrange(0, i as int));
    }
    assert(cs@ =~= text@);
    cs
}

pub fn skip_spaces(cs: &Vec<char>, i: usize, end: usize) -> (r: usize)
    requires
        i <= end <= cs@.len(),
    ensures
        r == skip_space(cs@, i as int, end as int),
        i <= r <= end,
{
    let mut j = i;
    while j < end && is_space_char(cs[j])
        invariant
            i <= j <= end <= cs@.len(),
            skip_space(cs@, i as int, end as int) == skip_space(cs@, j as int, end as int),
        decreases end - j,
    {
        j = j + 1;
    }
    j
}

pub fn find_word_end(cs: &Vec<char>, i: usize, end: usize) -> (r: usize)
    requires
        i <= end <= cs@.len(),
    ensures
        r == word_end(cs@, i as int, end as int),
        i <= r <= end,
{
    let mut j = i;
    while j < end && !is_space_char(cs[j])
        invariant
            i <= j <= end <= cs@.len(),
            word_end(cs@, i as int, end as int) == word_end(cs@, j as int, end as int),
        decreases end - j,
    {
        j = j + 1;
    }
    j
}

pub fn find_char_exec(cs: &Vec<char>, c: char, i: usize, end: usize) -> (r: usize)
    requires
        i <= end <= cs@.len(),
    ensures
        r == find_char(cs@, c, i as int, end as int),
        i <= r <= end,
{
    let mut j = i;
    while j < end && cs[j] != c
        invariant
            i <= j <= end <= cs@.len(),
            find_char(cs@, c, i as int, end as int) == find_char(cs@, c, j as int, end as int),
        decreases end - j,
    {
        j = j + 1;
    }
    j
}

/// Reads the characters `cs[a..b]` as `str::parse::<u64>` would.
pub fn parse_u64(cs: &Vec<char>, a: usize, b: usize) -> (r: Option<u64>)
    requires
        a <= b <= cs@.len(),
    ensures
        r == parse_u64_spec(cs@.subrange(a as int, b as int)),
{
    let ghost t = cs@.subrange(a as int, b as int);
    let mut i = a;
    if i < b && cs[i] == '+' {
        i = i + 1;
    }
    let start = i;
    let ghost d = cs@.subrange(start as int, b as int);
    if start > a {
        assert(t.drop_first() =~= d);
    } else {
        assert(t =~= d);
    }
    assert(d == (if t.len() > 0 && t[0] == '+' { t.drop_first() } else { t }));
    if i == b {
        return None;
    }
    let mut acc: u64 = 0;
    assert(cs@.subrange(start as int, i as int) =~= Seq::<char>::empty());
    while i < b
        invariant
            a <= start <= i <= b <= cs@.len(),
            t == cs@.subrange(a as int, b as int),
            d == cs@.subrange(start as int, b as int),
            d == (if t.len() > 0 && t[0] == '+' { t.drop_first() } else { t }),
            all_digits(cs@.subrange(start as int, i as int)),
            acc as nat == decimal_value(cs@.subrange(start as int, i as int)),
        decreases b - i,
    {
        let c = cs[i];
        let u = c as u32;
        if !(0x30 <= u && u <= 0x39) {
            assert(d[i - start] == c);
            assert(!is_digit(d[i - start]));
            return None;
        }
        let next: u128 = acc as u128 * 10 + (u - 0x30) as u128;
        let ghost p = cs@.subrange(start as int, i + 1);
        assert(p.drop_last() =~= cs@.subrange(start as int, i as int));
        assert(p.last() == c);
        assert(decimal_value(p) == next);
        if next > u64::MAX as u128 {
            proof {
                if all_digits(d) {
                    assert(d.subrange(0, i + 1 - start) =~= p);
                    lemma_decimal_prefix_le(d, i + 1 - start);
                }
            }
            return None;
        }
        acc = next as u64;
        i = i + 1;
        assert(all_digits(cs@.subrange(start as int, i as int))) by {
            assert forall|k: int| 0 <= k < p.len() implies is_digit(#[trigger] p[k]) by {
                if k < p.len() - 1 {
                    assert(p[k] == cs@.subrange(start as int, i - 1)[k]);
                }
            }
        }
    }
    assert(cs@.subrange(start as int, i as int) =~= d);
    Some(acc)
}

} // verus!
