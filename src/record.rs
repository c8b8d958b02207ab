//! The tab-separated records of the metrics and event logs.
use crate::text::{
    all_digits, chars_of, decimal_value, digit_value, is_digit, is_digit_char,
    lemma_decimal_prefix_le,
};
use vstd::prelude::*;

verus! {

/// One line of the metrics log: a timestamp in microseconds since the epoch,
/// and the packet and byte deltas of both directions over one interval.
#[derive(Debug, Clone, Copy, PartialEq, Eq, Structural)]
pub struct LogRecord {
    pub time_us: u64,
    pub tx_packets: u64,
    pub tx_bytes: u64,
    pub rx_packets: u64,
    pub rx_bytes: u64,
}

pub const MICROS_PER_SECOND: u64 = 1_000_000;

pub open spec fn digit_char(d: nat) -> char {
    ((48 + d) as u8) as char
}

/// `n` in decimal, without leading zeros.
pub open spec fn decimal(n: nat) -> Seq<char>
    decreases n,
{
    if n < 10 {
        seq![digit_char(n)]
    } else {
        decimal(n / 10) + seq![digit_char(n % 10)]
    }
}

/// The last `width` decimal digits of `n`, with leading zeros.
pub open spec fn padded(n: nat, width: nat) -> Seq<char>
    decreases width,
{
    if width == 0 {
        Seq::empty()
    } else {
        padded(n / 10, (width - 1) as nat) + seq![digit_char(n % 10)]
    }
}

pub open spec fn pow10(w: nat) -> nat
    decreases w,
{
    if w == 0 {
        1
    } else {
        10 * pow10((w - 1) as nat)
    }
}

/// A timestamp as seconds, a point and six digits of microseconds.
pub open spec fn time_text(t: u64) -> Seq<char> {
    decimal((t / 1_000_000) as nat) + seq!['.'] + padded((t % 1_000_000) as nat, 6)
}

/// The line that the metrics log holds for `r`.
pub open spec fn metrics_line(r: LogRecord) -> Seq<char> {
    time_text(r.time_us) + seq!['\t'] + decimal(r.tx_packets as nat) + seq!['\t'] + decimal(
        r.tx_bytes as nat,
    ) + seq!['\t'] + decimal(r.rx_packets as nat) + seq!['\t'] + decimal(r.rx_bytes as nat)
        + seq!['\n']
}

/// The line that the event log holds for an event named `tag` at time `t`.
pub open spec fn event_line(t: u64, tag: Seq<char>) -> Seq<char> {
    time_text(t) + seq!['\t'] + tag + seq!['\n']
}

/// The end of the run of digits that starts at `i`.
pub open spec fn digit_run(s: Seq<char>, i: int) -> int
    decreases s.len() - i,
{
    if 0 <= i < s.len() && is_digit(s[i]) {
        digit_run(s, i + 1)
    } else {
        i
    }
}

/// A field of at least one digit at `i`, closed by `delim`: its value and
/// where the next field starts.
pub open spec fn field(s: Seq<char>, i: int, delim: char) -> Option<(nat, int)> {
    let j = digit_run(s, i);
    if i < j && j < s.len() && s[j] == delim {
        Some((decimal_value(s.subrange(i, j)), j + 1))
    } else {
        None
    }
}

pub open spec fn value_of(f: Option<(nat, int)>) -> nat {
    match f {
        Some((v, _)) => v,
        None => 0,
    }
}

pub open spec fn next_of(f: Option<(nat, int)>) -> int {
    match f {
        Some((_, e)) => e,
        None => 0,
    }
}

pub open spec fn fits(f: Option<(nat, int)>) -> bool {
    f is Some && value_of(f) <= u64::MAX
}

/// What a metrics line says: six fields of digits, separated by a point (the
/// seconds), tabs and a closing line break, the second field being exactly
/// six digits of microseconds, and each value fitting in 64 bits.
pub open spec fn parse_metrics(s: Seq<char>) -> Option<LogRecord> {
    let f0 = field(s, 0, '.');
    let f1 = field(s, next_of(f0), '\t');
    let f2 = field(s, next_of(f1), '\t');
    let f3 = field(s, next_of(f2), '\t');
    let f4 = field(s, next_of(f3), '\t');
    let f5 = field(s, next_of(f4), '\n');
    if f0 is Some && f1 is Some && next_of(f1) == next_of(f0) + 7 && fits(f2) && fits(f3) && fits(f4)
        && fits(f5) && next_of(f5) == s.len() && value_of(f0) * 1_000_000 + value_of(f1) <= u64::MAX {
        Some(
            LogRecord {
                time_us: (value_of(f0) * 1_000_000 + value_of(f1)) as u64,
                tx_packets: value_of(f2) as u64,
                tx_bytes: value_of(f3) as u64,
                rx_packets: value_of(f4) as u64,
                rx_bytes: value_of(f5) as u64,
            },
        )
    } else {
        None
    }
}

proof fn lemma_digit_char(d: nat)
    requires
        d < 10,
    ensures
        is_digit(digit_char(d)),
        digit_value(digit_char(d)) == d,
{
}

proof fn lemma_value_push(x: Seq<char>, d: nat)
    requires
        d < 10,
    ensures
        decimal_value(x + seq![digit_char(d)]) == decimal_value(x) * 10 + d,
{
    lemma_digit_char(d);
    assert((x + seq![digit_char(d)]).drop_last() =~= x);
}

proof fn lemma_digits_push(x: Seq<char>, d: nat)
    requires
        d < 10,
        all_digits(x),
    ensures
        all_digits(x + seq![digit_char(d)]),
{
    lemma_digit_char(d);
    let y = x + seq![digit_char(d)];
    assert forall|i: int| 0 <= i < y.len() implies is_digit(#[trigger] y[i]) by {
        if i < x.len() {
            assert(y[i] == x[i]);
        }
    }
}

/// `decimal(n)` is a non-empty run of digits that denotes `n`.
pub proof fn lemma_decimal(n: nat)
    ensures
        decimal(n).len() > 0,
        all_digits(decimal(n)),
        decimal_value(decimal(n)) == n,
    decreases n,
{
    if n < 10 {
        lemma_digit_char(n);
        lemma_value_push(Seq::<char>::empty(), n);
        assert(Seq::<char>::empty() + seq![digit_char(n)] =~= seq![digit_char(n)]);
        assert(decimal_value(Seq::<char>::empty()) == 0);
        assert(all_digits(seq![digit_char(n)]));
    } else {
        lemma_decimal(n / 10);
        lemma_value_push(decimal(n / 10), n % 10);
        lemma_digits_push(decimal(n / 10), n % 10);
    }
}

/// `padded(n, w)` is `w` digits that denote `n` when `n` has at most `w` digits.
pub proof fn lemma_padded(n: nat, w: nat)
    requires
        n < pow10(w),
    ensures
        padded(n, w).len() == w,
        all_digits(padded(n, w)),
        decimal_value(padded(n, w)) == n,
    decreases w,
{
    if w == 0 {
    } else {
        let p = pow10((w - 1) as nat);
        assert(n / 10 < p) by (nonlinear_arith)
            requires
                n < 10 * p,
        ;
        lemma_padded(n / 10, (w - 1) as nat);
        lemma_value_push(padded(n / 10, (w - 1) as nat), n % 10);
        lemma_digits_push(padded(n / 10, (w - 1) as nat), n % 10);
    }
}

proof fn lemma_digit_run_to(s: Seq<char>, i: int, j: int)
    requires
        0 <= i <= j <= s.len(),
        forall|k: int| i <= k < j ==> is_digit(#[trigger] s[k]),
        j < s.len() ==> !is_digit(s[j]),
    ensures
        digit_run(s, i) == j,
    decreases j - i,
{
    if i < j {
        lemma_digit_run_to(s, i + 1, j);
    }
}

/// A run of digits `x` after `pre` and closed by `delim` is read as one field.
proof fn lemma_field_in(s: Seq<char>, pre: Seq<char>, x: Seq<char>, delim: char, post: Seq<char>)
    requires
        s == pre + x + seq![delim] + post,
        x.len() > 0,
        all_digits(x),
        !is_digit(delim),
    ensures
        field(s, pre.len() as int, delim) == Some(
            (decimal_value(x), (pre.len() + x.len() + 1) as int),
        ),
{
    let i = pre.len() as int;
    let j = i + x.len();
    assert forall|k: int| i <= k < j implies is_digit(#[trigger] s[k]) by {
        assert(s[k] == x[k - i]);
    }
    assert(s[j] == delim);
    lemma_digit_run_to(s, i, j);
    assert(s.subrange(i, j) =~= x);
}

/// Reading back the line written for a record gives that record.
pub proof fn lemma_metrics_round_trip(r: LogRecord)
    ensures
        parse_metrics(metrics_line(r)) == Some(r),
{
    let t = r.time_us;
    let secs = (t / 1_000_000) as nat;
    let frac = (t % 1_000_000) as nat;
    let d0 = decimal(secs);
    let d1 = padded(frac, 6);
    let d2 = decimal(r.tx_packets as nat);
    let d3 = decimal(r.tx_bytes as nat);
    let d4 = decimal(r.rx_packets as nat);
    let d5 = decimal(r.rx_bytes as nat);
    let tab = seq!['\t'];
    lemma_decimal(secs);
    reveal_with_fuel(pow10, 7);
    assert(pow10(6) == 1_000_000);
    lemma_padded(frac, 6);
    lemma_decimal(r.tx_packets as nat);
    lemma_decimal(r.tx_bytes as nat);
    lemma_decimal(r.rx_packets as nat);
    lemma_decimal(r.rx_bytes as nat);
    let s = metrics_line(r);
    assert(s =~= d0 + seq!['.'] + d1 + tab + d2 + tab + d3 + tab + d4 + tab + d5 + seq!['\n']);
    let p0 = Seq::<char>::empty();
    let p1 = d0 + seq!['.'];
    let p2 = p1 + d1 + tab;
    let p3 = p2 + d2 + tab;
    let p4 = p3 + d3 + tab;
    let p5 = p4 + d4 + tab;
    assert(field(s, p0.len() as int, '.') == Some((secs, (p0.len() + d0.len() + 1) as int))) by {
        assert(s =~= p0 + d0 + seq!['.'] + (d1 + tab + d2 + tab + d3 + tab + d4 + tab + d5 + seq!['\n']));
        lemma_field_in(s, p0, d0, '.', d1 + tab + d2 + tab + d3 + tab + d4 + tab + d5 + seq!['\n']);
    }
    assert(field(s, p1.len() as int, '\t') == Some((frac, (p1.len() + d1.len() + 1) as int))) by {
        assert(s =~= p1 + d1 + seq!['\t'] + (d2 + tab + d3 + tab + d4 + tab + d5 + seq!['\n']));
        lemma_field_in(s, p1, d1, '\t', d2 + tab + d3 + tab + d4 + tab + d5 + seq!['\n']);
    }
    assert(field(s, p2.len() as int, '\t') == Some((r.tx_packets as nat, (p2.len() + d2.len() + 1) as int))) by {
        assert(s =~= p2 + d2 + seq!['\t'] + (d3 + tab + d4 + tab + d5 + seq!['\n']));
        lemma_field_in(s, p2, d2, '\t', d3 + tab + d4 + tab + d5 + seq!['\n']);
    }
    assert(field(s, p3.len() as int, '\t') == Some((r.tx_bytes as nat, (p3.len() + d3.len() + 1) as int))) by {
        assert(s =~= p3 + d3 + seq!['\t'] + (d4 + tab + d5 + seq!['\n']));
        lemma_field_in(s, p3, d3, '\t', d4 + tab + d5 + seq!['\n']);
    }
    assert(field(s, p4.len() as int, '\t') == Some((r.rx_packets as nat, (p4.len() + d4.len() + 1) as int))) by {
        assert(s =~= p4 + d4 + seq!['\t'] + (d5 + seq!['\n']));
        lemma_field_in(s, p4, d4, '\t', d5 + seq!['\n']);
    }
    assert(field(s, p5.len() as int, '\n') == Some((r.rx_bytes as nat, (p5.len() + d5.len() + 1) as int))) by {
        assert(s =~= p5 + d5 + seq!['\n'] + (Seq::<char>::empty()));
        lemma_field_in(s, p5, d5, '\n', Seq::<char>::empty());
    }
    assert(secs * 1_000_000 + frac == t) by (nonlinear_arith)
        requires
            secs == t / 1_000_000,
            frac == t % 1_000_000,
    ;
}

proof fn lemma_digit_run_bounds(s: Seq<char>, k: int)
    requires
        0 <= k <= s.len(),
    ensures
        k <= digit_run(s, k) <= s.len(),
    decreases s.len() - k,
{
    if k < s.len() && is_digit(s[k]) {
        lemma_digit_run_bounds(s, k + 1);
    }
}

fn digit_char_exec(d: u64) -> (c: char)
    requires
        d < 10,
    ensures
        c == digit_char(d as nat),
{
    (48u8 + d as u8) as char
}

fn push_decimal(out: &mut Vec<char>, n: u64)
    ensures
        final(out)@ == old(out)@ + decimal(n as nat),
{
    let mut digits: Vec<char> = Vec::new();
    let mut m = n;
    while m >= 10
        invariant
            decimal(n as nat) == decimal(m as nat) + digits@,
        decreases m,
    {
        let ghost before = digits@;
        digits.insert(0, digit_char_exec(m % 10));
        assert(decimal(m as nat) == decimal((m / 10) as nat) + seq![digit_char((m % 10) as nat)]);
        assert(decimal(m as nat) + before =~= decimal((m / 10) as nat) + digits@);
        m = m / 10;
    }
    let ghost before = digits@;
    digits.insert(0, digit_char_exec(m));
    assert(digits@ =~= decimal(m as nat) + before);
    let mut i: usize = 0;
    let ghost start = out@;
    while i < digits.len()
        invariant
            i <= digits@.len(),
            digits@ == decimal(n as nat),
            out@ == start + digits@.subrange(0, i as int),
        decreases digits.len() - i,
    {
        out.push(digits[i]);
        i = i + 1;
        assert(out@ =~= start + digits@.subrange(0, i as int));
    }
    assert(digits@.subrange(0, i as int) =~= digits@);
}

fn push_padded(out: &mut Vec<char>, n: u64, width: usize)
    ensures
        final(out)@ == old(out)@ + padded(n as nat, width as nat),
{
    let mut digits: Vec<char> = Vec::new();
    let mut m = n;
    let mut w = width;
    while w > 0
        invariant
            w <= width,
            padded(n as nat, width as nat) == padded(m as nat, w as nat) + digits@,
        decreases w,
    {
        let ghost before = digits@;
        digits.insert(0, digit_char_exec(m % 10));
        assert(padded(m as nat, w as nat) + before =~= padded((m / 10) as nat, (w - 1) as nat)
            + digits@);
        m = m / 10;
        w = w - 1;
    }
    assert(padded(m as nat, 0) + digits@ =~= digits@);
    let mut i: usize = 0;
    let ghost start = out@;
    while i < digits.len()
        invariant
            i <= digits@.len(),
            digits@ == padded(n as nat, width as nat),
            out@ == start + digits@.subrange(0, i as int),
        decreases digits.len() - i,
    {
        out.push(digits[i]);
        i = i + 1;
        assert(out@ =~= start + digits@.subrange(0, i as int));
    }
    assert(digits@.subrange(0, i as int) =~= digits@);
}

fn push_time(out: &mut Vec<char>, t: u64)
    ensures
        final(out)@ == old(out)@ + time_text(t),
{
    let ghost start = out@;
    push_decimal(out, t / MICROS_PER_SECOND);
    out.push('.');
    push_padded(out, t % MICROS_PER_SECOND, 6);
    assert(out@ =~= start + time_text(t));
}

/// The metrics log's line for `r`: the timestamp as seconds with six
/// decimals, then the transmitted packets and bytes and the received packets
/// and bytes, separated by tabs and closed by a line break.
pub fn encode_metrics(r: &LogRecord) -> (line: Vec<char>)
    ensures
        line@ == metrics_line(*r),
{
    let mut out: Vec<char> = Vec::new();
    push_time(&mut out, r.time_us);
    out.push('\t');
    push_decimal(&mut out, r.tx_packets);
    out.push('\t');
    push_decimal(&mut out, r.tx_bytes);
    out.push('\t');
    push_decimal(&mut out, r.rx_packets);
    out.push('\t');
    push_decimal(&mut out, r.rx_bytes);
    out.push('\n');
    assert(out@ =~= metrics_line(*r));
    out
}

/// The event log's line for the event `tag` at time `time_us`.
pub fn encode_event(time_us: u64, tag: &str) -> (line: Vec<char>)
    ensures
        line@ == event_line(time_us, tag@),
{
    let mut out: Vec<char> = Vec::new();
    push_time(&mut out, time_us);
    out.push('\t');
    let cs = chars_of(tag);
    let ghost start = out@;
    let mut i: usize = 0;
    while i < cs.len()
        invariant
            i <= cs@.len(),
            out@ == start + cs@.subrange(0, i as int),
        decreases cs.len() - i,
    {
        out.push(cs[i]);
        i = i + 1;
        assert(out@ =~= start + cs@.subrange(0, i as int));
    }
    assert(cs@.subrange(0, i as int) =~= tag@);
    out.push('\n');
    assert(out@ =~= event_line(time_us, tag@));
    out
}

fn read_field(cs: &Vec<char>, i: usize, delim: char) -> (r: Option<(u64, usize)>)
    requires
        i <= cs@.len(),
    ensures
        r is Some <==> fits(field(cs@, i as int, delim)),
        r matches Some((v, e)) ==> field(cs@, i as int, delim) == Some((v as nat, e as int)) && i
            < e <= cs@.len(),
{
    let ghost s = cs@;
    let mut j = i;
    let mut acc: u64 = 0;
    assert(s.subrange(i as int, i as int) =~= Seq::<char>::empty());
    while j < cs.len() && is_digit_char(cs[j])
        invariant
            s == cs@,
            i <= j <= s.len(),
            digit_run(s, i as int) == digit_run(s, j as int),
            acc as nat == decimal_value(s.subrange(i as int, j as int)),
        decreases cs.len() - j,
    {
        let c = cs[j];
        let next: u128 = acc as u128 * 10 + (c as u32 - 0x30) as u128;
        let ghost p = s.subrange(i as int, j + 1);
        assert(p.drop_last() =~= s.subrange(i as int, j as int));
        assert(decimal_value(p) == next);
        if next > u64::MAX as u128 {
            proof {
                lemma_digit_run_bounds(s, j + 1);
                let run = digit_run(s, i as int);
                let whole = s.subrange(i as int, run);
                assert(whole.subrange(0, j + 1 - i) =~= p);
                lemma_decimal_prefix_le(whole, j + 1 - i);
            }
            return None;
        }
        acc = next as u64;
        j = j + 1;
    }
    if j > i && j < cs.len() && cs[j] == delim {
        Some((acc, j + 1))
    } else {
        None
    }
}

/// Reads a metrics log line back.
pub fn decode_metrics(line: &str) -> (r: Option<LogRecord>)
    ensures
        r == parse_metrics(line@),
{
    let cs = chars_of(line);
    let ghost s = cs@;
    let ghost f0 = field(s, 0, '.');
    let (secs, p1) = match read_field(&cs, 0, '.') {
        Some(x) => x,
        None => {
            proof {
                if f0 is Some {
                    assert(value_of(f0) * 1_000_000 > u64::MAX) by (nonlinear_arith)
                        requires
                            value_of(f0) > u64::MAX,
                    ;
                }
            }
            return None;
        },
    };
    let ghost f1 = field(s, p1 as int, '\t');
    let (frac, p2) = match read_field(&cs, p1, '\t') {
        Some(x) => x,
        None => {
            return None;
        },
    };
    if p2 - p1 != 7 {
        return None;
    }
    let (tx_packets, p3) = match read_field(&cs, p2, '\t') {
        Some(x) => x,
        None => {
            return None;
        },
    };
    let (tx_bytes, p4) = match read_field(&cs, p3, '\t') {
        Some(x) => x,
        None => {
            return None;
        },
    };
    let (rx_packets, p5) = match read_field(&cs, p4, '\t') {
        Some(x) => x,
        None => {
            return None;
        },
    };
    let (rx_bytes, p6) = match read_field(&cs, p5, '\n') {
        Some(x) => x,
        None => {
            return None;
        },
    };
    if p6 != cs.len() {
        return None;
    }
    let time: u128 = secs as u128 * 1_000_000 + frac as u128;
    if time > u64::MAX as u128 {
        return None;
    }
    Some(
        LogRecord {
            time_us: time as u64,
            tx_packets,
            tx_bytes,
            rx_packets,
            rx_bytes,
        },
    )
}

} // verus!
