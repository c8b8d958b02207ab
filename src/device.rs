//! Cumulative counters of one network interface.
use crate::text::{
    chars_of, find_char, find_char_exec, find_word_end, parse_u64, parse_u64_spec, skip_space,
    skip_spaces, word_end,
};
use vstd::prelude::*;

verus! {

/// The sixteen cumulative counters of one interface, as one snapshot of the
/// kernel's device table reports them, together with the interface's name.
#[derive(Debug, Clone)]
pub struct Device {
    pub interface: String,
    pub receive_bytes: u64,
    pub receive_packets: u64,
    pub receive_errs: u64,
    pub receive_drop: u64,
    pub receive_fifo: u64,
    pub receive_frame: u64,
    pub receive_compressed: u64,
    pub receive_multicast: u64,
    pub transmit_bytes: u64,
    pub transmit_packets: u64,
    pub transmit_errs: u64,
    pub transmit_drop: u64,
    pub transmit_fifo: u64,
    pub transmit_colls: u64,
    pub transmit_carrier: u64,
    pub transmit_compressed: u64,
}

/// What the table says of one interface: its name and its counters in table order.
pub type DeviceModel = (Seq<char>, Seq<u64>);

/// An interface line of a device table from which no interface could be read.
/// `entry` counts the interface lines before it: the line right after the
/// two header lines is entry zero.
#[derive(Debug, Clone, Copy, PartialEq, Eq)]
pub struct ParseError {
    pub entry: usize,
}

/// Number of counters that each interface line of the device table carries.
pub const COUNTER_COUNT: usize = 16;

impl Device {
    /// The counters in the order in which the device table lists them.
    pub open spec fn counters(self) -> Seq<u64> {
        seq![
            self.receive_bytes,
            self.receive_packets,
            self.receive_errs,
            self.receive_drop,
            self.receive_fifo,
            self.receive_frame,
            self.receive_compressed,
            self.receive_multicast,
            self.transmit_bytes,
            self.transmit_packets,
            self.transmit_errs,
            self.transmit_drop,
            self.transmit_fifo,
            self.transmit_colls,
            self.transmit_carrier,
            self.transmit_compressed,
        ]
    }

    pub open spec fn model(self) -> DeviceModel {
        (self.interface@, self.counters())
    }

    /// A device with an empty name and every counter at zero.
    pub fn new() -> (d: Device)
        ensures
            d.interface@ == Seq::<char>::empty(),
            d.counters() == Seq::new(16, |i: int| 0u64),
    {
        let d = Device {
            interface: String::new(),
            receive_bytes: 0,
            receive_packets: 0,
            receive_errs: 0,
            receive_drop: 0,
            receive_fifo: 0,
            receive_frame: 0,
            receive_compressed: 0,
            receive_multicast: 0,
            transmit_bytes: 0,
            transmit_packets: 0,
            transmit_errs: 0,
            transmit_drop: 0,
            transmit_fifo: 0,
            transmit_colls: 0,
            transmit_carrier: 0,
            transmit_compressed: 0,
        };
        assert(d.counters() =~= Seq::new(16, |i: int| 0u64));
        d
    }
}

/// How many characters the line that starts at `i` holds before its line
/// break (or before the end of the text).
pub open spec fn line_len(s: Seq<char>, i: int) -> nat
    decreases s.len() - i,
{
    if 0 <= i < s.len() && s[i] != '\n' {
        1 + line_len(s, i + 1)
    } else {
        0
    }
}

/// The end of the line that starts at `i`: the next line break, or the end of the text.
pub open spec fn line_end(s: Seq<char>, i: int) -> int {
    i + line_len(s, i)
}

/// Where the line after the one that starts at `i` starts.
pub open spec fn next_line(s: Seq<char>, i: int) -> int {
    if line_end(s, i) < s.len() {
        line_end(s, i) + 1
    } else {
        s.len() as int
    }
}

/// Reads `k` counters, one per word, from the words of `s[i..end]`.
pub open spec fn read_counters(s: Seq<char>, i: int, end: int, k: nat) -> Option<Seq<u64>>
    decreases k,
{
    if k == 0 {
        Some(Seq::empty())
    } else {
        let a = skip_space(s, i, end);
        let b = word_end(s, a, end);
        match parse_u64_spec(s.subrange(a, b)) {
            None => None,
            Some(v) => match read_counters(s, b, end, (k - 1) as nat) {
                None => None,
                Some(rest) => Some(seq![v] + rest),
            },
        }
    }
}

/// One interface line `s[start..end]`: the first word, up to its first colon,
/// names the interface, and the sixteen words after it are its counters.
/// Words past the sixteenth are not read.
pub open spec fn parse_line_spec(s: Seq<char>, start: int, end: int) -> Option<DeviceModel> {
    let a = skip_space(s, start, end);
    let b = word_end(s, a, end);
    if a == b {
        None
    } else {
        match read_counters(s, b, end, 16) {
            None => None,
            Some(c) => Some((s.subrange(a, find_char(s, ':', a, b)), c)),
        }
    }
}

/// The interface lines of `s` from position `pos` on, the first of them being
/// entry `line`; or the entry of the first line that is not one.
pub open spec fn parse_lines(s: Seq<char>, pos: int, line: nat) -> Result<Seq<DeviceModel>, nat>
    decreases s.len() - pos,
{
    if pos < 0 || pos >= s.len() {
        Ok(Seq::empty())
    } else {
        match parse_line_spec(s, pos, line_end(s, pos)) {
            None => Err(line),
            Some(d) => match parse_lines(
                s,
                if pos + line_len(s, pos) < s.len() {
                    pos + line_len(s, pos) + 1
                } else {
                    s.len() as int
                },
                line + 1,
            ) {
                Ok(rest) => Ok(seq![d] + rest),
                Err(l) => Err(l),
            },
        }
    }
}

/// The kernel's device table: two header lines, then one line per interface.
pub open spec fn parse_table(s: Seq<char>) -> Result<Seq<DeviceModel>, nat> {
    parse_lines(s, next_line(s, next_line(s, 0)), 0)
}

pub open spec fn models(v: Seq<Device>) -> Seq<DeviceModel> {
    v.map_values(|d: Device| d.model())
}

fn line_end_exec(cs: &Vec<char>, i: usize) -> (r: usize)
    requires
        i <= cs@.len(),
    ensures
        r == line_end(cs@, i as int),
        i <= r <= cs@.len(),
        r < cs@.len() ==> cs@[r as int] == '\n',
{
    let mut j = i;
    while j < cs.len() && cs[j] != '\n'
        invariant
            i <= j <= cs@.len(),
            line_end(cs@, i as int) == line_end(cs@, j as int),
        decreases cs@.len() - j,
    {
        j = j + 1;
    }
    j
}

fn next_line_exec(cs: &Vec<char>, i: usize) -> (r: usize)
    requires
        i <= cs@.len(),
    ensures
        r == next_line(cs@, i as int),
        i <= r <= cs@.len(),
{
    let e = line_end_exec(cs, i);
    if e < cs.len() {
        e + 1
    } else {
        e
    }
}

/// Reads one interface line, `cs[start..end]`, of the device table `text`.
fn parse_line(text: &str, cs: &Vec<char>, start: usize, end: usize) -> (r: Option<Device>)
    requires
        cs@ == text@,
        start <= end <= cs@.len(),
    ensures
        match parse_line_spec(cs@, start as int, end as int) {
            None => r is None,
            Some(m) => r is Some && r->0.model() == m,
        },
{
    let a = skip_spaces(cs, start, end);
    let b = find_word_end(cs, a, end);
    if a == b {
        return None;
    }
    let name_end = find_char_exec(cs, ':', a, b);
    let mut vals: Vec<u64> = Vec::new();
    let mut i = b;
    let mut k: usize = 0;
    while k < COUNTER_COUNT
        invariant
            cs@ == text@,
            start <= a < b <= i <= end <= cs@.len(),
            a == skip_space(cs@, start as int, end as int),
            b == word_end(cs@, a as int, end as int),
            a <= name_end <= b,
            k <= 16,
            vals@.len() == k,
            read_counters(cs@, b as int, end as int, 16) == (match read_counters(
                cs@,
                i as int,
                end as int,
                (16 - k) as nat,
            ) {
                None => None,
                Some(rest) => Some(vals@ + rest),
            }),
        decreases 16 - k,
    {
        let p = skip_spaces(cs, i, end);
        let q = find_word_end(cs, p, end);
        match parse_u64(cs, p, q) {
            None => {
                assert(read_counters(cs@, i as int, end as int, (16 - k) as nat) is None);
                return None;
            },
            Some(v) => {
                proof {
                    let rest = read_counters(cs@, q as int, end as int, (16 - k - 1) as nat);
                    if let Some(r) = rest {
                        assert(vals@.push(v) + r =~= vals@ + (seq![v] + r));
                    }
                }
                vals.push(v);
                i = q;
                k = k + 1;
            },
        }
    }
    assert(vals@ + Seq::<u64>::empty() =~= vals@);
    let interface = text.substring_char(a, name_end).to_owned();
    let d = Device {
        interface,
        receive_bytes: vals[0],
        receive_packets: vals[1],
        receive_errs: vals[2],
        receive_drop: vals[3],
        receive_fifo: vals[4],
        receive_frame: vals[5],
        receive_compressed: vals[6],
        receive_multicast: vals[7],
        transmit_bytes: vals[8],
        transmit_packets: vals[9],
        transmit_errs: vals[10],
        transmit_drop: vals[11],
        transmit_fifo: vals[12],
        transmit_colls: vals[13],
        transmit_carrier: vals[14],
        transmit_compressed: vals[15],
    };
    assert(d.counters() =~= vals@);
    Some(d)
}

/// Reads the kernel's device table (the text of `/proc/net/dev`): the two
/// header lines are skipped, and each later line gives one interface. The
/// result lists the interfaces in the order of their lines; the error names
/// the first interface line that does not hold a name and sixteen counters.
pub fn parse(text: &str) -> (r: Result<Vec<Device>, ParseError>)
    ensures
        match parse_table(text@) {
            Ok(m) => r is Ok && models(r->Ok_0@) == m,
            Err(l) => r is Err && r->Err_0.entry == l,
        },
{
    let cs = chars_of(text);
    let first = next_line_exec(&cs, 0);
    let mut pos = next_line_exec(&cs, first);
    let mut line: usize = 0;
    let mut devices: Vec<Device> = Vec::new();
    let ghost start = pos as int;
    assert(models(devices@) =~= Seq::<DeviceModel>::empty());
    while pos < cs.len()
        invariant
            cs@ == text@,
            start == next_line(cs@, next_line(cs@, 0)),
            pos <= cs@.len(),
            line <= pos,
            parse_lines(cs@, start, 0) == (match parse_lines(cs@, pos as int, line as nat) {
                Ok(rest) => Ok(models(devices@) + rest),
                Err(l) => Err(l),
            }),
        decreases cs@.len() - pos,
    {
        let e = line_end_exec(&cs, pos);
        match parse_line(text, &cs, pos, e) {
            None => {
                return Err(ParseError { entry: line });
            },
            Some(d) => {
                let ghost old_models = models(devices@);
                devices.push(d);
                proof {
                    assert(models(devices@) =~= old_models.push(d.model()));
                    let next = if e < cs@.len() { e + 1 } else { e as int };
                    if let Ok(rest) = parse_lines(cs@, next, (line + 1) as nat) {
                        assert(old_models.push(d.model()) + rest =~= old_models + (seq![
                            d.model(),
                        ] + rest));
                    }
                }
                pos = if e < cs.len() {
                    e + 1
                } else {
                    e
                };
                line = line + 1;
            },
        }
    }
    assert(models(devices@) + Seq::<DeviceModel>::empty() =~= models(devices@));
    Ok(devices)
}
} // verus!
