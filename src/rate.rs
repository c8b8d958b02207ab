//! Per-interval deltas from two counter snapshots, and the link's load.
use crate::device::{models, parse_table, Device};
use vstd::prelude::*;

verus! {

/// What one interface moved during one sampling interval.
#[derive(Debug, Clone, Copy, PartialEq, Eq, Structural)]
pub struct RateSample {
    pub tx_bytes: u64,
    pub tx_packets: u64,
    pub rx_bytes: u64,
    pub rx_packets: u64,
}

/// No counter that the rates are taken from went backward.
pub open spec fn counters_advance(previous: Device, current: Device) -> bool {
    &&& previous.transmit_bytes <= current.transmit_bytes
    &&& previous.transmit_packets <= current.transmit_packets
    &&& previous.receive_bytes <= current.receive_bytes
    &&& previous.receive_packets <= current.receive_packets
}

/// Each delta as `current - previous`.
pub open spec fn deltas(previous: Device, current: Device) -> RateSample {
    RateSample {
        tx_bytes: (current.transmit_bytes - previous.transmit_bytes) as u64,
        tx_packets: (current.transmit_packets - previous.transmit_packets) as u64,
        rx_bytes: (current.receive_bytes - previous.receive_bytes) as u64,
        rx_packets: (current.receive_packets - previous.receive_packets) as u64,
    }
}

/// The deltas between two snapshots of one interface, each `current - previous`.
/// A counter that went backward means that the interface was reset between
/// the two snapshots; there is then no sample for the interval.
pub fn compute(previous: &Device, current: &Device) -> (r: Option<RateSample>)
    requires
        previous.interface@ == current.interface@,
    ensures
        r is Some <==> counters_advance(*previous, *current),
        r matches Some(s) ==> s == deltas(*previous, *current),
        r matches Some(s) ==> {
            &&& s.tx_bytes == current.transmit_bytes - previous.transmit_bytes
            &&& s.tx_packets == current.transmit_packets - previous.transmit_packets
            &&& s.rx_bytes == current.receive_bytes - previous.receive_bytes
            &&& s.rx_packets == current.receive_packets - previous.receive_packets
        },
{
    if previous.transmit_bytes <= current.transmit_bytes && previous.transmit_packets
        <= current.transmit_packets && previous.receive_bytes <= current.receive_bytes
        && previous.receive_packets <= current.receive_packets {
        Some(
            RateSample {
                tx_bytes: current.transmit_bytes - previous.transmit_bytes,
                tx_packets: current.transmit_packets - previous.transmit_packets,
                rx_bytes: current.receive_bytes - previous.receive_bytes,
                rx_packets: current.receive_packets - previous.receive_packets,
            },
        )
    } else {
        None
    }
}

/// The larger of the two directions' byte counts.
pub open spec fn peak_bytes(s: RateSample) -> u64 {
    if s.tx_bytes >= s.rx_bytes {
        s.tx_bytes
    } else {
        s.rx_bytes
    }
}

/// Whether the busier direction used at least `percent` percent of a link
/// that carries `capacity_bits` bits per interval: `bytes * 8 / capacity * 100
/// >= percent`, compared exactly.
pub open spec fn load_reaches(s: RateSample, capacity_bits: u64, percent: u64) -> bool {
    peak_bytes(s) as int * 800 >= percent as int * capacity_bits as int
}

pub fn reaches(s: &RateSample, capacity_bits: u64, percent: u64) -> (r: bool)
    ensures
        r == load_reaches(*s, capacity_bits, percent),
{
    let peak = if s.tx_bytes >= s.rx_bytes {
        s.tx_bytes
    } else {
        s.rx_bytes
    };
    proof {
        assert(percent as int * capacity_bits as int <= u64::MAX as int * u64::MAX as int)
            by (nonlinear_arith);
    }
    peak as u128 * 800 >= percent as u128 * capacity_bits as u128
}

/// For two device tables read at two ticks, and an interface whose byte and
/// packet counters did not go backward between them, the deltas are exactly
/// the differences of the numbers written in the two tables; equal numbers
/// give deltas of zero.
pub proof fn lemma_deltas_of_parsed(
    f1: Seq<char>,
    f2: Seq<char>,
    v1: Seq<Device>,
    v2: Seq<Device>,
    i: int,
    j: int,
)
    requires
        parse_table(f1) == Ok::<_, nat>(models(v1)),
        parse_table(f2) == Ok::<_, nat>(models(v2)),
        0 <= i < v1.len(),
        0 <= j < v2.len(),
        ({
            let w1 = parse_table(f1)->Ok_0[i].1;
            let w2 = parse_table(f2)->Ok_0[j].1;
            w1[0] <= w2[0] && w1[1] <= w2[1] && w1[8] <= w2[8] && w1[9] <= w2[9]
        }),
    ensures
        counters_advance(v1[i], v2[j]),
        ({
            let w1 = parse_table(f1)->Ok_0[i].1;
            let w2 = parse_table(f2)->Ok_0[j].1;
            let d = deltas(v1[i], v2[j]);
            &&& d.rx_bytes == w2[0] - w1[0]
            &&& d.rx_packets == w2[1] - w1[1]
            &&& d.tx_bytes == w2[8] - w1[8]
            &&& d.tx_packets == w2[9] - w1[9]
            &&& w1 == w2 ==> d == RateSample { tx_bytes: 0, tx_packets: 0, rx_bytes: 0, rx_packets: 0 }
        }),
{
    assert(models(v1)[i] == v1[i].model());
    assert(models(v2)[j] == v2[j].model());
}

} // verus!
