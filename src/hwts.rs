//! Hardware-timestamped echo probe: the probe format, timestamp selection,
//! round-trip computation and the integer statistics of a run.
use vstd::prelude::*;

verus! {

/// `HWTS` in ASCII.
pub const MAGIC: [u8; 4] = [72, 87, 84, 83];
pub const OP_PING: u8 = 0;
pub const OP_PONG: u8 = 1;
pub const PROBE_LEN: usize = 64;
/// Largest seconds value of a timestamp (the year 2106).
pub const MAX_TS_SEC: i64 = 4294967296;

#[derive(Clone, Copy, Debug, PartialEq, Eq, Structural)]
pub enum TimestampSource {
    Hardware,
    Software,
    Unavailable,
}

#[derive(Clone, Copy, Debug)]
pub struct HwTimestamp {
    pub sec: i64,
    pub nsec: i64,
    pub source: TimestampSource,
}

#[derive(Clone, Debug)]
pub struct TimestampCapability {
    pub interface: String,
    pub hw_tx_supported: bool,
    pub hw_rx_supported: bool,
    pub sw_tx_supported: bool,
    pub sw_rx_supported: bool,
    /// PTP hardware clock index, -1 if none.
    pub phc_index: i32,
}

/// Outcome of one probe; `rtt_ns` is zero unless it succeeded with both timestamps.
#[derive(Clone, Copy, Debug)]
pub struct HwLatencyResult {
    pub seq: u32,
    pub success: bool,
    pub rtt_ns: i64,
    pub tx_timestamp: Option<HwTimestamp>,
    pub rx_timestamp: Option<HwTimestamp>,
    pub timestamp_source: TimestampSource,
}

/// Integer statistics of a run; averages and deviations follow from
/// `sum_ns` and the results.
#[derive(Clone, Copy, Debug)]
pub struct HwLatencyStats {
    pub count: u32,
    pub success_count: u32,
    pub min_ns: i64,
    pub max_ns: i64,
    pub sum_ns: i128,
    pub hw_timestamp_count: u32,
    pub sw_timestamp_count: u32,
}

pub open spec fn le32(d: Seq<u8>, i: int) -> u32 {
    (d[i] as int + d[i + 1] as int * 256 + d[i + 2] as int * 65536 + d[i + 3] as int * 16777216) as u32
}

/// A probe: magic, little-endian sequence, opcode PING, zero padding to 64 bytes.
pub open spec fn is_ping_packet(p: Seq<u8>, seq: u32) -> bool {
    &&& p.len() == PROBE_LEN
    &&& p.subrange(0, 4) == MAGIC@
    &&& le32(p, 4) == seq
    &&& p[8] == OP_PING
    &&& forall|i: int| 9 <= i < PROBE_LEN ==> p[i] == 0
}

pub fn create_ping_packet(seq: u32) -> (r: Vec<u8>)
    ensures
        is_ping_packet(r@, seq),
{
    let mut p: Vec<u8> = Vec::new();
    p.push(72);
    p.push(87);
    p.push(84);
    p.push(83);
    p.push((seq % 256) as u8);
    p.push(((seq / 256) % 256) as u8);
    p.push(((seq / 65536) % 256) as u8);
    p.push((seq / 16777216) as u8);
    p.push(OP_PING);
    let mut i: usize = 9;
    while i < PROBE_LEN
        invariant
            9 <= i <= PROBE_LEN,
            p@.len() == i,
            p@[0] == 72 && p@[1] == 87 && p@[2] == 84 && p@[3] == 83,
            le32(p@, 4) == seq,
            p@[8] == OP_PING,
            forall|k: int| 9 <= k < i ==> p@[k] == 0,
        decreases PROBE_LEN - i,
    {
        p.push(0);
        i = i + 1;
    }
    assert(p@.subrange(0, 4) =~= MAGIC@);
    p
}

/// The sequence number of a valid response: at least 12 bytes, the magic,
/// and opcode PONG.
pub open spec fn pong_seq(d: Seq<u8>) -> Option<u32> {
    if d.len() >= 12 && d.subrange(0, 4) == MAGIC@ && d[8] == OP_PONG { Some(le32(d, 4)) } else { None }
}

pub fn parse_pong_packet(data: &[u8]) -> (r: Option<u32>)
    ensures
        r == pong_seq(data@),
{
    if data.len() < 12 {
        return None;
    }
    if data[0] != 72 || data[1] != 87 || data[2] != 84 || data[3] != 83 {
        assert(data@.subrange(0, 4) != MAGIC@) by {
            assert(MAGIC@ =~= seq![72u8, 87u8, 84u8, 83u8]);
            if data[0] != 72 {
                assert(data@.subrange(0, 4)[0] != MAGIC@[0]);
            } else if data[1] != 87 {
                assert(data@.subrange(0, 4)[1] != MAGIC@[1]);
            } else if data[2] != 84 {
                assert(data@.subrange(0, 4)[2] != MAGIC@[2]);
            } else {
                assert(data@.subrange(0, 4)[3] != MAGIC@[3]);
            }
        }
        return None;
    }
    assert(data@.subrange(0, 4) =~= MAGIC@);
    if data[8] != OP_PONG {
        return None;
    }
    Some((data[4] as u32) + (data[5] as u32) * 256 + (data[6] as u32) * 65536 + (data[7] as u32) * 16777216)
}

/// The responder's answer to a probe of at least 12 bytes with the magic and
/// opcode PING: the same bytes with opcode PONG. `None` for anything else.
pub fn make_pong(data: &[u8]) -> (r: Option<Vec<u8>>)
    ensures
        match r {
            Some(p) => data@.len() >= 12 && data@.subrange(0, 4) == MAGIC@ && data@[8] == OP_PING
                && p@ == data@.update(8, OP_PONG),
            None => !(data@.len() >= 12 && data@.subrange(0, 4) == MAGIC@ && data@[8] == OP_PING),
        },
{
    if data.len() < 12 || data[8] != OP_PING || data[0] != 72 || data[1] != 87 || data[2] != 84 || data[3] != 83 {
        proof {
            if data@.len() >= 12 && data@[8] == OP_PING {
                assert(MAGIC@ =~= seq![72u8, 87u8, 84u8, 83u8]);
                if data@.subrange(0, 4) == MAGIC@ {
                    assert(data@.subrange(0, 4)[0] == 72 && data@.subrange(0, 4)[1] == 87);
                    assert(data@.subrange(0, 4)[2] == 84 && data@.subrange(0, 4)[3] == 83);
                }
            }
        }
        return None;
    }
    assert(data@.subrange(0, 4) =~= MAGIC@);
    let mut out = crate::packet::copy_bytes(data);
    out.set(8, OP_PONG);
    Some(out)
}

/// A kernel time-spec: nanoseconds below one second, seconds in range.
pub open spec fn ts_wf(t: HwTimestamp) -> bool {
    0 <= t.sec <= MAX_TS_SEC && 0 <= t.nsec < 1_000_000_000
}

/// The timestamp to use from the kernel's (software, legacy, hardware)
/// triple: hardware when non-zero, else software when non-zero.
pub open spec fn chosen_timestamp(ts: [(i64, i64); 3]) -> Option<HwTimestamp> {
    if ts[2].0 != 0 || ts[2].1 != 0 {
        Some(HwTimestamp { sec: ts[2].0, nsec: ts[2].1, source: TimestampSource::Hardware })
    } else if ts[0].0 != 0 || ts[0].1 != 0 {
        Some(HwTimestamp { sec: ts[0].0, nsec: ts[0].1, source: TimestampSource::Software })
    } else {
        None
    }
}

pub fn select_timestamp(ts: [(i64, i64); 3]) -> (r: Option<HwTimestamp>)
    ensures
        r == chosen_timestamp(ts),
{
    let hw = ts[2];
    let sw = ts[0];
    if hw.0 != 0 || hw.1 != 0 {
        Some(HwTimestamp { sec: hw.0, nsec: hw.1, source: TimestampSource::Hardware })
    } else if sw.0 != 0 || sw.1 != 0 {
        Some(HwTimestamp { sec: sw.0, nsec: sw.1, source: TimestampSource::Software })
    } else {
        None
    }
}

pub open spec fn rtt_between(tx: HwTimestamp, rx: HwTimestamp) -> int {
    (rx.sec - tx.sec) * 1_000_000_000 + (rx.nsec - tx.nsec)
}

/// Outcome of a probe of sequence `seq` from its transmit timestamp, its
/// receive timestamp and the sequence number of the response, if any.
pub open spec fn ping_result(seq: u32, tx: Option<HwTimestamp>, rx: Option<HwTimestamp>, got: Option<u32>) -> HwLatencyResult {
    if got != Some(seq) {
        HwLatencyResult { seq, success: false, rtt_ns: 0, tx_timestamp: tx, rx_timestamp: None, timestamp_source: TimestampSource::Unavailable }
    } else if tx.is_some() && rx.is_some() {
        HwLatencyResult {
            seq,
            success: true,
            rtt_ns: rtt_between(tx.unwrap(), rx.unwrap()) as i64,
            tx_timestamp: tx,
            rx_timestamp: rx,
            timestamp_source: if tx.unwrap().source == TimestampSource::Hardware && rx.unwrap().source == TimestampSource::Hardware {
                TimestampSource::Hardware
            } else {
                TimestampSource::Software
            },
        }
    } else {
        HwLatencyResult { seq, success: true, rtt_ns: 0, tx_timestamp: tx, rx_timestamp: rx, timestamp_source: TimestampSource::Unavailable }
    }
}

pub fn ping_outcome(seq: u32, tx: Option<HwTimestamp>, rx: Option<HwTimestamp>, got: Option<u32>) -> (r: HwLatencyResult)
    requires
        tx.is_some() ==> ts_wf(tx.unwrap()),
        rx.is_some() ==> ts_wf(rx.unwrap()),
    ensures
        r == ping_result(seq, tx, rx, got),
{
    match got {
        Some(s) => {
            if s != seq {
                return HwLatencyResult { seq, success: false, rtt_ns: 0, tx_timestamp: tx, rx_timestamp: None, timestamp_source: TimestampSource::Unavailable };
            }
        },
        None => {
            return HwLatencyResult { seq, success: false, rtt_ns: 0, tx_timestamp: tx, rx_timestamp: None, timestamp_source: TimestampSource::Unavailable };
        },
    }
    match (tx, rx) {
        (Some(t), Some(r)) => {
            let rtt = (r.sec - t.sec) * 1_000_000_000 + (r.nsec - t.nsec);
            let src = if t.source == TimestampSource::Hardware && r.source == TimestampSource::Hardware {
                TimestampSource::Hardware
            } else {
                TimestampSource::Software
            };
            HwLatencyResult { seq, success: true, rtt_ns: rtt, tx_timestamp: tx, rx_timestamp: rx, timestamp_source: src }
        },
        _ => HwLatencyResult { seq, success: true, rtt_ns: 0, tx_timestamp: tx, rx_timestamp: rx, timestamp_source: TimestampSource::Unavailable },
    }
}

pub open spec fn successes(rs: Seq<HwLatencyResult>) -> Seq<HwLatencyResult> {
    rs.filter(|r: HwLatencyResult| r.success)
}

pub open spec fn source_count(rs: Seq<HwLatencyResult>, s: TimestampSource) -> nat {
    rs.filter(|r: HwLatencyResult| r.success && r.timestamp_source == s).len()
}

/// Counts, extremes and sum of the round trips of the successful results,
/// and how many used hardware or software timestamps; all zero without a success.
pub fn calculate_stats(results: &[HwLatencyResult]) -> (r: HwLatencyStats)
    requires
        results@.len() <= u32::MAX,
    ensures
        r.count == results@.len(),
        r.success_count == successes(results@).len(),
        r.hw_timestamp_count == source_count(results@, TimestampSource::Hardware),
        r.sw_timestamp_count == source_count(results@, TimestampSource::Software),
        successes(results@).len() == 0 ==> r.min_ns == 0 && r.max_ns == 0 && r.sum_ns == 0,
        successes(results@).len() > 0 ==> (exists|i: int| 0 <= i < successes(results@).len() && successes(results@)[i].rtt_ns == r.min_ns)
            && (exists|i: int| 0 <= i < successes(results@).len() && successes(results@)[i].rtt_ns == r.max_ns)
            && (forall|i: int| 0 <= i < successes(results@).len() ==> r.min_ns <= #[trigger] successes(results@)[i].rtt_ns <= r.max_ns),
{
    let n = results.len();
    let mut ok: u32 = 0;
    let mut hw: u32 = 0;
    let mut sw: u32 = 0;
    let mut min: i64 = 0;
    let mut max: i64 = 0;
    let mut sum: i128 = 0;
    let mut i: usize = 0;
    while i < n
        invariant
            n == results@.len() <= u32::MAX,
            i <= n,
            ok == successes(results@.subrange(0, i as int)).len(),
            hw == source_count(results@.subrange(0, i as int), TimestampSource::Hardware),
            sw == source_count(results@.subrange(0, i as int), TimestampSource::Software),
            ok <= i && hw <= i && sw <= i,
            -0x8000_0000_0000_0000 * (ok as int) <= sum <= 0x8000_0000_0000_0000 * (ok as int),
            ok == 0 ==> min == 0 && max == 0 && sum == 0,
            ok > 0 ==> (exists|k: int| 0 <= k < ok && successes(results@.subrange(0, i as int))[k].rtt_ns == min)
                && (exists|k: int| 0 <= k < ok && successes(results@.subrange(0, i as int))[k].rtt_ns == max)
                && (forall|k: int| 0 <= k < ok ==> min <= #[trigger] successes(results@.subrange(0, i as int))[k].rtt_ns <= max),
        decreases n - i,
    {
        let r = results[i];
        let ghost pre = results@.subrange(0, i as int);
        let ghost cur = results@.subrange(0, i + 1);
        assert(cur =~= pre.push(r));
        reveal(Seq::filter);
        assert(cur.drop_last() =~= pre);
        if r.success {
            assert(successes(cur) == successes(pre).push(r));
            if ok == 0 || r.rtt_ns < min {
                min = r.rtt_ns;
            }
            if ok == 0 || r.rtt_ns > max {
                max = r.rtt_ns;
            }
            sum = sum + r.rtt_ns as i128;
            ok = ok + 1;
            if r.timestamp_source == TimestampSource::Hardware {
                hw = hw + 1;
            } else if r.timestamp_source == TimestampSource::Software {
                sw = sw + 1;
            }
            assert(successes(cur)[ok - 1] == r);
            assert forall|k: int| 0 <= k < ok - 1 implies successes(cur)[k] == successes(pre)[k] by {}
        } else {
            assert(successes(cur) == successes(pre));
        }
        i = i + 1;
    }
    assert(results@.subrange(0, n as int) =~= results@);
    HwLatencyStats {
        count: n as u32,
        success_count: ok,
        min_ns: min,
        max_ns: max,
        sum_ns: sum,
        hw_timestamp_count: hw,
        sw_timestamp_count: sw,
    }
}

} // verus!
