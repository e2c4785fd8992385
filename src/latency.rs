//! UDP echo latency probe: the 12-byte probe and reply, and the integer
//! statistics of a run.
use vstd::prelude::*;
use crate::hwts::le32;

verus! {

/// `LATY` read as a little-endian word.
pub const LATENCY_MAGIC: u32 = 0x4C415459;
pub const LATENCY_PORT: u16 = 7878;
pub const OP_PING: u8 = 0;
pub const OP_PONG: u8 = 1;
pub const LATENCY_LEN: usize = 12;

/// One probe; `rtt_ns` is the client's monotonic time from send to reply.
#[derive(Clone, Copy, Debug)]
pub struct LatencyResult {
    pub seq: u32,
    pub success: bool,
    pub rtt_ns: u64,
    pub tx_time: u64,
    pub rx_time: u64,
}

/// Integer statistics; mean and jitter follow from `sum_ns` and the results.
#[derive(Clone, Copy, Debug)]
pub struct LatencyStats {
    pub count: u32,
    pub success_count: u32,
    pub min_ns: u64,
    pub max_ns: u64,
    pub sum_ns: u128,
}

/// Magic, little-endian sequence, opcode, three zero bytes.
pub open spec fn is_latency_packet(b: Seq<u8>, seq: u32, op: u8) -> bool {
    b.len() == LATENCY_LEN && le32(b, 0) == LATENCY_MAGIC && le32(b, 4) == seq && b[8] == op && b[9] == 0 && b[10] == 0
        && b[11] == 0
}

pub fn latency_packet(seq: u32, op: u8) -> (r: Vec<u8>)
    ensures
        is_latency_packet(r@, seq, op),
{
    let mut v: Vec<u8> = Vec::new();
    v.push(0x59);
    v.push(0x54);
    v.push(0x41);
    v.push(0x4C);
    v.push((seq % 256) as u8);
    v.push(((seq / 256) % 256) as u8);
    v.push(((seq / 65536) % 256) as u8);
    v.push((seq / 16777216) as u8);
    v.push(op);
    v.push(0);
    v.push(0);
    v.push(0);
    v
}

/// Sequence and opcode of a datagram that starts with the magic.
pub open spec fn latency_fields(b: Seq<u8>) -> Option<(u32, u8)> {
    if b.len() >= LATENCY_LEN && le32(b, 0) == LATENCY_MAGIC { Some((le32(b, 4), b[8])) } else { None }
}

pub fn parse_latency_packet(b: &[u8]) -> (r: Option<(u32, u8)>)
    ensures
        r == latency_fields(b@),
{
    if b.len() < LATENCY_LEN {
        return None;
    }
    let magic = (b[0] as u32) + (b[1] as u32) * 256 + (b[2] as u32) * 65536 + (b[3] as u32) * 16777216;
    if magic != LATENCY_MAGIC {
        return None;
    }
    Some(((b[4] as u32) + (b[5] as u32) * 256 + (b[6] as u32) * 65536 + (b[7] as u32) * 16777216, b[8]))
}

/// The responder's reply to a probe: the same sequence with opcode PONG.
pub fn latency_reply(b: &[u8]) -> (r: Option<Vec<u8>>)
    ensures
        match latency_fields(b@) {
            Some((s, op)) => if op == OP_PING {
                r.is_some() && is_latency_packet(r.unwrap()@, s, OP_PONG)
            } else {
                r.is_none()
            },
            None => r.is_none(),
        },
{
    match parse_latency_packet(b) {
        Some((s, op)) => if op == OP_PING { Some(latency_packet(s, OP_PONG)) } else { None },
        None => None,
    }
}

/// Whether a reply from `sender` answers probe `seq` sent to `target`:
/// it comes from the target and carries the magic, the same sequence and PONG.
pub fn is_reply_to(b: &[u8], seq: u32, sender: &str, target: &str) -> (r: bool)
    ensures
        r == (sender@ == target@ && latency_fields(b@) == Some((seq, OP_PONG))),
{
    let from_target = String::from_str(sender) == String::from_str(target);
    match parse_latency_packet(b) {
        Some((s, op)) => from_target && s == seq && op == OP_PONG,
        None => false,
    }
}

/// Outcome of probe `seq`: successful with the elapsed time `rtt_ns` when
/// `reply` (received from `sender`) answers it, otherwise failed with zero.
pub fn probe_result(seq: u32, reply: Option<&[u8]>, sender: &str, target: &str, rtt_ns: u64, tx_time: u64, rx_time: u64) -> (r: LatencyResult)
    ensures
        r.seq == seq,
        r.tx_time == tx_time,
        r.success == (reply.is_some() && sender@ == target@ && latency_fields(reply.unwrap()@) == Some((seq, OP_PONG))),
        r.success ==> r.rtt_ns == rtt_ns && r.rx_time == rx_time,
        !r.success ==> r.rtt_ns == 0 && r.rx_time == 0,
{
    let ok = match reply {
        Some(b) => is_reply_to(b, seq, sender, target),
        None => false,
    };
    if ok {
        LatencyResult { seq, success: true, rtt_ns, tx_time, rx_time }
    } else {
        LatencyResult { seq, success: false, rtt_ns: 0, tx_time, rx_time: 0 }
    }
}

pub open spec fn ok_results(rs: Seq<LatencyResult>) -> Seq<LatencyResult> {
    rs.filter(|r: LatencyResult| r.success)
}

/// Count, successes, and extremes and sum of the successful round trips;
/// zero without a success.
pub fn calculate_stats(results: &[LatencyResult]) -> (r: LatencyStats)
    requires
        results@.len() <= u32::MAX,
    ensures
        r.count == results@.len(),
        r.success_count == ok_results(results@).len(),
        ok_results(results@).len() == 0 ==> r.min_ns == 0 && r.max_ns == 0 && r.sum_ns == 0,
        forall|i: int| 0 <= i < ok_results(results@).len() ==> r.min_ns <= #[trigger] ok_results(results@)[i].rtt_ns <= r.max_ns,
        ok_results(results@).len() > 0 ==> (exists|i: int| 0 <= i < ok_results(results@).len() && ok_results(results@)[i].rtt_ns == r.min_ns)
            && (exists|i: int| 0 <= i < ok_results(results@).len() && ok_results(results@)[i].rtt_ns == r.max_ns),
{
    let n = results.len();
    let mut ok: u32 = 0;
    let mut min: u64 = 0;
    let mut max: u64 = 0;
    let mut sum: u128 = 0;
    let mut i: usize = 0;
    while i < n
        invariant
            n == results@.len() <= u32::MAX,
            i <= n,
            ok == ok_results(results@.subrange(0, i as int)).len(),
            ok <= i,
            sum <= 0x1_0000_0000_0000_0000 * (ok as int),
            ok == 0 ==> min == 0 && max == 0 && sum == 0,
            forall|k: int| 0 <= k < ok ==> min <= #[trigger] ok_results(results@.subrange(0, i as int))[k].rtt_ns <= max,
            ok > 0 ==> (exists|k: int| 0 <= k < ok && ok_results(results@.subrange(0, i as int))[k].rtt_ns == min)
                && (exists|k: int| 0 <= k < ok && ok_results(results@.subrange(0, i as int))[k].rtt_ns == max),
        decreases n - i,
    {
        let r = results[i];
        let ghost pre = results@.subrange(0, i as int);
        let ghost cur = results@.subrange(0, i + 1);
        assert(cur =~= pre.push(r));
        reveal(Seq::filter);
        assert(cur.drop_last() =~= pre);
        if r.success {
            assert(ok_results(cur) == ok_results(pre).push(r));
            if ok == 0 || r.rtt_ns < min {
                min = r.rtt_ns;
            }
            if ok == 0 || r.rtt_ns > max {
                max = r.rtt_ns;
            }
            sum = sum + r.rtt_ns as u128;
            ok = ok + 1;
            assert(ok_results(cur)[ok - 1] == r);
            assert forall|k: int| 0 <= k < ok - 1 implies ok_results(cur)[k] == ok_results(pre)[k] by {}
        } else {
            assert(ok_results(cur) == ok_results(pre));
        }
        i = i + 1;
    }
    assert(results@.subrange(0, n as int) =~= results@);
    LatencyStats { count: n as u32, success_count: ok, min_ns: min, max_ns: max, sum_ns: sum }
}

} // verus!
