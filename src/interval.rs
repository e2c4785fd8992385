//! Inter-arrival intervals, TCP segment/ACK pairing for round-trip times,
//! and order statistics over the samples.
//!
//! Times are integers: `*_us` instants come from a monotonic clock in
//! microseconds, `timestamp_us` is wall-clock time in microseconds.
use vstd::prelude::*;
use vstd::seq_lib::*;
use crate::text::{dec_text, push_char, push_dec};

verus! {

broadcast use vstd::seq_lib::group_to_multiset_ensures;

pub const MAX_INTERVAL_SAMPLES: usize = 1000;
pub const MAX_RTT_SAMPLES: usize = 500;
pub const MAX_STAT_VALUES: usize = 10000;
pub const MAX_PENDING: usize = 20;
pub const MAX_FLOW_RTTS: usize = 100;
/// RTT samples must lie strictly below ten seconds.
pub const RTT_LIMIT_US: u64 = 10000000;
/// Flows idle for this long are dropped.
pub const FLOW_IDLE_US: u64 = 60000000;

/// TCP flow identifier: addresses and ports of one direction.
pub struct TcpFlowKey {
    pub src_ip: String,
    pub dst_ip: String,
    pub src_port: u16,
    pub dst_port: u16,
}

impl TcpFlowKey {
    pub fn new(src_ip: &str, dst_ip: &str, src_port: u16, dst_port: u16) -> (r: TcpFlowKey)
        ensures
            r.src_ip@ == src_ip@,
            r.dst_ip@ == dst_ip@,
            r.src_port == src_port,
            r.dst_port == dst_port,
    {
        TcpFlowKey {
            src_ip: String::from_str(src_ip),
            dst_ip: String::from_str(dst_ip),
            src_port,
            dst_port,
        }
    }

    /// The key of the opposite direction.
    pub fn reverse(&self) -> (r: TcpFlowKey)
        ensures
            r.src_ip@ == self.dst_ip@,
            r.dst_ip@ == self.src_ip@,
            r.src_port == self.dst_port,
            r.dst_port == self.src_port,
    {
        TcpFlowKey {
            src_ip: self.dst_ip.clone(),
            dst_ip: self.src_ip.clone(),
            src_port: self.dst_port,
            dst_port: self.src_port,
        }
    }

    pub open spec fn same(&self, o: &TcpFlowKey) -> bool {
        self.src_ip@ == o.src_ip@ && self.dst_ip@ == o.dst_ip@ && self.src_port == o.src_port
            && self.dst_port == o.dst_port
    }

    pub fn same_as(&self, o: &TcpFlowKey) -> (r: bool)
        ensures
            r == self.same(o),
    {
        self.src_port == o.src_port && self.dst_port == o.dst_port && self.src_ip == o.src_ip
            && self.dst_ip == o.dst_ip
    }
}

/// `"src:port -> dst:port"`.
pub open spec fn flow_text_of(src_ip: Seq<char>, src_port: u16, dst_ip: Seq<char>, dst_port: u16) -> Seq<char> {
    src_ip.push(':') + dec_text(src_port as nat) + " -> "@ + dst_ip.push(':') + dec_text(dst_port as nat)
}

pub open spec fn flow_text(k: TcpFlowKey) -> Seq<char> {
    flow_text_of(k.src_ip@, k.src_port, k.dst_ip@, k.dst_port)
}

pub fn flow_string(k: &TcpFlowKey) -> (r: String)
    ensures
        r@ == flow_text(*k),
{
    let mut s = k.src_ip.clone();
    push_char(&mut s, ':');
    push_dec(&mut s, k.src_port as u64);
    s.append(" -> ");
    s.append(k.dst_ip.as_str());
    push_char(&mut s, ':');
    push_dec(&mut s, k.dst_port as u64);
    s
}

/// Data sent on a flow that waits for its acknowledgment.
pub struct PendingSegment {
    pub seq_end: u32,
    pub at_us: u64,
}

pub struct TcpFlowState {
    pub key: TcpFlowKey,
    pub pending: Vec<PendingSegment>,
    pub rtt_samples: Vec<u64>,
    pub last_activity_us: u64,
}

pub struct IntervalSample {
    pub timestamp_us: i64,
    pub delta_us: u64,
    pub packet_id: u64,
    pub src: String,
    pub dst: String,
    pub protocol: String,
    pub length: u32,
}

pub struct RttSample {
    pub timestamp_us: i64,
    pub rtt_us: u64,
    pub flow: String,
}

/// Order statistics of a sample set; the mean and deviation follow from
/// `count`, `sum_us` and the samples.
pub struct IntervalStats {
    pub count: u64,
    pub min_us: u64,
    pub max_us: u64,
    pub sum_us: u128,
    pub percentile_50_us: u64,
    pub percentile_95_us: u64,
    pub percentile_99_us: u64,
}

pub struct IntervalData {
    pub intervals: Vec<IntervalSample>,
    pub rtt_samples: Vec<RttSample>,
    pub interval_stats: IntervalStats,
    pub rtt_stats: Option<IntervalStats>,
}

// ---------------------------------------------------------------------------
// Sequence numbers.

/// `b - a` modulo 2^32.
pub open spec fn seq_distance(a: u32, b: u32) -> int {
    if b >= a { b - a } else { b - a + 0x1_0000_0000 }
}

/// `a` is at or before `b` in sequence space.
pub open spec fn seq_before_eq(a: u32, b: u32) -> bool {
    seq_distance(a, b) < 0x8000_0000
}

pub fn seq_le(a: u32, b: u32) -> (r: bool)
    ensures
        r == seq_before_eq(a, b),
{
    let diff: u32 = if b >= a { b - a } else { (0xFFFF_FFFFu32 - a) + b + 1 };
    diff < 0x8000_0000
}

/// Sequence comparison is correct across the wrap: any number is at or
/// before each of the next 2^31 numbers.
pub proof fn lemma_seq_le_forward(x: u32, k: int)
    requires
        0 <= k < 0x8000_0000,
    ensures
        seq_before_eq(x, ((x + k) % 0x1_0000_0000) as u32),
{
}

/// `seq + len` modulo 2^32.
pub open spec fn seq_add(seq: u32, len: u32) -> u32 {
    ((seq + len) % 0x1_0000_0000) as u32
}

fn seq_wrapping_add(seq: u32, len: u32) -> (r: u32)
    ensures
        r == seq_add(seq, len),
{
    ((seq as u64 + len as u64) % 0x1_0000_0000) as u32
}

// ---------------------------------------------------------------------------
// Bounded buffers.

/// The last `n` elements of `s`.
pub open spec fn keep_last<A>(s: Seq<A>, n: nat) -> Seq<A> {
    if s.len() > n { s.subrange(s.len() - n, s.len() as int) } else { s }
}

/// Appends `x`, first dropping the oldest element when `v` holds `cap`.
pub fn push_bounded<A>(v: &mut Vec<A>, x: A, cap: usize)
    requires
        0 < cap,
        old(v)@.len() <= cap,
    ensures
        final(v)@ == keep_last(old(v)@.push(x), cap as nat),
        final(v)@.len() <= cap,
{
    if v.len() >= cap {
        v.remove(0);
    }
    v.push(x);
    assert(final(v)@ =~= keep_last(old(v)@.push(x), cap as nat));
}

// ---------------------------------------------------------------------------
// Order statistics.

pub open spec fn sorted_u64(s: Seq<u64>) -> bool {
    forall|i: int, j: int| 0 <= i <= j < s.len() ==> s[i] <= s[j]
}

/// A sorted copy of `values`.
pub fn sorted_copy(values: &[u64]) -> (r: Vec<u64>)
    ensures
        sorted_u64(r@),
        r@.to_multiset() == values@.to_multiset(),
{
    let mut out: Vec<u64> = Vec::new();
    let mut i: usize = 0;
    while i < values.len()
        invariant
            i <= values@.len(),
            sorted_u64(out@),
            out@.to_multiset() == values@.subrange(0, i as int).to_multiset(),
        decreases values@.len() - i,
    {
        let x = values[i];
        let mut pos: usize = 0;
        while pos < out.len() && out[pos] <= x
            invariant
                pos <= out@.len(),
                forall|k: int| 0 <= k < pos ==> out@[k] <= x,
            decreases out@.len() - pos,
        {
            pos = pos + 1;
        }
        let ghost before = out@;
        out.insert(pos, x);
        proof {
            to_multiset_insert(before, pos as int, x);
            assert(values@.subrange(0, i + 1) =~= values@.subrange(0, i as int).push(x));
            to_multiset_build(values@.subrange(0, i as int), x);
            assert forall|a: int, b: int| 0 <= a <= b < out@.len() implies out@[a] <= out@[b] by {
                if a < pos && b > pos {
                    assert(out@[a] == before[a]);
                    assert(out@[b] == before[b - 1]);
                } else if a < pos && b == pos {
                } else if a == pos && b > pos {
                    assert(out@[b] == before[b - 1]);
                    assert(!(before[pos as int] <= x));
                    assert(before[pos as int] <= before[b - 1]);
                } else if a > pos {
                    assert(out@[a] == before[a - 1]);
                    assert(out@[b] == before[b - 1]);
                }
            }
        }
        i = i + 1;
    }
    assert(values@.subrange(0, values@.len() as int) =~= values@);
    out
}

/// Nearest-rank index for percentile `p` of `n` sorted values:
/// `p/100 * (n-1)` rounded half up.
pub open spec fn percentile_index(p: nat, n: nat) -> int {
    if n == 0 { 0 } else { (p * (n - 1) * 2 + 100) / 200 }
}

/// The value at the nearest-rank position; zero for no values.
pub open spec fn percentile_of(sorted: Seq<u64>, p: nat) -> u64 {
    if sorted.len() == 0 { 0 } else { sorted[percentile_index(p, sorted.len())] }
}

pub fn percentile(sorted: &[u64], p: u64) -> (r: u64)
    requires
        p <= 100,
    ensures
        r == percentile_of(sorted@, p as nat),
{
    let n = sorted.len();
    if n == 0 {
        return 0;
    }
    let a: u128 = p as u128;
    let b: u128 = (n - 1) as u128;
    assert(a * b <= 100 * b) by (nonlinear_arith)
        requires a <= 100;
    let idx: u128 = (a * b * 2 + 100) / 200;
    assert(idx < n) by (nonlinear_arith)
        requires idx == (a * b * 2 + 100) / 200, a <= 100, b + 1 == n, a * b <= 100 * b;
    sorted[idx as usize]
}

pub open spec fn sum_of(s: Seq<u64>) -> int
    decreases s.len(),
{
    if s.len() == 0 { 0 } else { sum_of(s.drop_last()) + s.last() }
}

pub open spec fn is_min(s: Seq<u64>, m: u64) -> bool {
    (exists|i: int| 0 <= i < s.len() && s[i] == m) && (forall|i: int| 0 <= i < s.len() ==> m <= s[i])
}

pub open spec fn is_max(s: Seq<u64>, m: u64) -> bool {
    (exists|i: int| 0 <= i < s.len() && s[i] == m) && (forall|i: int| 0 <= i < s.len() ==> s[i] <= m)
}

/// `st` holds the count, extremes, sum and nearest-rank percentiles of
/// `values`; all zero when there are none.
pub open spec fn stats_of(values: Seq<u64>, st: IntervalStats) -> bool {
    &&& st.count == values.len()
    &&& st.sum_us == sum_of(values)
    &&& values.len() == 0 ==> st.min_us == 0 && st.max_us == 0
    &&& values.len() > 0 ==> is_min(values, st.min_us) && is_max(values, st.max_us)
    &&& exists|s: Seq<u64>|
        #![auto]
        sorted_u64(s) && s.to_multiset() == values.to_multiset() && st.percentile_50_us
            == percentile_of(s, 50) && st.percentile_95_us == percentile_of(s, 95)
            && st.percentile_99_us == percentile_of(s, 99)
}

/// Count, extremes, sum and percentiles of `values`; all zero when empty.
pub fn calculate_stats(values: &[u64]) -> (r: IntervalStats)
    ensures
        stats_of(values@, r),
{
    let n = values.len();
    let mut min: u64 = if n > 0 { values[0] } else { 0 };
    let mut max: u64 = min;
    let mut sum: u128 = 0;
    let mut i: usize = 0;
    while i < n
        invariant
            n == values@.len() <= usize::MAX,
            i <= n,
            sum == sum_of(values@.subrange(0, i as int)),
            sum <= i * 0x1_0000_0000_0000_0000,
            n == 0 ==> min == 0 && max == 0,
            n > 0 ==> (exists|k: int| 0 <= k < n && values@[k] == min),
            n > 0 ==> (exists|k: int| 0 <= k < n && values@[k] == max),
            forall|k: int| 0 <= k < i ==> min <= values@[k] && values@[k] <= max,
        decreases n - i,
    {
        let x = values[i];
        assert(values@.subrange(0, i + 1).drop_last() =~= values@.subrange(0, i as int));
        sum = sum + x as u128;
        if x < min {
            min = x;
        }
        if x > max {
            max = x;
        }
        i = i + 1;
    }
    assert(values@.subrange(0, n as int) =~= values@);
    let sorted = sorted_copy(values);
    let p50 = percentile(sorted.as_slice(), 50);
    let p95 = percentile(sorted.as_slice(), 95);
    let p99 = percentile(sorted.as_slice(), 99);
    IntervalStats {
        count: n as u64,
        min_us: min,
        max_us: max,
        sum_us: sum,
        percentile_50_us: p50,
        percentile_95_us: p95,
        percentile_99_us: p99,
    }
}


/// With no samples every statistic, percentiles included, is zero.
pub proof fn lemma_empty_stats(st: IntervalStats)
    requires
        stats_of(Seq::empty(), st),
    ensures
        st.count == 0,
        st.min_us == 0 && st.max_us == 0 && st.sum_us == 0,
        st.percentile_50_us == 0 && st.percentile_95_us == 0 && st.percentile_99_us == 0,
{
    let s = choose|s: Seq<u64>|
        #![auto]
        sorted_u64(s) && s.to_multiset() == Seq::<u64>::empty().to_multiset() && st.percentile_50_us
            == percentile_of(s, 50) && st.percentile_95_us == percentile_of(s, 95)
            && st.percentile_99_us == percentile_of(s, 99);
    to_multiset_len(s);
    to_multiset_len(Seq::<u64>::empty());
    assert(s.len() == 0);
}

// ---------------------------------------------------------------------------
// The tracker.

impl IntervalSample {
    pub fn copy(&self) -> (r: IntervalSample)
        ensures
            r == *self,
    {
        IntervalSample {
            timestamp_us: self.timestamp_us,
            delta_us: self.delta_us,
            packet_id: self.packet_id,
            src: self.src.clone(),
            dst: self.dst.clone(),
            protocol: self.protocol.clone(),
            length: self.length,
        }
    }
}

impl RttSample {
    pub fn copy(&self) -> (r: RttSample)
        ensures
            r == *self,
    {
        RttSample { timestamp_us: self.timestamp_us, rtt_us: self.rtt_us, flow: self.flow.clone() }
    }
}

pub open spec fn rtt_in_range(rtt: u64) -> bool {
    0 < rtt < RTT_LIMIT_US
}

/// `after` is `before` with one sample of the given time and flow appended,
/// whose round trip lies in range and runs from a segment sent before
/// `now_us` to `now_us`; the oldest is dropped when full.
pub open spec fn rtt_appended(before: Seq<RttSample>, after: Seq<RttSample>, timestamp_us: i64, flow: Seq<char>, now_us: u64) -> bool {
    &&& after.len() > 0
    &&& after == keep_last(before.push(after.last()), MAX_RTT_SAMPLES as nat)
    &&& after.last().timestamp_us == timestamp_us
    &&& after.last().flow@ == flow
    &&& rtt_in_range(after.last().rtt_us)
    &&& exists|sent_us: u64| sent_us < now_us && #[trigger] (now_us - sent_us) == after.last().rtt_us
}

pub open spec fn flow_wf(f: TcpFlowState) -> bool {
    &&& f.pending@.len() <= MAX_PENDING
    &&& f.rtt_samples@.len() <= MAX_FLOW_RTTS
    &&& forall|i: int| 0 <= i < f.rtt_samples@.len() ==> rtt_in_range(#[trigger] f.rtt_samples@[i])
}

/// Microseconds from `earlier` to `later`, zero if `later` comes first.
pub open spec fn elapsed(earlier: u64, later: u64) -> u64 {
    if later >= earlier { (later - earlier) as u64 } else { 0 }
}

/// Interval since the previous packet; zero for the first one.
pub open spec fn delta_of(last: Option<(u64, i64)>, now_us: u64) -> u64 {
    match last {
        Some((t, _)) => elapsed(t, now_us),
        None => 0,
    }
}

/// Flow key `f` names the direction opposite to `k`.
pub open spec fn reverse_of(f: TcpFlowKey, k: Direction) -> bool {
    f.src_ip@ == k.dst && f.dst_ip@ == k.src && f.src_port == k.dst_port && f.dst_port == k.src_port
}

/// Flow key `f` names direction `k`.
pub open spec fn names(f: TcpFlowKey, k: Direction) -> bool {
    f.src_ip@ == k.src && f.dst_ip@ == k.dst && f.src_port == k.src_port && f.dst_port == k.dst_port
}

/// Index of the first flow opposite to `k`.
pub open spec fn first_reverse_flow(flows: Seq<TcpFlowState>, k: Direction) -> Option<int> {
    if exists|i: int| 0 <= i < flows.len() && reverse_of((#[trigger] flows[i]).key, k) && forall|j: int|
        0 <= j < i ==> !reverse_of((#[trigger] flows[j]).key, k) {
        Some(
            choose|i: int| 0 <= i < flows.len() && reverse_of((#[trigger] flows[i]).key, k) && forall|j: int|
                0 <= j < i ==> !reverse_of((#[trigger] flows[j]).key, k),
        )
    } else {
        None
    }
}

/// Index of the first pending segment that `ack` covers.
pub open spec fn first_acked(pending: Seq<PendingSegment>, ack: u32) -> Option<int> {
    if exists|i: int| 0 <= i < pending.len() && seq_before_eq((#[trigger] pending[i]).seq_end, ack) && forall|j: int|
        0 <= j < i ==> !seq_before_eq((#[trigger] pending[j]).seq_end, ack) {
        Some(
            choose|i: int| 0 <= i < pending.len() && seq_before_eq((#[trigger] pending[i]).seq_end, ack) && forall|j: int|
                0 <= j < i ==> !seq_before_eq((#[trigger] pending[j]).seq_end, ack),
        )
    } else {
        None
    }
}

/// The round trip that an acknowledgment `ack` on direction `k` at `now_us`
/// measures: from the oldest covered segment of the first opposite flow.
pub open spec fn ack_outcome(flows: Seq<TcpFlowState>, k: Direction, ack: u32, now_us: u64) -> Option<u64> {
    match first_reverse_flow(flows, k) {
        Some(fi) => match first_acked(flows[fi].pending@, ack) {
            Some(j) => Some(elapsed(flows[fi].pending@[j].at_us, now_us)),
            None => None,
        },
        None => None,
    }
}

/// Addresses and ports of one direction of a TCP connection.
pub struct Direction {
    pub src: Seq<char>,
    pub dst: Seq<char>,
    pub src_port: u16,
    pub dst_port: u16,
}

pub open spec fn dir_of(k: TcpFlowKey) -> Direction {
    Direction { src: k.src_ip@, dst: k.dst_ip@, src_port: k.src_port, dst_port: k.dst_port }
}

/// `after` is the sample list after an acknowledgment `ack` whose measured
/// round trip is `outcome`: one more sample of exactly that round trip when
/// both are known and it lies in range, otherwise `before` unchanged.
pub open spec fn rtt_after(before: Seq<RttSample>, ack: Option<u32>, outcome: Option<u64>, after: Seq<RttSample>) -> bool {
    if ack.is_some() && outcome.is_some() && rtt_in_range(outcome.unwrap()) {
        after.len() > 0 && after == keep_last(before.push(after.last()), MAX_RTT_SAMPLES as nat) && after.last().rtt_us
            == outcome.unwrap()
    } else {
        after == before
    }
}

/// Index of the first flow of direction `k`.
pub open spec fn first_named(flows: Seq<TcpFlowState>, k: Direction) -> Option<int> {
    if exists|i: int| 0 <= i < flows.len() && names((#[trigger] flows[i]).key, k) && forall|j: int|
        0 <= j < i ==> !names((#[trigger] flows[j]).key, k) {
        Some(
            choose|i: int| 0 <= i < flows.len() && names((#[trigger] flows[i]).key, k) && forall|j: int|
                0 <= j < i ==> !names((#[trigger] flows[j]).key, k),
        )
    } else {
        None
    }
}

/// Segments waiting on the first flow of direction `k`; none without one.
pub open spec fn pending_of(flows: Seq<TcpFlowState>, k: Direction) -> Seq<PendingSegment> {
    match first_named(flows, k) {
        Some(i) => flows[i].pending@,
        None => Seq::empty(),
    }
}

/// Some flow of direction `k`, active at `now_us`, has exactly `pending` waiting.
pub open spec fn has_pending(flows: Seq<TcpFlowState>, k: Direction, pending: Seq<PendingSegment>, now_us: u64) -> bool {
    exists|i: int| 0 <= i < flows.len() && names((#[trigger] flows[i]).key, k) && flows[i].pending@ == pending
        && flows[i].last_activity_us == now_us
}

/// The segment list after sending `len > 0` bytes from `seq` at `now_us`.
pub open spec fn pending_after(before: Seq<PendingSegment>, seq: u32, len: u32, now_us: u64) -> Seq<PendingSegment> {
    keep_last(before.push(PendingSegment { seq_end: seq_add(seq, len), at_us: now_us }), MAX_PENDING as nat)
}

/// A direction whose opposite is itself: same address and port at both ends.
pub open spec fn self_reverse(k: Direction) -> bool {
    k.src == k.dst && k.src_port == k.dst_port
}

/// Changing or adding only flows of direction `k` leaves what an
/// acknowledgment on `k` measures unchanged, unless `k` is its own opposite.
proof fn lemma_ack_outcome_frame(a: Seq<TcpFlowState>, b: Seq<TcpFlowState>, k: Direction, ack: u32, now_us: u64)
    requires
        !self_reverse(k),
        b.len() >= a.len(),
        forall|i: int| 0 <= i < a.len() && !names(a[i].key, k) ==> #[trigger] b[i] == a[i],
        forall|i: int| 0 <= i < a.len() ==> (#[trigger] b[i]).key == a[i].key,
        forall|i: int| a.len() <= i < b.len() ==> names((#[trigger] b[i]).key, k),
    ensures
        ack_outcome(b, k, ack, now_us) == ack_outcome(a, k, ack, now_us),
{
    assert forall|i: int| 0 <= i < b.len() && reverse_of((#[trigger] b[i]).key, k) implies i < a.len() && b[i] == a[i] by {
        if i >= a.len() {
            assert(names(b[i].key, k));
        } else if names(a[i].key, k) {
            assert(b[i].key == a[i].key);
            assert(names(b[i].key, k));
        }
    }
    assert forall|i: int| 0 <= i < a.len() && reverse_of((#[trigger] a[i]).key, k) implies b[i] == a[i] by {
        assert(!names(a[i].key, k));
    }
    let fa = first_reverse_flow(a, k);
    let fb = first_reverse_flow(b, k);
    if fa.is_some() {
        let i = fa.unwrap();
        assert(b[i] == a[i]);
        assert forall|j: int| 0 <= j < i implies !reverse_of((#[trigger] b[j]).key, k) by {
            if reverse_of(b[j].key, k) {
                assert(b[j] == a[j]);
            }
        }
        assert(fb.is_some());
        let c = fb.unwrap();
        if c < i {
            assert(b[c] == a[c]);
        } else if c > i {
        }
        assert(c == i);
    } else {
        if fb.is_some() {
            let c = fb.unwrap();
            assert(b[c] == a[c]);
            assert forall|j: int| 0 <= j < c implies !reverse_of((#[trigger] a[j]).key, k) by {
                if reverse_of(a[j].key, k) {
                    assert(b[j] == a[j]);
                }
            }
            assert(false);
        }
    }
}

pub struct IntervalTracker {
    pub last_packet: Option<(u64, i64)>,
    pub interval_samples: Vec<IntervalSample>,
    pub tcp_flows: Vec<TcpFlowState>,
    pub rtt_samples: Vec<RttSample>,
    pub all_intervals: Vec<u64>,
}

impl IntervalTracker {
    pub open spec fn wf(&self) -> bool {
        &&& self.interval_samples@.len() <= MAX_INTERVAL_SAMPLES
        &&& self.rtt_samples@.len() <= MAX_RTT_SAMPLES
        &&& self.all_intervals@.len() <= MAX_STAT_VALUES
        &&& forall|i: int| 0 <= i < self.rtt_samples@.len() ==> rtt_in_range(#[trigger] self.rtt_samples@[i].rtt_us)
        &&& forall|i: int| 0 <= i < self.tcp_flows@.len() ==> flow_wf(#[trigger] self.tcp_flows@[i])
    }

    pub fn new() -> (r: IntervalTracker)
        ensures
            r.wf(),
            r.last_packet.is_none(),
            r.interval_samples@.len() == 0,
            r.tcp_flows@.len() == 0,
            r.rtt_samples@.len() == 0,
            r.all_intervals@.len() == 0,
    {
        IntervalTracker {
            last_packet: None,
            interval_samples: Vec::new(),
            tcp_flows: Vec::new(),
            rtt_samples: Vec::new(),
            all_intervals: Vec::new(),
        }
    }

    /// Index of the first flow with key `k`.
    fn find_flow(&self, k: &TcpFlowKey) -> (r: Option<usize>)
        ensures
            match r {
                Some(i) => i < self.tcp_flows@.len() && self.tcp_flows@[i as int].key.same(k)
                    && forall|j: int| 0 <= j < i ==> !(#[trigger] self.tcp_flows@[j]).key.same(k),
                None => forall|j: int| 0 <= j < self.tcp_flows@.len() ==> !(#[trigger] self.tcp_flows@[j]).key.same(k),
            },
    {
        let mut i: usize = 0;
        while i < self.tcp_flows.len()
            invariant
                i <= self.tcp_flows@.len(),
                forall|j: int| 0 <= j < i ==> !(#[trigger] self.tcp_flows@[j]).key.same(k),
            decreases self.tcp_flows@.len() - i,
        {
            if self.tcp_flows[i].key.same_as(k) {
                return Some(i);
            }
            i = i + 1;
        }
        None
    }

    /// Records a segment of `payload_len > 0` bytes on flow `key` as waiting
    /// for its acknowledgment.
    fn add_pending(&mut self, key: TcpFlowKey, seq: u32, payload_len: u32, now_us: u64)
        requires
            old(self).wf(),
        ensures
            final(self).wf(),
            final(self).tcp_flows@.len() >= old(self).tcp_flows@.len(),
            forall|i: int| 0 <= i < old(self).tcp_flows@.len() && !names(old(self).tcp_flows@[i].key, dir_of(key))
                ==> #[trigger] final(self).tcp_flows@[i] == old(self).tcp_flows@[i],
            forall|i: int| old(self).tcp_flows@.len() <= i < final(self).tcp_flows@.len() ==> names((#[trigger] final(self).tcp_flows@[i]).key, dir_of(key)),
            forall|i: int| 0 <= i < old(self).tcp_flows@.len() ==> (#[trigger] final(self).tcp_flows@[i]).key == old(self).tcp_flows@[i].key,
            final(self).rtt_samples == old(self).rtt_samples,
            final(self).interval_samples == old(self).interval_samples,
            final(self).all_intervals == old(self).all_intervals,
            final(self).last_packet == old(self).last_packet,
            has_pending(final(self).tcp_flows@, dir_of(key), pending_after(pending_of(old(self).tcp_flows@, dir_of(key)), seq, payload_len, now_us), now_us),
    {
        let ghost flows0 = self.tcp_flows@;
        let seg = PendingSegment { seq_end: seq_wrapping_add(seq, payload_len), at_us: now_us };
        let idx = match self.find_flow(&key) {
            Some(i) => i,
            None => {
                self.tcp_flows.push(
                    TcpFlowState {
                        key,
                        pending: Vec::new(),
                        rtt_samples: Vec::new(),
                        last_activity_us: now_us,
                    },
                );
                self.tcp_flows.len() - 1
            },
        };
        let ghost flows = self.tcp_flows@;
        proof {
            let d = dir_of(key);
            assert forall|j: int| 0 <= j < flows0.len() && names((#[trigger] flows0[j]).key, d) implies idx <= j by {
                if j < idx {
                    assert(!flows0[j].key.same(&key));
                }
            }
            if idx < flows0.len() {
                assert(names(flows0[idx as int].key, d));
                let c = first_named(flows0, d).unwrap();
                assert(first_named(flows0, d).is_some());
                if c < idx {
                    assert(!flows0[c].key.same(&key));
                } else if c > idx {
                    assert(!names(flows0[idx as int].key, d));
                }
                assert(pending_of(flows0, d) == flows[idx as int].pending@);
            } else {
                assert forall|j: int| 0 <= j < flows0.len() implies !names((#[trigger] flows0[j]).key, d) by {
                    assert(!flows0[j].key.same(&key));
                }
                assert(flows[idx as int].pending@ =~= Seq::<PendingSegment>::empty());
                assert(pending_of(flows0, d) =~= Seq::<PendingSegment>::empty());
            }
        }
        let mut flow = self.tcp_flows.remove(idx);
        push_bounded(&mut flow.pending, seg, MAX_PENDING);
        flow.last_activity_us = now_us;
        self.tcp_flows.insert(idx, flow);
        assert forall|i: int| 0 <= i < self.tcp_flows@.len() implies flow_wf(#[trigger] self.tcp_flows@[i]) by {
            if i != idx {
                assert(self.tcp_flows@[i] == flows[i]);
            }
        }
        assert(self.tcp_flows@[idx as int].key == flows[idx as int].key);
        assert(names(self.tcp_flows@[idx as int].key, dir_of(key)));
        assert forall|i: int| 0 <= i < old(self).tcp_flows@.len() implies (#[trigger] self.tcp_flows@[i]).key == old(self).tcp_flows@[i].key by {
            if i != idx {
                assert(self.tcp_flows@[i] == flows[i]);
            }
            assert(flows[i] == old(self).tcp_flows@[i]);
        }
        assert forall|i: int| 0 <= i < old(self).tcp_flows@.len() && !names(old(self).tcp_flows@[i].key, dir_of(key))
            implies #[trigger] self.tcp_flows@[i] == old(self).tcp_flows@[i] by {
            assert(i != idx);
            assert(self.tcp_flows@[i] == flows[i]);
        }
    }

    /// Index of the first pending segment of flow `fi` that `ack` covers.
    fn find_acked(&self, fi: usize, ack: u32) -> (r: Option<usize>)
        requires
            fi < self.tcp_flows@.len(),
        ensures
            match r {
                Some(j) => j < self.tcp_flows@[fi as int].pending@.len()
                    && seq_before_eq(self.tcp_flows@[fi as int].pending@[j as int].seq_end, ack)
                    && forall|k: int| 0 <= k < j ==> !seq_before_eq(#[trigger] self.tcp_flows@[fi as int].pending@[k].seq_end, ack),
                None => forall|k: int| 0 <= k < self.tcp_flows@[fi as int].pending@.len()
                    ==> !seq_before_eq(#[trigger] self.tcp_flows@[fi as int].pending@[k].seq_end, ack),
            },
    {
        let p = &self.tcp_flows[fi].pending;
        let mut j: usize = 0;
        while j < p.len()
            invariant
                *p == self.tcp_flows@[fi as int].pending,
                j <= p@.len(),
                forall|k: int| 0 <= k < j ==> !seq_before_eq(#[trigger] p@[k].seq_end, ack),
            decreases p@.len() - j,
        {
            if seq_le(p[j].seq_end, ack) {
                return Some(j);
            }
            j = j + 1;
        }
        None
    }

    /// Pairs an acknowledgment on flow `key` with the oldest covered segment
    /// of the reverse flow, and records the round trip when it lies in range.
    fn match_ack(&mut self, key: &TcpFlowKey, ack: u32, now_us: u64, timestamp_us: i64)
        requires
            old(self).wf(),
        ensures
            final(self).wf(),
            final(self).interval_samples == old(self).interval_samples,
            final(self).all_intervals == old(self).all_intervals,
            final(self).last_packet == old(self).last_packet,
            match ack_outcome(old(self).tcp_flows@, dir_of(*key), ack, now_us) {
                Some(rtt) => if rtt_in_range(rtt) {
                    rtt_appended(
                        old(self).rtt_samples@,
                        final(self).rtt_samples@,
                        timestamp_us,
                        flow_text_of(key.dst_ip@, key.dst_port, key.src_ip@, key.src_port),
                        now_us,
                    ) && final(self).rtt_samples@.last().rtt_us == rtt
                } else {
                    final(self).rtt_samples@ == old(self).rtt_samples@
                },
                None => final(self).rtt_samples@ == old(self).rtt_samples@,
            },
    {
        let rev = key.reverse();
        let fi = match self.find_flow(&rev) {
            Some(i) => i,
            None => {
                proof {
                    assert forall|i: int| 0 <= i < self.tcp_flows@.len() implies !reverse_of((#[trigger] self.tcp_flows@[i]).key, dir_of(*key)) by {
                        assert(!self.tcp_flows@[i].key.same(&rev));
                    }
                }
                return;
            },
        };
        proof {
            let flows = self.tcp_flows@;
            assert(reverse_of(flows[fi as int].key, dir_of(*key)));
            assert forall|j: int| 0 <= j < fi implies !reverse_of((#[trigger] flows[j]).key, dir_of(*key)) by {
                assert(!flows[j].key.same(&rev));
            }
            let c = first_reverse_flow(flows, dir_of(*key)).unwrap();
            assert(first_reverse_flow(flows, dir_of(*key)).is_some());
            if c < fi {
                assert(!reverse_of(flows[c].key, dir_of(*key)));
            } else if c > fi {
                assert(!reverse_of(flows[fi as int].key, dir_of(*key)));
            }
            assert(c == fi);
        }
        let j = match self.find_acked(fi, ack) {
            Some(j) => j,
            None => {
                return;
            },
        };
        proof {
            let p = self.tcp_flows@[fi as int].pending@;
            let c = first_acked(p, ack).unwrap();
            assert(first_acked(p, ack).is_some());
            if c < j {
                assert(!seq_before_eq(p[c].seq_end, ack));
            } else if c > j {
                assert(!seq_before_eq(p[j as int].seq_end, ack));
            }
            assert(c == j);
        }
        let ghost flows = self.tcp_flows@;
        let mut flow = self.tcp_flows.remove(fi);
        let seg = flow.pending.remove(j);
        let rtt = if now_us >= seg.at_us { now_us - seg.at_us } else { 0 };
        let in_range = rtt > 0 && rtt < RTT_LIMIT_US;
        if in_range {
            push_bounded(&mut flow.rtt_samples, rtt, MAX_FLOW_RTTS);
        }
        let flow_s = flow_string(&rev);
        self.tcp_flows.insert(fi, flow);
        assert forall|i: int| 0 <= i < self.tcp_flows@.len() implies flow_wf(#[trigger] self.tcp_flows@[i]) by {
            if i != fi {
                assert(self.tcp_flows@[i] == flows[i]);
            }
        }
        if in_range {
            let ghost before = self.rtt_samples@;
            let sample = RttSample { timestamp_us, rtt_us: rtt, flow: flow_s };
            push_bounded(&mut self.rtt_samples, sample, MAX_RTT_SAMPLES);
            assert(self.rtt_samples@.last() == sample);
            assert(seg.at_us < now_us && now_us - seg.at_us == rtt);
            assert forall|i: int| 0 <= i < self.rtt_samples@.len() implies rtt_in_range(#[trigger] self.rtt_samples@[i].rtt_us) by {
                if i < self.rtt_samples@.len() - 1 {
                    assert(self.rtt_samples@[i] == before.push(sample)[i + before.push(sample).len() - self.rtt_samples@.len()]);
                }
            }
        }
    }

    /// Segment/ACK pairing for one TCP frame of flow `src:sp -> dst:dp`.
    fn track_tcp_rtt(
        &mut self,
        src_ip: &str,
        dst_ip: &str,
        src_port: u16,
        dst_port: u16,
        seq: Option<u32>,
        ack: Option<u32>,
        is_ack: bool,
        payload_len: u32,
        now_us: u64,
        timestamp_us: i64,
    )
        requires
            old(self).wf(),
        ensures
            final(self).wf(),
            final(self).interval_samples == old(self).interval_samples,
            final(self).all_intervals == old(self).all_intervals,
            final(self).last_packet == old(self).last_packet,
            final(self).rtt_samples@ == old(self).rtt_samples@ || (is_ack && ack.is_some()
                && rtt_appended(
                old(self).rtt_samples@,
                final(self).rtt_samples@,
                timestamp_us,
                flow_text_of(dst_ip@, dst_port, src_ip@, src_port),
                now_us,
            )),
            !(src_ip@ == dst_ip@ && src_port == dst_port) ==> rtt_after(
                old(self).rtt_samples@,
                if is_ack { ack } else { None },
                ack_outcome(
                    old(self).tcp_flows@,
                    Direction { src: src_ip@, dst: dst_ip@, src_port, dst_port },
                    ack.unwrap_or(0),
                    now_us,
                ),
                final(self).rtt_samples@,
            ),
            (seq.is_some() && payload_len > 0 && !(is_ack && ack.is_some())) ==> has_pending(
                final(self).tcp_flows@,
                Direction { src: src_ip@, dst: dst_ip@, src_port, dst_port },
                pending_after(pending_of(old(self).tcp_flows@, Direction { src: src_ip@, dst: dst_ip@, src_port, dst_port }), seq.unwrap(), payload_len, now_us),
                now_us,
            ),
    {
        let key = TcpFlowKey::new(src_ip, dst_ip, src_port, dst_port);
        let ghost flows0 = self.tcp_flows@;
        proof {
            assert(dir_of(key) == Direction { src: src_ip@, dst: dst_ip@, src_port, dst_port });
        }
        if let Some(seq_num) = seq {
            if payload_len > 0 {
                let k2 = TcpFlowKey::new(src_ip, dst_ip, src_port, dst_port);
                self.add_pending(k2, seq_num, payload_len, now_us);
            }
        }
        proof {
            if !(src_ip@ == dst_ip@ && src_port == dst_port) {
                assert(dir_of(key) == Direction { src: src_ip@, dst: dst_ip@, src_port, dst_port });
                assert(!self_reverse(dir_of(key)));
                lemma_ack_outcome_frame(flows0, self.tcp_flows@, dir_of(key), ack.unwrap_or(0), now_us);
            }
        }
        if is_ack {
            if let Some(ack_num) = ack {
                self.match_ack(&key, ack_num, now_us, timestamp_us);
            }
        }
    }

    /// Drops the flows idle for at least a minute at `now_us`.
    pub fn cleanup_old_flows(&mut self, now_us: u64)
        requires
            old(self).wf(),
        ensures
            final(self).wf(),
            final(self).interval_samples == old(self).interval_samples,
            final(self).all_intervals == old(self).all_intervals,
            final(self).rtt_samples == old(self).rtt_samples,
            final(self).last_packet == old(self).last_packet,
            final(self).tcp_flows@ == old(self).tcp_flows@.filter(|f: TcpFlowState| elapsed(f.last_activity_us, now_us) < FLOW_IDLE_US),
    {
        let ghost all = self.tcp_flows@;
        let ghost keep = |f: TcpFlowState| elapsed(f.last_activity_us, now_us) < FLOW_IDLE_US;
        let n = self.tcp_flows.len();
        let mut kept: Vec<TcpFlowState> = Vec::new();
        assert(all.subrange(0, 0) =~= Seq::<TcpFlowState>::empty());
        assert(kept@ =~= all.subrange(0, 0).filter(keep));
        while self.tcp_flows.len() > 0
            invariant
                n == all.len(),
                self.tcp_flows@.len() <= n,
                self.tcp_flows@ == all.subrange(n - self.tcp_flows@.len(), n as int),
                kept@ == all.subrange(0, n - self.tcp_flows@.len()).filter(keep),
                forall|k: int| 0 <= k < all.len() ==> flow_wf(#[trigger] all[k]),
                keep == (|f: TcpFlowState| elapsed(f.last_activity_us, now_us) < FLOW_IDLE_US),
                self.interval_samples == old(self).interval_samples,
                self.all_intervals == old(self).all_intervals,
                self.rtt_samples == old(self).rtt_samples,
                self.last_packet == old(self).last_packet,
            decreases self.tcp_flows@.len(),
        {
            let ghost done = n - self.tcp_flows@.len();
            let f = self.tcp_flows.remove(0);
            proof {
                assert(f == all[done]);
                reveal(Seq::filter);
                assert(all.subrange(0, done + 1).drop_last() =~= all.subrange(0, done));
                assert(all.subrange(0, done + 1).last() == f);
                assert(self.tcp_flows@ =~= all.subrange(n - self.tcp_flows@.len(), n as int));
            }
            let last = f.last_activity_us;
            let idle = if now_us >= last { now_us - last } else { 0 };
            if idle < FLOW_IDLE_US {
                kept.push(f);
            }
        }
        assert(all.subrange(0, n as int) =~= all);
        proof {
            assert forall|k: int| 0 <= k < kept@.len() implies flow_wf(#[trigger] kept@[k]) by {
                assert(all.filter(keep).contains(kept@[k]));
                all.lemma_filter_contains_rev(keep, kept@[k]);
            }
        }
        self.tcp_flows = kept;
    }

    /// Accounts one frame captured at monotonic instant `capture_us`:
    /// appends its interval sample, feeds the statistics buffer, pairs TCP
    /// segments with acknowledgments, and every hundredth id reaps idle flows.
    pub fn process_packet(
        &mut self,
        packet_id: u64,
        timestamp_us: i64,
        capture_us: u64,
        length: u32,
        src: &str,
        dst: &str,
        protocol: &str,
        src_ip: Option<&str>,
        dst_ip: Option<&str>,
        src_port: Option<u16>,
        dst_port: Option<u16>,
        is_tcp: bool,
        tcp_seq: Option<u32>,
        tcp_ack: Option<u32>,
        tcp_flags_ack: bool,
        payload_len: u32,
    )
        requires
            old(self).wf(),
        ensures
            final(self).wf(),
            final(self).last_packet == Some((capture_us, timestamp_us)),
            final(self).interval_samples@ == keep_last(
                old(self).interval_samples@.push(final(self).interval_samples@.last()),
                MAX_INTERVAL_SAMPLES as nat,
            ),
            final(self).interval_samples@.len() > 0,
            ({
                let s = final(self).interval_samples@.last();
                &&& s.delta_us == delta_of(old(self).last_packet, capture_us)
                &&& s.timestamp_us == timestamp_us
                &&& s.packet_id == packet_id
                &&& s.length == length
                &&& s.src@ == src@ && s.dst@ == dst@ && s.protocol@ == protocol@
            }),
            delta_of(old(self).last_packet, capture_us) > 0 ==> final(self).all_intervals@ == keep_last(
                old(self).all_intervals@.push(delta_of(old(self).last_packet, capture_us)),
                MAX_STAT_VALUES as nat,
            ),
            delta_of(old(self).last_packet, capture_us) == 0 ==> final(self).all_intervals@
                == old(self).all_intervals@,
            final(self).rtt_samples@ == old(self).rtt_samples@ || (is_tcp && tcp_flags_ack
                && tcp_ack.is_some() && src_ip.is_some() && dst_ip.is_some() && src_port.is_some()
                && dst_port.is_some() && rtt_appended(
                old(self).rtt_samples@,
                final(self).rtt_samples@,
                timestamp_us,
                flow_text_of(dst_ip.unwrap()@, dst_port.unwrap(), src_ip.unwrap()@, src_port.unwrap()),
                capture_us,
            )),
            !(is_tcp && src_ip.is_some() && dst_ip.is_some() && src_port.is_some() && dst_port.is_some())
                ==> final(self).rtt_samples@ == old(self).rtt_samples@,
            (is_tcp && src_ip.is_some() && dst_ip.is_some() && src_port.is_some() && dst_port.is_some()
                && !(src_ip.unwrap()@ == dst_ip.unwrap()@ && src_port.unwrap() == dst_port.unwrap()))
                ==> rtt_after(
                old(self).rtt_samples@,
                if tcp_flags_ack { tcp_ack } else { None },
                ack_outcome(
                    old(self).tcp_flows@,
                    Direction { src: src_ip.unwrap()@, dst: dst_ip.unwrap()@, src_port: src_port.unwrap(), dst_port: dst_port.unwrap() },
                    tcp_ack.unwrap_or(0),
                    capture_us,
                ),
                final(self).rtt_samples@,
            ),
            (is_tcp && src_ip.is_some() && dst_ip.is_some() && src_port.is_some() && dst_port.is_some()
                && tcp_seq.is_some() && payload_len > 0 && !(tcp_flags_ack && tcp_ack.is_some())) ==> has_pending(
                final(self).tcp_flows@,
                Direction { src: src_ip.unwrap()@, dst: dst_ip.unwrap()@, src_port: src_port.unwrap(), dst_port: dst_port.unwrap() },
                pending_after(
                    pending_of(
                        old(self).tcp_flows@,
                        Direction { src: src_ip.unwrap()@, dst: dst_ip.unwrap()@, src_port: src_port.unwrap(), dst_port: dst_port.unwrap() },
                    ),
                    tcp_seq.unwrap(),
                    payload_len,
                    capture_us,
                ),
                capture_us,
            ),
    {
        let delta_us: u64 = match self.last_packet {
            Some((last, _)) => if capture_us >= last { capture_us - last } else { 0 },
            None => 0,
        };
        self.last_packet = Some((capture_us, timestamp_us));
        let sample = IntervalSample {
            timestamp_us,
            delta_us,
            packet_id,
            src: String::from_str(src),
            dst: String::from_str(dst),
            protocol: String::from_str(protocol),
            length,
        };
        push_bounded(&mut self.interval_samples, sample, MAX_INTERVAL_SAMPLES);
        if delta_us > 0 {
            push_bounded(&mut self.all_intervals, delta_us, MAX_STAT_VALUES);
        }
        if is_tcp {
            match (src_ip, dst_ip, src_port, dst_port) {
                (Some(sip), Some(dip), Some(sp), Some(dp)) => {
                    self.track_tcp_rtt(
                        sip,
                        dip,
                        sp,
                        dp,
                        tcp_seq,
                        tcp_ack,
                        tcp_flags_ack,
                        payload_len,
                        capture_us,
                        timestamp_us,
                    );
                },
                _ => {},
            }
        }
        let ghost mid = self.tcp_flows@;
        if packet_id % 100 == 0 {
            self.cleanup_old_flows(capture_us);
            proof {
                if is_tcp && src_ip.is_some() && dst_ip.is_some() && src_port.is_some() && dst_port.is_some()
                    && tcp_seq.is_some() && payload_len > 0 && !(tcp_flags_ack && tcp_ack.is_some()) {
                    let d = Direction { src: src_ip.unwrap()@, dst: dst_ip.unwrap()@, src_port: src_port.unwrap(), dst_port: dst_port.unwrap() };
                    let want = pending_after(pending_of(old(self).tcp_flows@, d), tcp_seq.unwrap(), payload_len, capture_us);
                    assert(has_pending(mid, d, want, capture_us));
                    let i = choose|i: int| 0 <= i < mid.len() && names((#[trigger] mid[i]).key, d) && mid[i].pending@ == want
                        && mid[i].last_activity_us == capture_us;
                    let keep = |f: TcpFlowState| elapsed(f.last_activity_us, capture_us) < FLOW_IDLE_US;
                    assert(keep(mid[i]));
                    mid.lemma_filter_contains(keep, i);
                    assert(self.tcp_flows@ == mid.filter(keep));
                    let j = choose|j: int| 0 <= j < self.tcp_flows@.len() && self.tcp_flows@[j] == mid[i];
                    assert(names(self.tcp_flows@[j].key, d));
                }
            }
        }
    }

    /// The most recent `limit` interval and RTT samples, oldest first, with
    /// statistics over the interval buffer and, if any, over the RTT samples.
    pub fn get_data(&self, limit: usize) -> (r: IntervalData)
        requires
            self.wf(),
        ensures
            r.intervals@ == keep_last(self.interval_samples@, limit as nat),
            r.rtt_samples@ == keep_last(self.rtt_samples@, limit as nat),
            stats_of(self.all_intervals@, r.interval_stats),
            r.rtt_stats.is_some() == (self.rtt_samples@.len() > 0),
            r.rtt_stats.is_some() ==> stats_of(
                self.rtt_samples@.map_values(|s: RttSample| s.rtt_us),
                r.rtt_stats.unwrap(),
            ),
    {
        let n = self.interval_samples.len();
        let start = if n > limit { n - limit } else { 0 };
        let mut intervals: Vec<IntervalSample> = Vec::new();
        let mut i = start;
        while i < n
            invariant
                n == self.interval_samples@.len(),
                start <= i <= n,
                intervals@ == self.interval_samples@.subrange(start as int, i as int),
            decreases n - i,
        {
            intervals.push(self.interval_samples[i].copy());
            i = i + 1;
            assert(intervals@ =~= self.interval_samples@.subrange(start as int, i as int));
        }
        assert(intervals@ =~= keep_last(self.interval_samples@, limit as nat));

        let m = self.rtt_samples.len();
        let start2 = if m > limit { m - limit } else { 0 };
        let mut rtts: Vec<RttSample> = Vec::new();
        let mut values: Vec<u64> = Vec::new();
        let mut j: usize = 0;
        while j < m
            invariant
                m == self.rtt_samples@.len(),
                start2 <= m,
                j <= m,
                j <= start2 ==> rtts@.len() == 0,
                j > start2 ==> rtts@ == self.rtt_samples@.subrange(start2 as int, j as int),
                values@ == self.rtt_samples@.subrange(0, j as int).map_values(|s: RttSample| s.rtt_us),
            decreases m - j,
        {
            if j >= start2 {
                rtts.push(self.rtt_samples[j].copy());
                assert(rtts@ =~= self.rtt_samples@.subrange(start2 as int, j + 1));
            }
            values.push(self.rtt_samples[j].rtt_us);
            j = j + 1;
            assert(values@ =~= self.rtt_samples@.subrange(0, j as int).map_values(|s: RttSample| s.rtt_us));
        }
        assert(self.rtt_samples@.subrange(0, m as int) =~= self.rtt_samples@);
        assert(rtts@ =~= keep_last(self.rtt_samples@, limit as nat));

        let interval_stats = calculate_stats(self.all_intervals.as_slice());
        let rtt_stats = if m > 0 {
            Some(calculate_stats(values.as_slice()))
        } else {
            None
        };
        IntervalData { intervals, rtt_samples: rtts, interval_stats, rtt_stats }
    }

    /// Forgets all samples and flows.
    pub fn reset(&mut self)
        ensures
            final(self).wf(),
            final(self).last_packet.is_none(),
            final(self).interval_samples@.len() == 0,
            final(self).tcp_flows@.len() == 0,
            final(self).rtt_samples@.len() == 0,
            final(self).all_intervals@.len() == 0,
    {
        self.last_packet = None;
        self.interval_samples.clear();
        self.tcp_flows.clear();
        self.rtt_samples.clear();
        self.all_intervals.clear();
    }

    /// The values that the interval statistics are computed over.
    pub fn stat_values(&self) -> (r: Vec<u64>)
        ensures
            r@ == self.all_intervals@,
    {
        crate::packet::copy_bytes_u64(self.all_intervals.as_slice())
    }
}

impl Default for IntervalTracker {
    fn default() -> (r: IntervalTracker)
        ensures
            r.wf() && r.last_packet.is_none() && r.rtt_samples@.len() == 0 && r.interval_samples@.len() == 0,
    {
        IntervalTracker::new()
    }
}

} // verus!
