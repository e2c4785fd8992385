//! The IO graph: packets and bytes of the capture store per time bucket,
//! and per-protocol tallies.
use vstd::prelude::*;
use vstd::seq_lib::*;
use crate::capture::{CaptureManager, MAX_PACKETS_BUFFER};
use crate::packet::CapturedPacket;

verus! {

broadcast use vstd::seq_lib::group_to_multiset_ensures;

pub const DEFAULT_BUCKET_MS: u64 = 100;
pub const MAX_BUCKET_MS: u64 = 60000;

pub struct IoGraphBucket {
    /// Start of the bucket, in milliseconds after the first record.
    pub time_ms: u64,
    pub packets: u64,
    pub bytes: u64,
}

pub struct ProtocolCount {
    pub protocol: String,
    pub count: u64,
    pub bytes: u64,
}

/// Buckets and tallies; the average rate follows from `total_packets` and
/// `duration_ms`.
pub struct IoGraphData {
    pub buckets: Vec<IoGraphBucket>,
    pub total_packets: u64,
    pub total_bytes: u64,
    pub duration_ms: u64,
    pub peak_pps: u64,
    pub protocols: Vec<ProtocolCount>,
}

/// The bucket width asked for, 100 ms by default, kept within 1 to 60000 ms.
pub fn bucket_width(requested: Option<u64>) -> (r: u64)
    ensures
        1 <= r <= MAX_BUCKET_MS,
        requested.is_none() ==> r == DEFAULT_BUCKET_MS,
        requested.is_some() ==> r == (if requested.unwrap() < 1 { 1 } else if requested.unwrap() > MAX_BUCKET_MS { MAX_BUCKET_MS } else { requested.unwrap() }),
{
    match requested {
        Some(v) => if v < 1 { 1 } else if v > MAX_BUCKET_MS { MAX_BUCKET_MS } else { v },
        None => DEFAULT_BUCKET_MS,
    }
}

/// Whole milliseconds from `a` to `b` (microseconds), zero when `b` is not later.
pub open spec fn ms_between(a: i64, b: i64) -> int {
    if b > a { (b - a) / 1000 } else { 0 }
}

fn millis_between(a: i64, b: i64) -> (r: u64)
    ensures
        r == ms_between(a, b),
{
    if b > a {
        let d: i128 = b as i128 - a as i128;
        (d / 1000) as u64
    } else {
        0
    }
}

pub open spec fn sum_lengths(ps: Seq<CapturedPacket>) -> int
    decreases ps.len(),
{
    if ps.len() == 0 { 0 } else { sum_lengths(ps.drop_last()) + ps.last().length }
}

/// Records of `ps` whose offset from `start` falls in bucket `j` of width `w` ms.
pub open spec fn bucket_packets(ps: Seq<CapturedPacket>, start: i64, w: u64, j: int) -> int
    decreases ps.len(),
{
    if ps.len() == 0 {
        0
    } else {
        bucket_packets(ps.drop_last(), start, w, j) + if ms_between(start, ps.last().timestamp_us) / (w as int) == j { 1int } else { 0int }
    }
}

/// Bytes of the records of `ps` in bucket `j` of width `w` ms.
pub open spec fn bucket_bytes(ps: Seq<CapturedPacket>, start: i64, w: u64, j: int) -> int
    decreases ps.len(),
{
    if ps.len() == 0 {
        0
    } else {
        bucket_bytes(ps.drop_last(), start, w, j) + if ms_between(start, ps.last().timestamp_us) / (w as int) == j {
            ps.last().length as int
        } else {
            0int
        }
    }
}

/// `m` is the most packets in any bucket (zero without buckets).
pub open spec fn is_peak(buckets: Seq<IoGraphBucket>, m: u64) -> bool {
    (forall|i: int| 0 <= i < buckets.len() ==> (#[trigger] buckets[i]).packets <= m) && (m == 0 || exists|i: int|
        0 <= i < buckets.len() && (#[trigger] buckets[i]).packets == m)
}

/// The protocol name a record is tallied under.
pub open spec fn name_of(p: CapturedPacket) -> Seq<char> {
    match p.info.protocol {
        Some(s) => s@,
        None => p.info.ethertype_name@,
    }
}

/// Records of `ps` tallied under `n`.
pub open spec fn count_named(ps: Seq<CapturedPacket>, n: Seq<char>) -> int
    decreases ps.len(),
{
    if ps.len() == 0 { 0 } else { count_named(ps.drop_last(), n) + if name_of(ps.last()) == n { 1int } else { 0int } }
}

/// Bytes of the records of `ps` tallied under `n`.
pub open spec fn bytes_named(ps: Seq<CapturedPacket>, n: Seq<char>) -> int
    decreases ps.len(),
{
    if ps.len() == 0 { 0 } else { bytes_named(ps.drop_last(), n) + if name_of(ps.last()) == n { ps.last().length as int } else { 0int } }
}

/// Tallies under distinct names that count exactly the records of their
/// names, every record's name having one.
pub open spec fn tallies_of(ts: Seq<ProtocolCount>, ps: Seq<CapturedPacket>) -> bool {
    &&& tallies_exact(ts, ps)
    &&& forall|i: int, j: int| 0 <= i < j < ts.len() ==> (#[trigger] ts[i]).protocol@ != (#[trigger] ts[j]).protocol@
}

/// Each tally counts exactly the records of its name, and every record's
/// name has a tally.
pub open spec fn tallies_exact(ts: Seq<ProtocolCount>, ps: Seq<CapturedPacket>) -> bool {
    &&& forall|k: int| 0 <= k < ts.len() ==> (#[trigger] ts[k]).count == count_named(ps, ts[k].protocol@)
        && ts[k].bytes == bytes_named(ps, ts[k].protocol@)
    &&& forall|i: int| 0 <= i < ps.len() ==> has_tally(ts, name_of(#[trigger] ps[i]))
}

/// Some tally is kept under name `n`.
pub open spec fn has_tally(ts: Seq<ProtocolCount>, n: Seq<char>) -> bool {
    exists|k: int| 0 <= k < ts.len() && (#[trigger] ts[k]).protocol@ == n
}

proof fn lemma_named_zero(ps: Seq<CapturedPacket>, n: Seq<char>)
    requires
        forall|i: int| 0 <= i < ps.len() ==> name_of(#[trigger] ps[i]) != n,
    ensures
        count_named(ps, n) == 0,
        bytes_named(ps, n) == 0,
    decreases ps.len(),
{
    if ps.len() > 0 {
        assert forall|i: int| 0 <= i < ps.drop_last().len() implies name_of(#[trigger] ps.drop_last()[i]) != n by {
            assert(ps.drop_last()[i] == ps[i]);
        }
        lemma_named_zero(ps.drop_last(), n);
        assert(name_of(ps[ps.len() - 1]) != n);
    }
}

proof fn lemma_tallies_permuted(a: Seq<ProtocolCount>, b: Seq<ProtocolCount>, ps: Seq<CapturedPacket>)
    requires
        tallies_of(a, ps),
        a.to_multiset() == b.to_multiset(),
    ensures
        tallies_exact(b, ps),
{
    assert forall|k: int| 0 <= k < b.len() implies (#[trigger] b[k]).count == count_named(ps, b[k].protocol@)
        && b[k].bytes == bytes_named(ps, b[k].protocol@) by {
        to_multiset_contains(b, b[k]);
        assert(b.contains(b[k]));
        to_multiset_contains(a, b[k]);
        let j = choose|j: int| 0 <= j < a.len() && a[j] == b[k];
    }
    assert forall|i: int| 0 <= i < ps.len() implies has_tally(b, name_of(#[trigger] ps[i])) by {
        let j = choose|j: int| 0 <= j < a.len() && (#[trigger] a[j]).protocol@ == name_of(ps[i]);
        to_multiset_contains(a, a[j]);
        assert(a.contains(a[j]));
        to_multiset_contains(b, a[j]);
        assert(b.to_multiset().count(a[j]) > 0);
        assert(b.contains(a[j]));
        let k = choose|k: int| 0 <= k < b.len() && b[k] == a[j];
        assert(0 <= k < b.len() && b[k].protocol@ == name_of(ps[i]));
    }
}

pub open spec fn sum_counts(ps: Seq<ProtocolCount>) -> int
    decreases ps.len(),
{
    if ps.len() == 0 { 0 } else { sum_counts(ps.drop_last()) + ps.last().count }
}

pub open spec fn counts_descending(ps: Seq<ProtocolCount>) -> bool {
    forall|i: int, j: int| 0 <= i < j < ps.len() ==> ps[i].count >= ps[j].count
}

proof fn lemma_sum_counts_update(ps: Seq<ProtocolCount>, k: int, c: ProtocolCount)
    requires
        0 <= k < ps.len(),
    ensures
        sum_counts(ps.update(k, c)) == sum_counts(ps) - ps[k].count + c.count,
    decreases ps.len(),
{
    if k < ps.len() - 1 {
        assert(ps.update(k, c).drop_last() =~= ps.drop_last().update(k, c));
        lemma_sum_counts_update(ps.drop_last(), k, c);
    } else {
        assert(ps.update(k, c).drop_last() =~= ps.drop_last());
    }
}

proof fn lemma_sum_counts_insert(ps: Seq<ProtocolCount>, k: int, c: ProtocolCount)
    requires
        0 <= k <= ps.len(),
    ensures
        sum_counts(ps.insert(k, c)) == sum_counts(ps) + c.count,
    decreases ps.len(),
{
    if k == ps.len() {
        assert(ps.insert(k, c) =~= ps.push(c));
        assert(ps.push(c).drop_last() =~= ps);
    } else {
        assert(ps.insert(k, c).drop_last() =~= ps.drop_last().insert(k, c));
        lemma_sum_counts_insert(ps.drop_last(), k, c);
    }
}

/// Adds one record of `length` bytes to the tally of `name`.
fn tally(protocols: &mut Vec<ProtocolCount>, name: String, length: u32, Ghost(ps): Ghost<Seq<CapturedPacket>>, Ghost(p): Ghost<CapturedPacket>)
    requires
        sum_counts(old(protocols)@) < u64::MAX,
        forall|i: int| 0 <= i < old(protocols)@.len() ==> (#[trigger] old(protocols)@[i]).bytes + length <= u64::MAX,
        tallies_of(old(protocols)@, ps),
        name@ == name_of(p),
        length == p.length,
    ensures
        tallies_of(final(protocols)@, ps.push(p)),
        sum_counts(final(protocols)@) == sum_counts(old(protocols)@) + 1,
        forall|i: int| 0 <= i < final(protocols)@.len() ==> (#[trigger] final(protocols)@[i]).bytes <= (if i < old(protocols)@.len() { old(protocols)@[i].bytes as int } else { 0 }) + length,
{
    let mut i: usize = 0;
    while i < protocols.len()
        invariant
            i <= protocols@.len(),
            protocols@ == old(protocols)@,
            sum_counts(old(protocols)@) < u64::MAX,
            forall|i: int| 0 <= i < old(protocols)@.len() ==> (#[trigger] old(protocols)@[i]).bytes + length <= u64::MAX,
            forall|k: int| 0 <= k < i ==> (#[trigger] protocols@[k]).protocol@ != name@,
            tallies_of(old(protocols)@, ps),
            name@ == name_of(p),
            length == p.length,
        decreases protocols@.len() - i,
    {
        if protocols[i].protocol == name {
            let ghost before = protocols@;
            let mut e = protocols.remove(i);
            proof { lemma_count_le_sum(before, i as int); }
            e.count = e.count + 1;
            e.bytes = e.bytes + length as u64;
            protocols.insert(i, e);
            proof {
                assert(protocols@ =~= before.update(i as int, e));
                lemma_sum_counts_update(before, i as int, e);
                let q = ps.push(p);
                assert(q.drop_last() =~= ps);
                assert forall|k: int| 0 <= k < protocols@.len() implies (#[trigger] protocols@[k]).count == count_named(q, protocols@[k].protocol@)
                    && protocols@[k].bytes == bytes_named(q, protocols@[k].protocol@) by {
                    if k != i {
                        assert(protocols@[k] == before[k]);
                    }
                }
                assert forall|j: int| 0 <= j < q.len() implies has_tally(protocols@, name_of(#[trigger] q[j])) by {
                    if j < ps.len() {
                        assert(q[j] == ps[j]);
                        let k = choose|k: int| 0 <= k < before.len() && (#[trigger] before[k]).protocol@ == name_of(ps[j]);
                        assert(protocols@[k].protocol@ == before[k].protocol@);
                    } else {
                        assert(protocols@[i as int].protocol@ == name_of(q[j]));
                    }
                }
            }
            return;
        }
        i = i + 1;
    }
    let ghost before = protocols@;
    proof {
        assert forall|j: int| 0 <= j < ps.len() implies name_of(#[trigger] ps[j]) != name@ by {
            let k = choose|k: int| 0 <= k < before.len() && (#[trigger] before[k]).protocol@ == name_of(ps[j]);
        }
        lemma_named_zero(ps, name@);
    }
    protocols.push(ProtocolCount { protocol: name, count: 1, bytes: length as u64 });
    proof {
        assert(protocols@.drop_last() =~= before);
        let q = ps.push(p);
        assert(q.drop_last() =~= ps);
        assert forall|k: int| 0 <= k < protocols@.len() implies (#[trigger] protocols@[k]).count == count_named(q, protocols@[k].protocol@)
            && protocols@[k].bytes == bytes_named(q, protocols@[k].protocol@) by {
            if k < before.len() {
                assert(protocols@[k] == before[k]);
            }
        }
        assert forall|j: int| 0 <= j < q.len() implies has_tally(protocols@, name_of(#[trigger] q[j])) by {
            if j < ps.len() {
                assert(q[j] == ps[j]);
                let k = choose|k: int| 0 <= k < before.len() && (#[trigger] before[k]).protocol@ == name_of(ps[j]);
                assert(protocols@[k] == before[k]);
            } else {
                assert(protocols@[before.len() as int].protocol@ == name_of(q[j]));
            }
        }
    }
}

proof fn lemma_count_le_sum(ps: Seq<ProtocolCount>, k: int)
    requires
        0 <= k < ps.len(),
    ensures
        ps[k].count <= sum_counts(ps),
    decreases ps.len(),
{
    lemma_sum_counts_nonneg(ps.drop_last());
    if k < ps.len() - 1 {
        lemma_count_le_sum(ps.drop_last(), k);
    }
}

proof fn lemma_sum_counts_nonneg(ps: Seq<ProtocolCount>)
    ensures
        sum_counts(ps) >= 0,
    decreases ps.len(),
{
    if ps.len() > 0 {
        lemma_sum_counts_nonneg(ps.drop_last());
    }
}

/// The tallies ordered by count, largest first; equal counts keep their order.
fn sort_by_count(protocols: Vec<ProtocolCount>) -> (r: Vec<ProtocolCount>)
    ensures
        counts_descending(r@),
        sum_counts(r@) == sum_counts(protocols@),
        r@.len() == protocols@.len(),
        r@.to_multiset() == protocols@.to_multiset(),
{
    let mut src = protocols;
    let mut out: Vec<ProtocolCount> = Vec::new();
    let ghost total = sum_counts(src@);
    while src.len() > 0
        invariant
            counts_descending(out@),
            sum_counts(out@) + sum_counts(src@) == total,
            out@.len() + src@.len() == protocols@.len(),
            out@.to_multiset().add(src@.to_multiset()) == protocols@.to_multiset(),
        decreases src@.len(),
    {
        let ghost sb = src@;
        let e = src.pop().unwrap();
        proof {
            assert(sb.drop_last() =~= src@);
            assert(sb =~= src@.push(e));
            to_multiset_build(src@, e);
        }
        let mut pos: usize = 0;
        while pos < out.len() && out[pos].count >= e.count
            invariant
                pos <= out@.len(),
                forall|k: int| 0 <= k < pos ==> (#[trigger] out@[k]).count >= e.count,
            decreases out@.len() - pos,
        {
            pos = pos + 1;
        }
        let ghost before = out@;
        out.insert(pos, e);
        proof {
            to_multiset_insert(before, pos as int, e);
            assert(out@.to_multiset().add(src@.to_multiset()) =~= before.to_multiset().add(sb.to_multiset()));
            lemma_sum_counts_insert(before, pos as int, e);
            assert forall|a: int, b: int| 0 <= a < b < out@.len() implies out@[a].count >= out@[b].count by {
                if b < pos {
                } else if a < pos && b == pos {
                } else if a < pos && b > pos {
                    assert(out@[b] == before[b - 1]);
                } else if a == pos {
                    assert(out@[b] == before[b - 1]);
                    assert(!(before[pos as int].count >= e.count));
                    assert(before[pos as int].count >= before[b - 1].count);
                } else {
                    assert(out@[a] == before[a - 1]);
                    assert(out@[b] == before[b - 1]);
                }
            }
        }
    }
    assert(src@.to_multiset() =~= vstd::multiset::Multiset::<ProtocolCount>::empty());
    assert(out@.to_multiset().add(src@.to_multiset()) =~= out@.to_multiset());
    out
}

impl CaptureManager {
    /// Packets and bytes of the stored records per bucket of `interval_ms`
    /// milliseconds from the first record, with per-protocol tallies largest
    /// first. An empty store gives no buckets and no protocols.
    pub fn io_graph(&self, interval_ms: u64) -> (r: IoGraphData)
        requires
            self.wf(),
            1 <= interval_ms <= MAX_BUCKET_MS,
        ensures
            self.packets@.len() == 0 ==> r.buckets@.len() == 0 && r.protocols@.len() == 0 && r.total_packets == 0
                && r.total_bytes == 0 && r.duration_ms == 0 && r.peak_pps == 0,
            self.packets@.len() > 0 ==> {
                let d = ms_between(self.packets@[0].timestamp_us, self.packets@.last().timestamp_us);
                let dur = if d < 1 { 1 } else { d };
                &&& r.duration_ms == dur
                &&& r.buckets@.len() == dur / interval_ms as int + 1
                &&& forall|i: int| 0 <= i < r.buckets@.len() ==> (#[trigger] r.buckets@[i]).time_ms == i * interval_ms
                &&& forall|i: int| 0 <= i < r.buckets@.len() ==> (#[trigger] r.buckets@[i]).packets == bucket_packets(
                    self.packets@,
                    self.packets@[0].timestamp_us,
                    interval_ms,
                    i,
                ) && r.buckets@[i].bytes == bucket_bytes(self.packets@, self.packets@[0].timestamp_us, interval_ms, i)
                &&& exists|m: u64| #[trigger] is_peak(r.buckets@, m) && r.peak_pps == m * (1000u64 / interval_ms)
            },
            r.total_packets == self.packets@.len(),
            r.total_bytes == sum_lengths(self.packets@),
            sum_counts(r.protocols@) == self.packets@.len(),
            tallies_exact(r.protocols@, self.packets@),
            counts_descending(r.protocols@),
    {
        let n = self.packets.len();
        if n == 0 {
            let r = IoGraphData {
                buckets: Vec::new(),
                total_packets: 0,
                total_bytes: 0,
                duration_ms: 0,
                peak_pps: 0,
                protocols: Vec::new(),
            };
            assert(r.protocols@ =~= Seq::<ProtocolCount>::empty());
            assert(self.packets@ =~= Seq::<CapturedPacket>::empty());
            return r;
        }
        let start = self.packets[0].timestamp_us;
        let end = self.packets[n - 1].timestamp_us;
        let d = millis_between(start, end);
        let duration_ms = if d < 1 { 1 } else { d };
        let num_buckets: u64 = duration_ms / interval_ms + 1;
        let mut buckets: Vec<IoGraphBucket> = Vec::new();
        let mut k: u64 = 0;
        while k < num_buckets
            invariant
                k <= num_buckets,
                num_buckets == duration_ms / interval_ms + 1,
                1 <= interval_ms,
                buckets@.len() == k,
                forall|i: int| 0 <= i < k ==> (#[trigger] buckets@[i]).time_ms == i * interval_ms && buckets@[i].packets == 0 && buckets@[i].bytes == 0,
            decreases num_buckets - k,
        {
            assert(k * interval_ms <= duration_ms) by (nonlinear_arith)
                requires k < num_buckets, num_buckets == duration_ms / interval_ms + 1, 1 <= interval_ms;
            buckets.push(IoGraphBucket { time_ms: k * interval_ms, packets: 0, bytes: 0 });
            k = k + 1;
        }
        let mut protocols: Vec<ProtocolCount> = Vec::new();
        let mut total_bytes: u64 = 0;
        let mut i: usize = 0;
        assert(self.packets@.subrange(0, 0) =~= Seq::<CapturedPacket>::empty());
        assert(protocols@ =~= Seq::<ProtocolCount>::empty());
        while i < n
            invariant
                n == self.packets@.len() <= MAX_PACKETS_BUFFER,
                i <= n,
                1 <= interval_ms,
                total_bytes == sum_lengths(self.packets@.subrange(0, i as int)),
                total_bytes <= i * 0x1_0000_0000,
                sum_counts(protocols@) == i,
                tallies_of(protocols@, self.packets@.subrange(0, i as int)),
                forall|j: int| 0 <= j < protocols@.len() ==> (#[trigger] protocols@[j]).bytes <= i * 0x1_0000_0000,
                buckets@.len() == num_buckets,
                forall|j: int| 0 <= j < buckets@.len() ==> (#[trigger] buckets@[j]).time_ms == j * interval_ms
                    && buckets@[j].packets <= i && buckets@[j].bytes <= i * 0x1_0000_0000,
                start == self.packets@[0].timestamp_us,
                n > 0,
                forall|j: int| 0 <= j < buckets@.len() ==> (#[trigger] buckets@[j]).packets == bucket_packets(
                    self.packets@.subrange(0, i as int),
                    start,
                    interval_ms,
                    j,
                ) && buckets@[j].bytes == bucket_bytes(self.packets@.subrange(0, i as int), start, interval_ms, j),
            decreases n - i,
        {
            let p = &self.packets[i];
            let off = millis_between(start, p.timestamp_us);
            let idx = off / interval_ms;
            let ghost pre = self.packets@.subrange(0, i as int);
            let ghost cur = self.packets@.subrange(0, i + 1);
            proof {
                assert(cur.drop_last() =~= pre);
                assert(cur.last() == *p);
            }
            if idx < buckets.len() as u64 {
                let ghost bb = buckets@;
                let mut b = buckets.remove(idx as usize);
                b.packets = b.packets + 1;
                b.bytes = b.bytes + p.length as u64;
                buckets.insert(idx as usize, b);
                assert forall|j: int| 0 <= j < buckets@.len() implies (#[trigger] buckets@[j]).time_ms == j * interval_ms
                    && buckets@[j].packets <= i + 1 && buckets@[j].bytes <= (i + 1) * 0x1_0000_0000
                    && buckets@[j].packets == bucket_packets(cur, start, interval_ms, j)
                    && buckets@[j].bytes == bucket_bytes(cur, start, interval_ms, j) by {
                    if j != idx {
                        assert(buckets@[j] == bb[j]);
                    }
                }
            } else {
                assert forall|j: int| 0 <= j < buckets@.len() implies (#[trigger] buckets@[j]).packets == bucket_packets(cur, start, interval_ms, j)
                    && buckets@[j].bytes == bucket_bytes(cur, start, interval_ms, j) by {}
            }
            total_bytes = total_bytes + p.length as u64;
            let name = match &p.info.protocol {
                Some(s) => s.clone(),
                None => p.info.ethertype_name.clone(),
            };
            let ghost pb = protocols@;
            proof {
                assert(self.packets@.subrange(0, i + 1) =~= self.packets@.subrange(0, i as int).push(*p));
            }
            tally(&mut protocols, name, p.length, Ghost(self.packets@.subrange(0, i as int)), Ghost(*p));
            assert(self.packets@.subrange(0, i + 1).drop_last() =~= self.packets@.subrange(0, i as int));
            i = i + 1;
        }
        assert(self.packets@.subrange(0, n as int) =~= self.packets@);
        let mut peak: u64 = 0;
        let mut j: usize = 0;
        while j < buckets.len()
            invariant
                j <= buckets@.len(),
                peak <= n,
                forall|t: int| 0 <= t < buckets@.len() ==> (#[trigger] buckets@[t]).packets <= n,
                forall|t: int| 0 <= t < j ==> (#[trigger] buckets@[t]).packets <= peak,
                peak == 0 || exists|t: int| 0 <= t < j && (#[trigger] buckets@[t]).packets == peak,
            decreases buckets@.len() - j,
        {
            if buckets[j].packets > peak {
                peak = buckets[j].packets;
            }
            j = j + 1;
        }
        let per_second = 1000 / interval_ms;
        assert(peak * per_second <= 100000 * 1000) by (nonlinear_arith)
            requires peak <= 100000, per_second <= 1000;
        assert(peak * per_second == peak * (1000u64 / interval_ms));
        assert(is_peak(buckets@, peak));

        let ghost tallied = protocols@;
        let r = IoGraphData {
            buckets,
            total_packets: n as u64,
            total_bytes,
            duration_ms,
            peak_pps: peak * per_second,
            protocols: sort_by_count(protocols),
        };
        assert(is_peak(r.buckets@, peak) && r.peak_pps == peak * (1000u64 / interval_ms));
        proof {
            lemma_tallies_permuted(tallied, r.protocols@, self.packets@);
        }
        r
    }
}

} // verus!
