//! TAS analysis: per-queue inter-arrival tracking and gate-cycle detection.
//!
//! Intervals are microseconds; cycle bins are tenths of a millisecond.
use vstd::prelude::*;
use crate::interval::{keep_last, push_bounded};
use crate::packet::CapturedPacket;

verus! {

pub const MAX_TAS_SAMPLES: usize = 1000;
/// Detection starts once this many intervals are known.
pub const MIN_CYCLE_SAMPLES: usize = 100;
/// Intervals of ten seconds or more are discarded.
pub const TAS_INTERVAL_LIMIT_US: u64 = 10000000;

#[derive(Clone, Copy, Debug)]
pub struct GateEntry {
    /// Bitmask of open gates.
    pub gate_states: u8,
    pub time_interval_ns: u32,
}

#[derive(Clone, Debug)]
pub struct TasSchedule {
    pub cycle_time_ns: u64,
    pub cycle_time_extension_ns: u32,
    pub base_time_us: Option<i64>,
    pub entries: Vec<GateEntry>,
}

pub struct QueueTracker {
    pub queue: u8,
    pub packets: u64,
    pub bytes: u64,
    pub last_us: Option<i64>,
    pub inter_arrival_us: Vec<u64>,
}

pub struct CycleDetector {
    pub samples: Vec<u64>,
    /// Detected cycle in tenths of a millisecond.
    pub detected_bin: Option<u64>,
}

pub struct TasAnalyzer {
    pub total_packets: u64,
    pub total_bytes: u64,
    pub queues: Vec<QueueTracker>,
    pub cycle_detector: CycleDetector,
    pub schedule: Option<TasSchedule>,
}

/// The 0.1 ms bin of an interval, rounded half up.
pub open spec fn bin_of(us: u64) -> u64 {
    ((us + 50) / 100) as u64
}

pub open spec fn bins_of(s: Seq<u64>) -> Seq<u64> {
    s.map_values(|x: u64| bin_of(x))
}

pub open spec fn count_of(s: Seq<u64>, b: u64) -> nat {
    s.filter(|x: u64| x == b).len()
}

/// `b` is the smallest most frequent bin of `s`, and it holds more than a
/// tenth of the samples.
pub open spec fn is_cycle(s: Seq<u64>, b: u64) -> bool {
    let bins = bins_of(s);
    &&& bins.contains(b)
    &&& count_of(bins, b) > s.len() / 10
    &&& forall|c: u64| count_of(bins, c) <= count_of(bins, b)
    &&& forall|c: u64| c < b ==> count_of(bins, c) < count_of(bins, b)
}

/// The detection after running on samples `s`: the cycle bin when there is
/// one, the earlier detection otherwise.
pub open spec fn detection_after(s: Seq<u64>, before: Option<u64>, after: Option<u64>) -> bool {
    &&& forall|b: u64| is_cycle(s, b) ==> after == Some(b)
    &&& (forall|b: u64| !is_cycle(s, b)) ==> after == before
}

/// The interval since a queue's previous frame, when it lies strictly
/// between zero and ten seconds.
pub open spec fn tas_gap(last: Option<i64>, now_us: i64) -> Option<u64> {
    match last {
        Some(l) => if 0 < now_us - l < TAS_INTERVAL_LIMIT_US { Some((now_us - l) as u64) } else { None },
        None => None,
    }
}

/// Queue `after` is `before` (or a fresh queue) after one frame of `len`
/// bytes at `now_us`.
pub open spec fn queue_step(before: Option<QueueTracker>, after: QueueTracker, len: u32, now_us: i64) -> bool {
    let (packets, bytes, last, gaps) = match before {
        Some(q) => (q.packets, q.bytes, q.last_us, q.inter_arrival_us@),
        None => (0u64, 0u64, None, Seq::<u64>::empty()),
    };
    &&& after.packets == packets + 1
    &&& after.bytes == bytes + len
    &&& after.last_us == Some(now_us)
    &&& after.inter_arrival_us@ == match tas_gap(last, now_us) {
        Some(g) => keep_last(gaps.push(g), MAX_TAS_SAMPLES as nat),
        None => gaps,
    }
}

/// How often `b` occurs in `s`.
fn count_bin(s: &Vec<u64>, b: u64) -> (r: u64)
    requires
        s@.len() <= MAX_TAS_SAMPLES,
    ensures
        r == count_of(s@, b),
{
    let mut c: u64 = 0;
    let mut i: usize = 0;
    while i < s.len()
        invariant
            i <= s@.len() <= MAX_TAS_SAMPLES,
            c == count_of(s@.subrange(0, i as int), b),
            c <= i,
        decreases s@.len() - i,
    {
        proof {
            reveal(Seq::filter);
            assert(s@.subrange(0, i + 1).drop_last() =~= s@.subrange(0, i as int));
        }
        if s[i] == b {
            c = c + 1;
        }
        i = i + 1;
    }
    assert(s@.subrange(0, s@.len() as int) =~= s@);
    c
}

proof fn lemma_count_zero_if_absent(s: Seq<u64>, b: u64)
    requires
        !s.contains(b),
    ensures
        count_of(s, b) == 0,
    decreases s.len(),
{
    reveal(Seq::filter);
    if s.len() > 0 {
        assert(!s.drop_last().contains(b)) by {
            if s.drop_last().contains(b) {
                let k = choose|k: int| 0 <= k < s.drop_last().len() && s.drop_last()[k] == b;
                assert(s[k] == b);
            }
        }
        lemma_count_zero_if_absent(s.drop_last(), b);
    }
}

proof fn lemma_count_positive(s: Seq<u64>, b: u64, k: int)
    requires
        0 <= k < s.len(),
        s[k] == b,
    ensures
        count_of(s, b) > 0,
    decreases s.len(),
{
    reveal(Seq::filter);
    if k < s.len() - 1 {
        lemma_count_positive(s.drop_last(), b, k);
    }
}

impl CycleDetector {
    pub fn new() -> (r: CycleDetector)
        ensures
            r.samples@.len() == 0,
            r.detected_bin.is_none(),
    {
        CycleDetector { samples: Vec::new(), detected_bin: None }
    }

    /// The smallest most frequent bin, if it holds more than a tenth of the
    /// samples; the detection is kept otherwise.
    fn detect_cycle(&mut self)
        requires
            old(self).samples@.len() <= MAX_TAS_SAMPLES,
        ensures
            final(self).samples == old(self).samples,
            detection_after(old(self).samples@, old(self).detected_bin, final(self).detected_bin),
    {
        let n = self.samples.len();
        let mut bins: Vec<u64> = Vec::new();
        let mut i: usize = 0;
        while i < n
            invariant
                n == self.samples@.len() <= MAX_TAS_SAMPLES,
                i <= n,
                bins@ == bins_of(self.samples@.subrange(0, i as int)),
            decreases n - i,
        {
            let x = self.samples[i];
            bins.push(x / 100 + if x % 100 >= 50 { 1 } else { 0 });
            i = i + 1;
            assert(bins@ =~= bins_of(self.samples@.subrange(0, i as int)));
        }
        assert(self.samples@.subrange(0, n as int) =~= self.samples@);
        if n == 0 {
            assert forall|b: u64| !is_cycle(self.samples@, b) by {
                assert(bins_of(self.samples@).len() == 0);
            }
            return;
        }
        let mut best: u64 = bins[0];
        let mut best_count: u64 = count_bin(&bins, best);
        let mut j: usize = 1;
        while j < n
            invariant
                n == bins@.len() <= MAX_TAS_SAMPLES,
                1 <= j <= n,
                bins@.contains(best),
                best_count == count_of(bins@, best),
                forall|k: int| 0 <= k < j ==> count_of(bins@, #[trigger] bins@[k]) <= best_count,
                forall|k: int| 0 <= k < j && count_of(bins@, bins@[k]) == best_count ==> best <= #[trigger] bins@[k],
            decreases n - j,
        {
            let b = bins[j];
            let c = count_bin(&bins, b);
            if c > best_count || (c == best_count && b < best) {
                best = b;
                best_count = c;
            }
            j = j + 1;
        }
        proof {
            assert forall|c: u64| count_of(bins@, c) <= count_of(bins@, best) by {
                if !bins@.contains(c) {
                    lemma_count_zero_if_absent(bins@, c);
                } else {
                    let k = choose|k: int| 0 <= k < bins@.len() && bins@[k] == c;
                }
            }
            assert forall|c: u64| c < best implies count_of(bins@, c) < count_of(bins@, best) by {
                if !bins@.contains(c) {
                    lemma_count_zero_if_absent(bins@, c);
                    assert(count_of(bins@, best) > 0) by {
                        let k = choose|k: int| 0 <= k < bins@.len() && bins@[k] == best;
                        lemma_count_positive(bins@, best, k);
                    }
                } else {
                    let k = choose|k: int| 0 <= k < bins@.len() && bins@[k] == c;
                    assert(count_of(bins@, bins@[k]) <= best_count);
                    if count_of(bins@, bins@[k]) == best_count {
                        assert(best <= bins@[k]);
                    }
                }
            }
        }
        proof {
            assert(bins@ == bins_of(self.samples@));
            assert forall|b: u64| is_cycle(self.samples@, b) implies b == best && best_count > n / 10 by {
                assert(count_of(bins@, b) <= best_count);
                if b < best {
                    assert(count_of(bins@, b) < count_of(bins@, best));
                } else if b > best {
                    assert(count_of(bins@, best) < count_of(bins@, b));
                }
            }
        }
        if best_count > (n as u64) / 10 {
            self.detected_bin = Some(best);
            assert(is_cycle(self.samples@, best));
        }
    }

    /// Adds one interval; detection runs once 100 intervals are known.
    pub fn add_sample(&mut self, interval_us: u64)
        requires
            old(self).samples@.len() <= MAX_TAS_SAMPLES,
        ensures
            final(self).samples@ == keep_last(old(self).samples@.push(interval_us), MAX_TAS_SAMPLES as nat),
            final(self).samples@.len() >= MIN_CYCLE_SAMPLES ==> detection_after(final(self).samples@, old(self).detected_bin, final(self).detected_bin),
            final(self).samples@.len() < MIN_CYCLE_SAMPLES ==> final(self).detected_bin == old(self).detected_bin,
    {
        push_bounded(&mut self.samples, interval_us, MAX_TAS_SAMPLES);
        if self.samples.len() >= MIN_CYCLE_SAMPLES {
            self.detect_cycle();
        }
    }
}

/// The effect of one frame `p` on an analyzer in state `a`, giving `b`.
pub open spec fn tas_step(a: TasAnalyzer, b: TasAnalyzer, p: CapturedPacket) -> bool {
    &&& b.total_packets == a.total_packets + 1
    &&& b.total_bytes == a.total_bytes + p.length
    &&& b.schedule == a.schedule
    &&& exists|i: int| 0 <= i < b.queues@.len()
        && (#[trigger] b.queues@[i]).queue == (match p.info.vlan_pcp { Some(p) => p, None => 0u8, })
        && queue_step( if i < a.queues@.len() { Some(a.queues@[i]) } else { None }, b.queues@[i], p.length, p.timestamp_us, )
        && (i >= a.queues@.len() ==> forall|k: int| 0 <= k < a.queues@.len() ==> (#[trigger] a.queues@[k]).queue != b.queues@[i].queue)
        && ({ let before_last = if i < a.queues@.len() { a.queues@[i].last_us } else { None }; match tas_gap(before_last, p.timestamp_us) { Some(g) => b.cycle_detector.samples@ == keep_last(a.cycle_detector.samples@.push(g), MAX_TAS_SAMPLES as nat)
        && (b.cycle_detector.samples@.len() >= MIN_CYCLE_SAMPLES ==> detection_after( b.cycle_detector.samples@, a.cycle_detector.detected_bin, b.cycle_detector.detected_bin, )), None => b.cycle_detector.samples == a.cycle_detector.samples
        && b.cycle_detector.detected_bin == a.cycle_detector.detected_bin, } })
    &&& forall|k: int| 0 <= k < a.queues@.len() ==> (#[trigger] b.queues@[k]).queue == a.queues@[k].queue
}

impl TasAnalyzer {
    pub open spec fn wf(&self) -> bool {
        &&& self.cycle_detector.samples@.len() <= MAX_TAS_SAMPLES
        &&& forall|i: int| 0 <= i < self.queues@.len() ==> (#[trigger] self.queues@[i]).packets <= self.total_packets
            && self.queues@[i].bytes <= self.total_bytes && self.queues@[i].inter_arrival_us@.len() <= MAX_TAS_SAMPLES
    }

    pub fn new() -> (r: TasAnalyzer)
        ensures
            r.wf(),
            r.total_packets == 0,
            r.total_bytes == 0,
            r.queues@.len() == 0,
            r.cycle_detector.detected_bin.is_none(),
    {
        TasAnalyzer { total_packets: 0, total_bytes: 0, queues: Vec::new(), cycle_detector: CycleDetector::new(), schedule: None }
    }

    /// Counts a frame on the queue of its priority (0 without a tag); an
    /// interval since the queue's previous frame strictly between zero and
    /// ten seconds is recorded and fed to cycle detection.
    pub fn process_packet(&mut self, packet: &CapturedPacket)
        requires
            old(self).wf(),
            old(self).total_packets < u64::MAX,
            old(self).total_bytes + packet.length <= u64::MAX,
        ensures
            tas_step(*old(self), *final(self), *packet),
            final(self).wf(),
            final(self).total_packets == old(self).total_packets + 1,
            final(self).total_bytes == old(self).total_bytes + packet.length,
            final(self).schedule == old(self).schedule,
            exists|i: int| 0 <= i < final(self).queues@.len() && (#[trigger] final(self).queues@[i]).queue == (match packet.info.vlan_pcp {
                Some(p) => p,
                None => 0u8,
            }) && queue_step(
                if i < old(self).queues@.len() { Some(old(self).queues@[i]) } else { None },
                final(self).queues@[i],
                packet.length,
                packet.timestamp_us,
            ) && (i >= old(self).queues@.len() ==> forall|k: int| 0 <= k < old(self).queues@.len() ==> (#[trigger] old(self).queues@[k]).queue != final(self).queues@[i].queue)
                && ({
                let before_last = if i < old(self).queues@.len() { old(self).queues@[i].last_us } else { None };
                match tas_gap(before_last, packet.timestamp_us) {
                    Some(g) => final(self).cycle_detector.samples@ == keep_last(old(self).cycle_detector.samples@.push(g), MAX_TAS_SAMPLES as nat)
                        && (final(self).cycle_detector.samples@.len() >= MIN_CYCLE_SAMPLES ==> detection_after(
                        final(self).cycle_detector.samples@,
                        old(self).cycle_detector.detected_bin,
                        final(self).cycle_detector.detected_bin,
                    )),
                    None => final(self).cycle_detector.samples == old(self).cycle_detector.samples
                        && final(self).cycle_detector.detected_bin == old(self).cycle_detector.detected_bin,
                }
            }),
            forall|k: int| 0 <= k < old(self).queues@.len() ==> (#[trigger] final(self).queues@[k]).queue == old(self).queues@[k].queue,
    {
        let q: u8 = match packet.info.vlan_pcp {
            Some(p) => p,
            None => 0,
        };
        self.total_packets = self.total_packets + 1;
        self.total_bytes = self.total_bytes + packet.length as u64;
        let mut idx: usize = 0;
        let mut found = false;
        while idx < self.queues.len() && !found
            invariant
                idx <= self.queues@.len(),
                found ==> idx < self.queues@.len() && self.queues@[idx as int].queue == q,
                forall|k: int| 0 <= k < idx ==> (#[trigger] self.queues@[k]).queue != q,
            decreases self.queues@.len() - idx + (if found { 0int } else { 1int }),
        {
            if self.queues[idx].queue == q {
                found = true;
            } else {
                idx = idx + 1;
            }
        }
        if !found {
            idx = self.queues.len();
            self.queues.push(QueueTracker { queue: q, packets: 0, bytes: 0, last_us: None, inter_arrival_us: Vec::new() });
        }
        let ghost mid = self.queues@;
        let ghost old_len = old(self).queues@.len();
        let mut t = self.queues.remove(idx);
        let ghost t0 = t;
        match t.last_us {
            Some(last) => {
                let gap: i128 = packet.timestamp_us as i128 - last as i128;
                if 0 < gap && gap < TAS_INTERVAL_LIMIT_US as i128 {
                    push_bounded(&mut t.inter_arrival_us, gap as u64, MAX_TAS_SAMPLES);
                    self.cycle_detector.add_sample(gap as u64);
                }
            },
            None => {},
        }
        t.packets = t.packets + 1;
        t.bytes = t.bytes + packet.length as u64;
        t.last_us = Some(packet.timestamp_us);
        self.queues.insert(idx, t);
        assert forall|i: int| 0 <= i < self.queues@.len() implies (#[trigger] self.queues@[i]).packets <= self.total_packets
            && self.queues@[i].bytes <= self.total_bytes && self.queues@[i].inter_arrival_us@.len() <= MAX_TAS_SAMPLES by {
            if i != idx {
                assert(self.queues@[i] == mid[i]);
            }
        }
        assert(self.queues@[idx as int].queue == q);
        proof {
            if idx < old_len {
                assert(t0 == old(self).queues@[idx as int]);
            }
            assert forall|k: int| 0 <= k < old_len implies (#[trigger] self.queues@[k]).queue == old(self).queues@[k].queue by {
                if k != idx {
                    assert(self.queues@[k] == mid[k]);
                }
            }
        }
    }

    pub fn set_schedule(&mut self, schedule: TasSchedule)
        ensures
            final(self).schedule == Some(schedule),
            final(self).total_packets == old(self).total_packets,
            final(self).total_bytes == old(self).total_bytes,
            final(self).queues == old(self).queues,
    {
        self.schedule = Some(schedule);
    }
}

impl Default for TasAnalyzer {
    fn default() -> (r: TasAnalyzer)
        ensures
            r.wf() && r.total_packets == 0,
    {
        TasAnalyzer::new()
    }
}

} // verus!
