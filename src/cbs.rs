//! CBS analysis: per-traffic-class counters, bursts and packet sizes, and
//! bandwidth over rolling windows of at least 100 ms.
use vstd::prelude::*;
use crate::interval::{keep_last, push_bounded};
use crate::packet::CapturedPacket;

verus! {

pub const MAX_SIZE_SAMPLES: usize = 1000;
pub const MAX_BANDWIDTH_SAMPLES: usize = 100;
/// Frames closer than this continue a burst.
pub const BURST_GAP_US: i64 = 1000;
/// Shortest window for a bandwidth sample.
pub const WINDOW_MS: i64 = 100;

pub struct CbsTrafficClass {
    pub tc: u8,
    pub packets: u64,
    pub bytes: u64,
    pub first_us: i64,
    pub last_us: i64,
    pub burst_bytes: u64,
    pub max_burst_size: u64,
    pub packet_sizes: Vec<u32>,
}

/// Bytes seen over a window of `elapsed_ms` milliseconds; megabits per
/// second are `bytes * 8 / (elapsed_ms * 1000)`.
#[derive(Clone, Copy, Debug)]
pub struct BandwidthSample {
    pub bytes: u64,
    pub elapsed_ms: u64,
}

pub struct CbsAnalyzer {
    pub total_packets: u64,
    pub total_bytes: u64,
    /// Frames per priority code point 0 to 7.
    pub priority_distribution: Vec<u64>,
    pub classes: Vec<CbsTrafficClass>,
    pub bandwidth_samples: Vec<BandwidthSample>,
    pub peak: Option<BandwidthSample>,
    pub last_calculation_us: Option<i64>,
    pub bytes_in_window: u64,
}

/// Traffic class of a priority: 0 and 1 swap (background below best
/// effort), the others map to themselves.
pub open spec fn tc_of(pcp: u8) -> u8 {
    if pcp == 0 { 1 } else if pcp == 1 { 0 } else if pcp <= 7 { pcp } else { 0 }
}

pub fn pcp_to_tc(pcp: u8) -> (r: u8)
    ensures
        r == tc_of(pcp),
{
    if pcp == 0 { 1 } else if pcp == 1 { 0 } else if pcp <= 7 { pcp } else { 0 }
}

/// Sample `a` is a strictly higher rate than sample `b`.
pub open spec fn faster(a: BandwidthSample, b: BandwidthSample) -> bool {
    a.bytes as int * b.elapsed_ms as int > b.bytes as int * a.elapsed_ms as int
}

/// Class `after` is `before` (or a fresh class) after one frame of `len`
/// bytes at `now_us`: counted, its burst extended when the frame follows
/// within 1 ms and restarted otherwise, and its size sample extended.
pub open spec fn class_step(before: Option<CbsTrafficClass>, after: CbsTrafficClass, len: u32, now_us: i64) -> bool {
    let (packets, bytes, last, burst, max_burst, sizes) = match before {
        Some(c) => (c.packets, c.bytes, c.last_us, c.burst_bytes, c.max_burst_size, c.packet_sizes@),
        None => (0u64, 0u64, now_us, 0u64, 0u64, Seq::<u32>::empty()),
    };
    let new_burst = if now_us - last < BURST_GAP_US { burst + len } else { len as int };
    &&& after.packets == packets + 1
    &&& after.bytes == bytes + len
    &&& after.last_us == now_us
    &&& after.burst_bytes == new_burst
    &&& after.max_burst_size == (if now_us - last < BURST_GAP_US
        && new_burst > max_burst { new_burst } else { max_burst as int })
    &&& after.packet_sizes@ == keep_last(sizes.push(len), MAX_SIZE_SAMPLES as nat)
}

pub open spec fn class_wf(c: CbsTrafficClass, total_packets: u64, total_bytes: u64) -> bool {
    &&& c.packets <= total_packets
    &&& c.bytes <= total_bytes
    &&& c.burst_bytes <= total_bytes
    &&& c.max_burst_size <= total_bytes
    &&& c.packet_sizes@.len() <= MAX_SIZE_SAMPLES
}

/// The effect of one frame `p` on an analyzer in state `a`, giving `b`.
pub open spec fn cbs_step(a: CbsAnalyzer, b: CbsAnalyzer, p: CapturedPacket) -> bool {
    &&& b.total_packets == a.total_packets + 1
    &&& b.total_bytes == a.total_bytes + p.length
    &&& ({ let pcp = match p.info.vlan_pcp { Some(p) => p, None => 0u8 }; pcp < 8 ==> b.priority_distribution@[pcp as int] == a.priority_distribution@[pcp as int] + 1 })
    &&& exists|i: int| 0 <= i < b.classes@.len()
        && (#[trigger] b.classes@[i]).tc == tc_of( match p.info.vlan_pcp { Some(p) => p, None => 0u8 }, )
        && class_step( if i < a.classes@.len() { Some(a.classes@[i]) } else { None }, b.classes@[i], p.length, p.timestamp_us, )
        && (i >= a.classes@.len() ==> forall|k: int| 0 <= k < a.classes@.len() ==> (#[trigger] a.classes@[k]).tc != b.classes@[i].tc)
    &&& forall|k: int| 0 <= k < a.classes@.len() ==> (#[trigger] b.classes@[k]).tc == a.classes@[k].tc
    &&& b.bandwidth_samples@ == a.bandwidth_samples@ || b.bandwidth_samples@ == keep_last( a.bandwidth_samples@.push(b.bandwidth_samples@.last()), MAX_BANDWIDTH_SAMPLES as nat, )
    &&& b.peak == a.peak || (b.bandwidth_samples@.len() > 0
        && b.peak == Some( b.bandwidth_samples@.last(), )
        && (a.peak.is_none() || faster(b.bandwidth_samples@.last(), a.peak.unwrap())))
}

impl CbsAnalyzer {
    pub open spec fn wf(&self) -> bool {
        &&& self.priority_distribution@.len() == 8
        &&& forall|i: int| 0 <= i < 8 ==> (#[trigger] self.priority_distribution@[i]) <= self.total_packets
        &&& forall|i: int| 0 <= i < self.classes@.len() ==> class_wf(#[trigger] self.classes@[i], self.total_packets, self.total_bytes)
        &&& self.bandwidth_samples@.len() <= MAX_BANDWIDTH_SAMPLES
        &&& self.bytes_in_window <= self.total_bytes
    }

    pub fn new() -> (r: CbsAnalyzer)
        ensures
            r.wf(),
            r.total_packets == 0,
            r.total_bytes == 0,
            r.classes@.len() == 0,
    {
        let mut d: Vec<u64> = Vec::new();
        let mut i: usize = 0;
        while i < 8
            invariant
                i <= 8,
                d@.len() == i,
                forall|k: int| 0 <= k < i ==> d@[k] == 0,
            decreases 8 - i,
        {
            d.push(0);
            i = i + 1;
        }
        CbsAnalyzer {
            total_packets: 0,
            total_bytes: 0,
            priority_distribution: d,
            classes: Vec::new(),
            bandwidth_samples: Vec::new(),
            peak: None,
            last_calculation_us: None,
            bytes_in_window: 0,
        }
    }

    /// Counts a frame under its priority (0 without a tag) and traffic
    /// class, extends or restarts the class's burst, and closes a bandwidth
    /// window once 100 ms have passed since the last one.
    pub fn process_packet(&mut self, packet: &CapturedPacket)
        requires
            old(self).wf(),
            old(self).total_packets < u64::MAX,
            old(self).total_bytes + packet.length <= u64::MAX,
        ensures
            cbs_step(*old(self), *final(self), *packet),
            final(self).wf(),
            final(self).total_packets == old(self).total_packets + 1,
            final(self).total_bytes == old(self).total_bytes + packet.length,
            ({
                let pcp = match packet.info.vlan_pcp { Some(p) => p, None => 0u8 };
                pcp < 8 ==> final(self).priority_distribution@[pcp as int] == old(self).priority_distribution@[pcp as int] + 1
            }),
            exists|i: int| 0 <= i < final(self).classes@.len() && (#[trigger] final(self).classes@[i]).tc == tc_of(
                match packet.info.vlan_pcp { Some(p) => p, None => 0u8 },
            ) && class_step(
                if i < old(self).classes@.len() { Some(old(self).classes@[i]) } else { None },
                final(self).classes@[i],
                packet.length,
                packet.timestamp_us,
            ) && (i >= old(self).classes@.len() ==> forall|k: int| 0 <= k < old(self).classes@.len() ==> (#[trigger] old(self).classes@[k]).tc != final(self).classes@[i].tc),
            forall|k: int| 0 <= k < old(self).classes@.len() ==> (#[trigger] final(self).classes@[k]).tc == old(self).classes@[k].tc,
            final(self).bandwidth_samples@ == old(self).bandwidth_samples@ || final(self).bandwidth_samples@ == keep_last(
                old(self).bandwidth_samples@.push(final(self).bandwidth_samples@.last()),
                MAX_BANDWIDTH_SAMPLES as nat,
            ),
            final(self).peak == old(self).peak || (final(self).bandwidth_samples@.len() > 0 && final(self).peak == Some(
                final(self).bandwidth_samples@.last(),
            ) && (old(self).peak.is_none() || faster(final(self).bandwidth_samples@.last(), old(self).peak.unwrap()))),
    {
        let pcp: u8 = match packet.info.vlan_pcp {
            Some(p) => p,
            None => 0,
        };
        let tc = pcp_to_tc(pcp);
        let len = packet.length as u64;
        let ghost ot = self.total_packets;
        let ghost ob = self.total_bytes;
        self.total_packets = self.total_packets + 1;
        self.total_bytes = self.total_bytes + len;
        if pcp < 8 {
            let v = self.priority_distribution[pcp as usize];
            self.priority_distribution.set(pcp as usize, v + 1);
        }
        let mut idx: usize = 0;
        let mut found = false;
        while idx < self.classes.len() && !found
            invariant
                idx <= self.classes@.len(),
                found ==> idx < self.classes@.len() && self.classes@[idx as int].tc == tc,
                forall|k: int| 0 <= k < idx ==> (#[trigger] self.classes@[k]).tc != tc,
            decreases self.classes@.len() - idx + (if found { 0int } else { 1int }),
        {
            if self.classes[idx].tc == tc {
                found = true;
            } else {
                idx = idx + 1;
            }
        }
        if !found {
            idx = self.classes.len();
            self.classes.push(CbsTrafficClass {
                tc,
                packets: 0,
                bytes: 0,
                first_us: packet.timestamp_us,
                last_us: packet.timestamp_us,
                burst_bytes: 0,
                max_burst_size: 0,
                packet_sizes: Vec::new(),
            });
        }
        let ghost mid = self.classes@;
        let ghost old_len = old(self).classes@.len();
        let mut c = self.classes.remove(idx);
        let ghost c0 = c;
        c.packets = c.packets + 1;
        c.bytes = c.bytes + len;
        let gap: i128 = packet.timestamp_us as i128 - c.last_us as i128;
        if gap < BURST_GAP_US as i128 {
            c.burst_bytes = c.burst_bytes + len;
            if c.burst_bytes > c.max_burst_size {
                c.max_burst_size = c.burst_bytes;
            }
        } else {
            c.burst_bytes = len;
        }
        c.last_us = packet.timestamp_us;
        push_bounded(&mut c.packet_sizes, packet.length, MAX_SIZE_SAMPLES);
        self.classes.insert(idx, c);
        assert forall|i: int| 0 <= i < self.classes@.len() implies class_wf(#[trigger] self.classes@[i], self.total_packets, self.total_bytes) by {
            if i != idx {
                assert(self.classes@[i] == mid[i]);
            }
        }
        assert(self.classes@[idx as int].tc == tc);
        proof {
            if idx < old_len {
                assert(c0 == old(self).classes@[idx as int]);
            }
            assert forall|k: int| 0 <= k < old_len implies (#[trigger] self.classes@[k]).tc == old(self).classes@[k].tc by {
                if k != idx {
                    assert(self.classes@[k] == mid[k]);
                }
            }
        }
        let ghost classes_now = self.classes@;
        self.bytes_in_window = self.bytes_in_window + len;
        match self.last_calculation_us {
            Some(last) => {
                let elapsed_us: i128 = packet.timestamp_us as i128 - last as i128;
                let elapsed_ms: i128 = if elapsed_us >= 0 { elapsed_us / 1000 } else { -((-elapsed_us) / 1000) };
                if elapsed_ms >= WINDOW_MS as i128 {
                    let s = BandwidthSample { bytes: self.bytes_in_window, elapsed_ms: elapsed_ms as u64 };
                    push_bounded(&mut self.bandwidth_samples, s, MAX_BANDWIDTH_SAMPLES);
                    self.bytes_in_window = 0;
                    self.last_calculation_us = Some(packet.timestamp_us);
                    match self.peak {
                        Some(p) => {
                            let a: u128 = s.bytes as u128;
                            let b: u128 = p.elapsed_ms as u128;
                            let c: u128 = p.bytes as u128;
                            let d: u128 = s.elapsed_ms as u128;
                            assert(a * b <= 0xFFFF_FFFF_FFFF_FFFF * 0xFFFF_FFFF_FFFF_FFFF) by (nonlinear_arith)
                                requires a <= 0xFFFF_FFFF_FFFF_FFFF, b <= 0xFFFF_FFFF_FFFF_FFFF;
                            assert(c * d <= 0xFFFF_FFFF_FFFF_FFFF * 0xFFFF_FFFF_FFFF_FFFF) by (nonlinear_arith)
                                requires c <= 0xFFFF_FFFF_FFFF_FFFF, d <= 0xFFFF_FFFF_FFFF_FFFF;
                            if a * b > c * d {
                                self.peak = Some(s);
                            }
                        },
                        None => {
                            self.peak = Some(s);
                        },
                    }
                }
            },
            None => {
                self.last_calculation_us = Some(packet.timestamp_us);
            },
        }
        assert(self.classes@ == classes_now);
        assert(self.classes@[idx as int].tc == tc && self.classes@[idx as int].last_us == packet.timestamp_us);
        assert(class_step(
            if (idx as int) < old_len { Some(old(self).classes@[idx as int]) } else { None },
            self.classes@[idx as int],
            packet.length,
            packet.timestamp_us,
        ));
    }

    /// The traffic classes seen, ascending.
    pub fn traffic_classes(&self) -> (r: Vec<u8>)
        ensures
            crate::textops::strictly_sorted_u8(r@),
            forall|t: u8| r@.contains(t) <==> exists|i: int| 0 <= i < self.classes@.len() && (#[trigger] self.classes@[i]).tc == t,
    {
        let mut out: Vec<u8> = Vec::new();
        let mut i: usize = 0;
        while i < self.classes.len()
            invariant
                i <= self.classes@.len(),
                crate::textops::strictly_sorted_u8(out@),
                forall|t: u8| out@.to_set().contains(t) <==> exists|k: int| 0 <= k < i && (#[trigger] self.classes@[k]).tc == t,
            decreases self.classes@.len() - i,
        {
            crate::textops::insert_sorted_u8(&mut out, self.classes[i].tc);
            proof {
                assert forall|t: u8| out@.to_set().contains(t) <==> exists|k: int| 0 <= k < i + 1 && (#[trigger] self.classes@[k]).tc == t by {
                    if t == self.classes@[i as int].tc {
                        assert(self.classes@[i as int].tc == t);
                    }
                }
            }
            i = i + 1;
        }
        proof {
            assert forall|t: u8| out@.contains(t) <==> out@.to_set().contains(t) by {}
        }
        out
    }
}

impl Default for CbsAnalyzer {
    fn default() -> (r: CbsAnalyzer)
        ensures
            r.wf() && r.total_packets == 0,
    {
        CbsAnalyzer::new()
    }
}

} // verus!
