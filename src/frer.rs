//! FRER analysis: per-stream duplicate elimination and sequence checking.
use vstd::prelude::*;
use crate::interval::push_bounded;
use crate::packet::CapturedPacket;
use crate::text::{dec_text, push_char, push_dec};
use crate::textops::push_unique_text;

verus! {

pub const MAX_SEEN_SEQUENCES: usize = 1000;

#[derive(Clone, Debug)]
pub struct FrerStreamStats {
    pub stream_id: String,
    pub packets_received: u64,
    pub duplicates_eliminated: u64,
    pub sequence_errors: u64,
    pub last_sequence: Option<u32>,
    /// Distinct destination MAC addresses that carried the stream, at most 255.
    pub replication_factor: u8,
}

/// Totals; the elimination rate is `total_duplicates / total_packets`.
#[derive(Clone, Copy, Debug)]
pub struct FrerStats {
    pub total_packets: u64,
    pub total_duplicates: u64,
    pub total_sequence_errors: u64,
}

pub struct StreamTracker {
    pub stream_id: String,
    pub packets: u64,
    pub duplicates: u64,
    pub seq_errors: u64,
    pub last_seq: Option<u32>,
    pub seen_sequences: Vec<u32>,
    pub paths_seen: Vec<String>,
}

pub struct FrerAnalyzer {
    pub stats: FrerStats,
    pub trackers: Vec<StreamTracker>,
}

/// Whether sequence number `seq` after `last` is out of order: neither the
/// next number (modulo 2^32) nor a repeat.
pub open spec fn is_sequence_error(last: Option<u32>, seq: u32) -> bool {
    match last {
        Some(l) => seq != ((l + 1) % 0x1_0000_0000) as u32 && seq != l,
        None => false,
    }
}

/// The stream a frame belongs to: its annotation's stream id, else
/// `<src-mac>:<vlan-id or 0>`.
pub open spec fn stream_key(p: CapturedPacket) -> Seq<char> {
    match p.tsn_info.unwrap().stream_id {
        Some(s) => s@,
        None => p.info.src_mac@.push(':') + dec_text(
            match p.info.vlan_id {
                Some(v) => v as nat,
                None => 0nat,
            },
        ),
    }
}

/// The frame's sequence number was already seen on its stream.
pub open spec fn is_duplicate(ts: Seq<StreamTracker>, p: CapturedPacket) -> bool {
    p.tsn_info.is_some() && p.tsn_info.unwrap().sequence_number.is_some() && exists|i: int| 0 <= i < ts.len()
        && (#[trigger] ts[i]).stream_id@ == stream_key(p) && ts[i].seen_sequences@.contains(p.tsn_info.unwrap().sequence_number.unwrap())
}

/// The frame's sequence number is new on its stream and neither repeats
/// nor follows the stream's last number.
pub open spec fn is_out_of_order(ts: Seq<StreamTracker>, p: CapturedPacket) -> bool {
    p.tsn_info.is_some() && p.tsn_info.unwrap().sequence_number.is_some() && !is_duplicate(ts, p) && exists|i: int|
        0 <= i < ts.len() && (#[trigger] ts[i]).stream_id@ == stream_key(p) && is_sequence_error(ts[i].last_seq, p.tsn_info.unwrap().sequence_number.unwrap())
}

pub open spec fn tracker_wf(t: StreamTracker, total: u64) -> bool {
    &&& t.packets <= total
    &&& t.duplicates <= total
    &&& t.seq_errors <= total
    &&& t.seen_sequences@.len() <= MAX_SEEN_SEQUENCES
}

/// The effect of one frame `p` on an analyzer in state `a`, giving `b`.
pub open spec fn frer_step(a: FrerAnalyzer, b: FrerAnalyzer, p: CapturedPacket) -> bool {
    &&& b.stats.total_packets == a.stats.total_packets + 1
    &&& p.tsn_info.is_none() ==> b.stats.total_duplicates == a.stats.total_duplicates
        && b.stats.total_sequence_errors == a.stats.total_sequence_errors
        && b.trackers@ == a.trackers@
    &&& p.tsn_info.is_some() ==> exists|i: int| 0 <= i < b.trackers@.len()
        && (#[trigger] b.trackers@[i]).stream_id@ == stream_key(p)
        && (p.tsn_info.unwrap().sequence_number.is_some() ==> b.trackers@[i].last_seq == p.tsn_info.unwrap().sequence_number || b.trackers@[i].seen_sequences@.contains(p.tsn_info.unwrap().sequence_number.unwrap()))
    &&& b.stats.total_duplicates == a.stats.total_duplicates + (if is_duplicate(a.trackers@, p) { 1int } else { 0int })
    &&& b.stats.total_sequence_errors == a.stats.total_sequence_errors + (if is_out_of_order(a.trackers@, p) { 1int } else { 0int })
}

impl FrerAnalyzer {
    pub open spec fn wf(&self) -> bool {
        &&& self.stats.total_duplicates <= self.stats.total_packets
        &&& self.stats.total_sequence_errors <= self.stats.total_packets
        &&& forall|i: int| 0 <= i < self.trackers@.len() ==> tracker_wf(#[trigger] self.trackers@[i], self.stats.total_packets)
        &&& forall|i: int, j: int| 0 <= i < j < self.trackers@.len() ==> (#[trigger] self.trackers@[i]).stream_id@ != (#[trigger] self.trackers@[j]).stream_id@
    }

    pub fn new() -> (r: FrerAnalyzer)
        ensures
            r.wf(),
            r.stats.total_packets == 0,
            r.trackers@.len() == 0,
    {
        FrerAnalyzer {
            stats: FrerStats { total_packets: 0, total_duplicates: 0, total_sequence_errors: 0 },
            trackers: Vec::new(),
        }
    }

    fn find_tracker(&self, id: &String) -> (r: Option<usize>)
        ensures
            match r {
                Some(i) => i < self.trackers@.len() && self.trackers@[i as int].stream_id@ == id@,
                None => forall|j: int| 0 <= j < self.trackers@.len() ==> (#[trigger] self.trackers@[j]).stream_id@ != id@,
            },
    {
        let mut i: usize = 0;
        while i < self.trackers.len()
            invariant
                i <= self.trackers@.len(),
                forall|j: int| 0 <= j < i ==> (#[trigger] self.trackers@[j]).stream_id@ != id@,
            decreases self.trackers@.len() - i,
        {
            if self.trackers[i].stream_id == *id {
                return Some(i);
            }
            i = i + 1;
        }
        None
    }

    /// Counts a frame; for an annotated one, updates its stream: packets,
    /// the destination as a path, and with a sequence number a duplicate
    /// (already seen) or else an order check against the last number.
    pub fn process_packet(&mut self, packet: &CapturedPacket)
        requires
            old(self).wf(),
            old(self).stats.total_packets < u64::MAX,
        ensures
            frer_step(*old(self), *final(self), *packet),
            final(self).wf(),
            final(self).stats.total_packets == old(self).stats.total_packets + 1,
            packet.tsn_info.is_none() ==> final(self).stats.total_duplicates == old(self).stats.total_duplicates
                && final(self).stats.total_sequence_errors == old(self).stats.total_sequence_errors
                && final(self).trackers@ == old(self).trackers@,
            packet.tsn_info.is_some() ==> exists|i: int| 0 <= i < final(self).trackers@.len()
                && (#[trigger] final(self).trackers@[i]).stream_id@ == stream_key(*packet)
                && (packet.tsn_info.unwrap().sequence_number.is_some() ==> final(self).trackers@[i].last_seq
                    == packet.tsn_info.unwrap().sequence_number
                    || final(self).trackers@[i].seen_sequences@.contains(packet.tsn_info.unwrap().sequence_number.unwrap())),
            final(self).stats.total_duplicates == old(self).stats.total_duplicates + (if is_duplicate(old(self).trackers@, *packet) { 1int } else { 0int }),
            final(self).stats.total_sequence_errors == old(self).stats.total_sequence_errors + (if is_out_of_order(old(self).trackers@, *packet) { 1int } else { 0int }),
    {
        self.stats.total_packets = self.stats.total_packets + 1;
        let tsn = match &packet.tsn_info {
            Some(t) => t,
            None => {
                assert forall|i: int| 0 <= i < self.trackers@.len() implies tracker_wf(#[trigger] self.trackers@[i], self.stats.total_packets) by {
                    assert(tracker_wf(old(self).trackers@[i], old(self).stats.total_packets));
                }
                return;
            },
        };
        let id = match &tsn.stream_id {
            Some(s) => s.clone(),
            None => {
                let mut s = packet.info.src_mac.clone();
                push_char(&mut s, ':');
                let v: u64 = match packet.info.vlan_id {
                    Some(v) => v as u64,
                    None => 0,
                };
                push_dec(&mut s, v);
                s
            },
        };
        let ghost old_trackers = self.trackers@;
        let idx = match self.find_tracker(&id) {
            Some(i) => i,
            None => {
                self.trackers.push(StreamTracker {
                    stream_id: id,
                    packets: 0,
                    duplicates: 0,
                    seq_errors: 0,
                    last_seq: None,
                    seen_sequences: Vec::new(),
                    paths_seen: Vec::new(),
                });
                proof {
                    assert forall|i: int, j: int| 0 <= i < j < self.trackers@.len() implies (#[trigger] self.trackers@[i]).stream_id@
                        != (#[trigger] self.trackers@[j]).stream_id@ by {
                        if j == self.trackers@.len() - 1 {
                            assert(self.trackers@[i] == old_trackers[i]);
                        } else {
                            assert(self.trackers@[i] == old_trackers[i]);
                            assert(self.trackers@[j] == old_trackers[j]);
                        }
                    }
                }
                self.trackers.len() - 1
            },
        };
        let ghost mid = self.trackers@;
        proof {
            assert(mid[idx as int].stream_id@ == stream_key(*packet));
            assert forall|i: int| 0 <= i < old_trackers.len() && (#[trigger] old_trackers[i]).stream_id@ == stream_key(*packet) implies i == idx && old_trackers[i] == mid[idx as int] by {
                if i != idx {
                    if i < idx {
                        assert(mid[i] == old_trackers[i]);
                        assert(mid[i].stream_id@ != mid[idx as int].stream_id@);
                    } else {
                        assert(mid[i] == old_trackers[i]);
                        assert(mid[idx as int].stream_id@ != mid[i].stream_id@);
                    }
                }
            }
            if idx == old_trackers.len() {
                assert forall|i: int| 0 <= i < old_trackers.len() implies (#[trigger] old_trackers[i]).stream_id@ != stream_key(*packet) by {}
            }
        }
        let mut t = self.trackers.remove(idx);
        assert(tracker_wf(mid[idx as int], old(self).stats.total_packets) || idx == old_trackers.len());
        t.packets = t.packets + 1;
        push_unique_text(&mut t.paths_seen, &packet.info.dst_mac);
        match tsn.sequence_number {
            Some(seq) => {
                let mut seen = false;
                let mut k: usize = 0;
                while k < t.seen_sequences.len()
                    invariant
                        k <= t.seen_sequences@.len(),
                        seen == (exists|j: int| 0 <= j < k && t.seen_sequences@[j] == seq),
                    decreases t.seen_sequences@.len() - k,
                {
                    if t.seen_sequences[k] == seq {
                        seen = true;
                    }
                    k = k + 1;
                }
                if seen {
                    t.duplicates = t.duplicates + 1;
                    self.stats.total_duplicates = self.stats.total_duplicates + 1;
                } else {
                    match t.last_seq {
                        Some(l) => {
                            let expected: u32 = if l == u32::MAX { 0 } else { l + 1 };
                            if seq != expected && seq != l {
                                t.seq_errors = t.seq_errors + 1;
                                self.stats.total_sequence_errors = self.stats.total_sequence_errors + 1;
                            }
                        },
                        None => {},
                    }
                    push_bounded(&mut t.seen_sequences, seq, MAX_SEEN_SEQUENCES);
                    t.last_seq = Some(seq);
                }
            },
            None => {},
        }
        self.trackers.insert(idx, t);
        proof {
            assert forall|i: int| 0 <= i < self.trackers@.len() implies tracker_wf(#[trigger] self.trackers@[i], self.stats.total_packets) by {
                if i != idx {
                    assert(self.trackers@[i] == mid[i]);
                    if i < old_trackers.len() {
                        assert(mid[i] == old_trackers[i]);
                        assert(tracker_wf(old_trackers[i], old(self).stats.total_packets));
                    }
                }
            }
            assert forall|i: int, j: int| 0 <= i < j < self.trackers@.len() implies (#[trigger] self.trackers@[i]).stream_id@
                != (#[trigger] self.trackers@[j]).stream_id@ by {
                let a = if i == idx { mid[idx as int] } else { mid[i] };
                let b = if j == idx { mid[idx as int] } else { mid[j] };
                assert(self.trackers@[i].stream_id@ == a.stream_id@);
                assert(self.trackers@[j].stream_id@ == b.stream_id@);
            }
            assert(self.trackers@[idx as int].stream_id@ == stream_key(*packet));
        }
    }

    pub fn get_stats(&self) -> (r: FrerStats)
        ensures
            r == self.stats,
    {
        self.stats
    }

    /// Statistics of one stream, if it has been seen.
    pub fn get_stream_stats(&self, stream_id: &String) -> (r: Option<FrerStreamStats>)
        ensures
            r.is_some() == exists|j: int| 0 <= j < self.trackers@.len() && (#[trigger] self.trackers@[j]).stream_id@ == stream_id@,
            r.is_some() ==> r.unwrap().stream_id@ == stream_id@,
    {
        match self.find_tracker(stream_id) {
            Some(i) => {
                let t = &self.trackers[i];
                let n = t.paths_seen.len();
                Some(FrerStreamStats {
                    stream_id: stream_id.clone(),
                    packets_received: t.packets,
                    duplicates_eliminated: t.duplicates,
                    sequence_errors: t.seq_errors,
                    last_sequence: t.last_seq,
                    replication_factor: if n > 255 { 255 } else { n as u8 },
                })
            },
            None => None,
        }
    }
}

impl Default for FrerAnalyzer {
    fn default() -> (r: FrerAnalyzer)
        ensures
            r.wf() && r.stats.total_packets == 0,
    {
        FrerAnalyzer::new()
    }
}

} // verus!
