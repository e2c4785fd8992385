//! PTP analysis: message counts, Sync spacing, Follow_Up offsets,
//! Delay_Resp delays, the grandmaster, and the clocks seen.
//!
//! Offsets and delays are kept as raw correction values, in units of
//! 2^-16 ns; nanoseconds are the value divided by 65536.
use vstd::prelude::*;
use crate::interval::{keep_last, push_bounded};
use crate::packet::{CapturedPacket, PtpInfo};

verus! {

pub const MAX_PTP_SAMPLES: usize = 1000;
pub const MAX_SYNC_INTERVALS: usize = 100;
/// Sync spacings of ten seconds or more are discarded.
pub const SYNC_INTERVAL_LIMIT_US: i64 = 10000000;
/// Delays must lie below one second: 10^9 ns in units of 2^-16 ns.
pub const DELAY_LIMIT_SCALED: u64 = 65536000000000;

#[derive(Clone, Debug)]
pub struct PtpClock {
    pub clock_id: String,
    pub port_id: u16,
    pub is_grandmaster: bool,
    pub domain: u8,
    pub last_seen_us: i64,
    pub sync_messages: u64,
    pub announce_messages: u64,
}

#[derive(Clone, Debug)]
pub struct PtpStats {
    pub messages: u64,
    pub sync_count: u64,
    pub follow_up_count: u64,
    pub delay_req_count: u64,
    pub delay_resp_count: u64,
    pub announce_count: u64,
    pub pdelay_req_count: u64,
    pub pdelay_resp_count: u64,
    pub grandmaster_id: Option<String>,
    pub domain: Option<u8>,
}

pub struct PtpAnalyzer {
    pub stats: PtpStats,
    pub clocks: Vec<PtpClock>,
    /// Sequence id and time of each Sync awaiting its Follow_Up.
    pub sync_pairs: Vec<(u16, i64)>,
    /// Follow_Up correction values.
    pub offset_samples: Vec<i64>,
    /// Delay_Resp correction magnitudes.
    pub delay_samples: Vec<u64>,
    pub last_sync_us: Option<i64>,
    pub sync_intervals_us: Vec<u64>,
}

pub open spec fn ptp_of(p: CapturedPacket) -> Option<PtpInfo> {
    match p.tsn_info {
        Some(t) => t.ptp_info,
        None => None,
    }
}

pub open spec fn abs_of(v: i64) -> int {
    if v < 0 { -(v as int) } else { v as int }
}

pub open spec fn is_named(p: PtpInfo, name: Seq<char>) -> bool {
    p.message_type@ == name
}

/// One when `p` carries a PTP message of type `name`, else zero.
pub open spec fn one(p: CapturedPacket, name: Seq<char>) -> int {
    if ptp_of(p).is_some() && is_named(ptp_of(p).unwrap(), name) { 1 } else { 0 }
}

pub open spec fn has_sync(pairs: Seq<(u16, i64)>, seq: u16) -> bool {
    exists|i: int| 0 <= i < pairs.len() && (#[trigger] pairs[i]).0 == seq
}

/// The effect of one frame `p` on an analyzer in state `a`, giving `b`.
pub open spec fn ptp_step(a: PtpAnalyzer, b: PtpAnalyzer, p: CapturedPacket) -> bool {
    &&& ptp_of(p).is_none() ==> b.stats == a.stats
    &&& ptp_of(p).is_some() ==> b.stats.messages == a.stats.messages + 1
    &&& ptp_of(p).is_some() ==> b.stats.sync_count == a.stats.sync_count + one(p, "Sync"@)
    &&& ptp_of(p).is_some() ==> b.stats.follow_up_count == a.stats.follow_up_count + one(p, "Follow_Up"@)
    &&& ptp_of(p).is_some() ==> b.stats.delay_req_count == a.stats.delay_req_count + one(p, "Delay_Req"@)
    &&& ptp_of(p).is_some() ==> b.stats.delay_resp_count == a.stats.delay_resp_count + one(p, "Delay_Resp"@)
    &&& ptp_of(p).is_some() ==> b.stats.announce_count == a.stats.announce_count + one(p, "Announce"@)
    &&& ptp_of(p).is_some() ==> b.stats.pdelay_req_count == a.stats.pdelay_req_count + one(p, "Pdelay_Req"@)
    &&& ptp_of(p).is_some() ==> b.stats.pdelay_resp_count == a.stats.pdelay_resp_count + one(p, "Pdelay_Resp"@)
    &&& ptp_of(p).is_some() ==> b.stats.domain == (if a.stats.domain.is_none() { Some(ptp_of(p).unwrap().domain) } else { a.stats.domain })
    &&& ptp_of(p).is_some()
        && one(p, "Announce"@) == 1
        && a.stats.grandmaster_id.is_none() ==> b.stats.grandmaster_id.is_some()
        && b.stats.grandmaster_id.unwrap()@ == ptp_of(p).unwrap().source_port_identity@
    &&& !(ptp_of(p).is_some()
        && one(p, "Announce"@) == 1
        && a.stats.grandmaster_id.is_none()) ==> b.stats.grandmaster_id == a.stats.grandmaster_id
    &&& b.offset_samples@ == (if ptp_of(p).is_some()
        && one(p, "Follow_Up"@) == 1
        && has_sync( a.sync_pairs@, ptp_of(p).unwrap().sequence_id, ) { keep_last(a.offset_samples@.push(ptp_of(p).unwrap().correction_field), MAX_PTP_SAMPLES as nat) } else { a.offset_samples@ })
    &&& b.delay_samples@ == (if ptp_of(p).is_some()
        && one(p, "Delay_Resp"@) == 1
        && 0 < abs_of( ptp_of(p).unwrap().correction_field, ) < DELAY_LIMIT_SCALED { keep_last(a.delay_samples@.push(abs_of(ptp_of(p).unwrap().correction_field) as u64), MAX_PTP_SAMPLES as nat) } else { a.delay_samples@ })
    &&& ptp_of(p).is_some() ==> exists|i: int| 0 <= i < b.clocks@.len()
        && (#[trigger] b.clocks@[i]).clock_id@ == ptp_of(p).unwrap().source_port_identity@
        && b.clocks@[i].last_seen_us == p.timestamp_us
}

impl PtpAnalyzer {
    pub open spec fn wf(&self) -> bool {
        &&& self.stats.sync_count <= self.stats.messages
        &&& self.stats.follow_up_count <= self.stats.messages
        &&& self.stats.delay_req_count <= self.stats.messages
        &&& self.stats.delay_resp_count <= self.stats.messages
        &&& self.stats.announce_count <= self.stats.messages
        &&& self.stats.pdelay_req_count <= self.stats.messages
        &&& self.stats.pdelay_resp_count <= self.stats.messages
        &&& forall|i: int| 0 <= i < self.clocks@.len() ==> (#[trigger] self.clocks@[i]).sync_messages <= self.stats.messages
            && self.clocks@[i].announce_messages <= self.stats.messages
        &&& self.offset_samples@.len() <= MAX_PTP_SAMPLES
        &&& self.delay_samples@.len() <= MAX_PTP_SAMPLES
        &&& self.sync_intervals_us@.len() <= MAX_SYNC_INTERVALS
    }

    pub fn new() -> (r: PtpAnalyzer)
        ensures
            r.wf(),
            r.stats.messages == 0,
            r.clocks@.len() == 0,
            r.stats.grandmaster_id.is_none(),
    {
        PtpAnalyzer {
            stats: PtpStats {
                messages: 0,
                sync_count: 0,
                follow_up_count: 0,
                delay_req_count: 0,
                delay_resp_count: 0,
                announce_count: 0,
                pdelay_req_count: 0,
                pdelay_resp_count: 0,
                grandmaster_id: None,
                domain: None,
            },
            clocks: Vec::new(),
            sync_pairs: Vec::new(),
            offset_samples: Vec::new(),
            delay_samples: Vec::new(),
            last_sync_us: None,
            sync_intervals_us: Vec::new(),
        }
    }

    /// Records the spacing since the previous Sync when it lies strictly
    /// between zero and ten seconds, and remembers this Sync for its Follow_Up.
    fn process_sync(&mut self, seq: u16, now_us: i64)
        requires
            old(self).wf(),
        ensures
            final(self).wf(),
            final(self).stats == old(self).stats,
            final(self).clocks == old(self).clocks,
            final(self).offset_samples == old(self).offset_samples,
            final(self).delay_samples == old(self).delay_samples,
            final(self).last_sync_us == Some(now_us),
            has_sync(final(self).sync_pairs@, seq),
            forall|s: u16| has_sync(old(self).sync_pairs@, s) ==> has_sync(final(self).sync_pairs@, s),
            ({
                let gap = match old(self).last_sync_us {
                    Some(l) => now_us - l,
                    None => 0,
                };
                if 0 < gap < SYNC_INTERVAL_LIMIT_US {
                    final(self).sync_intervals_us@ == keep_last(old(self).sync_intervals_us@.push(gap as u64), MAX_SYNC_INTERVALS as nat)
                } else {
                    final(self).sync_intervals_us@ == old(self).sync_intervals_us@
                }
            }),
    {
        match self.last_sync_us {
            Some(l) => {
                let gap: i128 = now_us as i128 - l as i128;
                if 0 < gap && gap < SYNC_INTERVAL_LIMIT_US as i128 {
                    push_bounded(&mut self.sync_intervals_us, gap as u64, MAX_SYNC_INTERVALS);
                }
            },
            None => {},
        }
        self.last_sync_us = Some(now_us);
        remember_sync(&mut self.sync_pairs, seq, now_us);
    }

    fn knows_sync(&self, seq: u16) -> (r: bool)
        ensures
            r == has_sync(self.sync_pairs@, seq),
    {
        let mut i: usize = 0;
        while i < self.sync_pairs.len()
            invariant
                i <= self.sync_pairs@.len(),
                forall|k: int| 0 <= k < i ==> (#[trigger] self.sync_pairs@[k]).0 != seq,
            decreases self.sync_pairs@.len() - i,
        {
            if self.sync_pairs[i].0 == seq {
                return true;
            }
            i = i + 1;
        }
        false
    }

    /// Refreshes the clock of `p`'s source port, creating it on first sight.
    fn update_clock(&mut self, p: &PtpInfo, now_us: i64, is_sync: bool, is_announce: bool)
        requires
            old(self).wf(),
            old(self).stats.messages > 0,
            forall|i: int| 0 <= i < old(self).clocks@.len() ==> (#[trigger] old(self).clocks@[i]).sync_messages < old(self).stats.messages
                && old(self).clocks@[i].announce_messages < old(self).stats.messages,
        ensures
            final(self).wf(),
            final(self).stats == old(self).stats,
            final(self).offset_samples == old(self).offset_samples,
            final(self).delay_samples == old(self).delay_samples,
            final(self).sync_intervals_us == old(self).sync_intervals_us,
            final(self).sync_pairs == old(self).sync_pairs,
            exists|i: int| 0 <= i < final(self).clocks@.len() && (#[trigger] final(self).clocks@[i]).clock_id@ == p.source_port_identity@
                && final(self).clocks@[i].last_seen_us == now_us && final(self).clocks@[i].domain == p.domain,
    {
        let mut idx: usize = 0;
        let mut found = false;
        while idx < self.clocks.len() && !found
            invariant
                idx <= self.clocks@.len(),
                found ==> idx < self.clocks@.len() && self.clocks@[idx as int].clock_id@ == p.source_port_identity@,
            decreases self.clocks@.len() - idx + (if found { 0int } else { 1int }),
        {
            if self.clocks[idx].clock_id == p.source_port_identity {
                found = true;
            } else {
                idx = idx + 1;
            }
        }
        if !found {
            idx = self.clocks.len();
            self.clocks.push(PtpClock {
                clock_id: p.source_port_identity.clone(),
                port_id: 0,
                is_grandmaster: false,
                domain: p.domain,
                last_seen_us: now_us,
                sync_messages: 0,
                announce_messages: 0,
            });
        }
        assert(self.clocks@[idx as int].clock_id@ == p.source_port_identity@);
        let ghost mid = self.clocks@;
        let mut c = self.clocks.remove(idx);
        c.last_seen_us = now_us;
        c.domain = p.domain;
        if is_sync {
            c.sync_messages = c.sync_messages + 1;
        }
        if is_announce {
            c.announce_messages = c.announce_messages + 1;
            match &self.stats.grandmaster_id {
                Some(g) => {
                    if *g == c.clock_id {
                        c.is_grandmaster = true;
                    }
                },
                None => {},
            }
        }
        self.clocks.insert(idx, c);
        assert forall|i: int| 0 <= i < self.clocks@.len() implies (#[trigger] self.clocks@[i]).sync_messages <= self.stats.messages
            && self.clocks@[i].announce_messages <= self.stats.messages by {
            if i != idx {
                assert(self.clocks@[i] == mid[i]);
            }
        }
        assert(self.clocks@[idx as int].clock_id@ == p.source_port_identity@);
    }
}

impl PtpAnalyzer {
    /// Counts one PTP message by type and applies it: Sync spacing and
    /// pairing, Follow_Up offset, Delay_Resp delay, the grandmaster from the
    /// first Announce, the first domain, and the source clock.
    pub fn process_packet(&mut self, packet: &CapturedPacket)
        requires
            old(self).wf(),
            old(self).stats.messages < u64::MAX,
        ensures
            ptp_step(*old(self), *final(self), *packet),
            final(self).wf(),
            ptp_of(*packet).is_none() ==> final(self).stats == old(self).stats,
            ptp_of(*packet).is_some() ==> final(self).stats.messages == old(self).stats.messages + 1,
            ptp_of(*packet).is_some() ==> final(self).stats.sync_count == old(self).stats.sync_count + one(*packet, "Sync"@),
            ptp_of(*packet).is_some() ==> final(self).stats.follow_up_count == old(self).stats.follow_up_count + one(*packet, "Follow_Up"@),
            ptp_of(*packet).is_some() ==> final(self).stats.delay_req_count == old(self).stats.delay_req_count + one(*packet, "Delay_Req"@),
            ptp_of(*packet).is_some() ==> final(self).stats.delay_resp_count == old(self).stats.delay_resp_count + one(*packet, "Delay_Resp"@),
            ptp_of(*packet).is_some() ==> final(self).stats.announce_count == old(self).stats.announce_count + one(*packet, "Announce"@),
            ptp_of(*packet).is_some() ==> final(self).stats.pdelay_req_count == old(self).stats.pdelay_req_count + one(*packet, "Pdelay_Req"@),
            ptp_of(*packet).is_some() ==> final(self).stats.pdelay_resp_count == old(self).stats.pdelay_resp_count + one(*packet, "Pdelay_Resp"@),
            ptp_of(*packet).is_some() ==> final(self).stats.domain == (if old(self).stats.domain.is_none() {
                Some(ptp_of(*packet).unwrap().domain)
            } else {
                old(self).stats.domain
            }),
            ptp_of(*packet).is_some() && one(*packet, "Announce"@) == 1 && old(self).stats.grandmaster_id.is_none()
                ==> final(self).stats.grandmaster_id.is_some() && final(self).stats.grandmaster_id.unwrap()@
                == ptp_of(*packet).unwrap().source_port_identity@,
            !(ptp_of(*packet).is_some() && one(*packet, "Announce"@) == 1 && old(self).stats.grandmaster_id.is_none())
                ==> final(self).stats.grandmaster_id == old(self).stats.grandmaster_id,
            final(self).offset_samples@ == (if ptp_of(*packet).is_some() && one(*packet, "Follow_Up"@) == 1 && has_sync(
                old(self).sync_pairs@,
                ptp_of(*packet).unwrap().sequence_id,
            ) {
                keep_last(old(self).offset_samples@.push(ptp_of(*packet).unwrap().correction_field), MAX_PTP_SAMPLES as nat)
            } else {
                old(self).offset_samples@
            }),
            final(self).delay_samples@ == (if ptp_of(*packet).is_some() && one(*packet, "Delay_Resp"@) == 1 && 0 < abs_of(
                ptp_of(*packet).unwrap().correction_field,
            ) < DELAY_LIMIT_SCALED {
                keep_last(old(self).delay_samples@.push(abs_of(ptp_of(*packet).unwrap().correction_field) as u64), MAX_PTP_SAMPLES as nat)
            } else {
                old(self).delay_samples@
            }),
            ptp_of(*packet).is_some() ==> exists|i: int| 0 <= i < final(self).clocks@.len() && (#[trigger] final(self).clocks@[i]).clock_id@
                == ptp_of(*packet).unwrap().source_port_identity@ && final(self).clocks@[i].last_seen_us == packet.timestamp_us,
    {
        let pi = match &packet.tsn_info {
            Some(t) => match &t.ptp_info {
                Some(p) => p,
                None => {
                    return;
                },
            },
            None => {
                return;
            },
        };
        proof {
            reveal_strlit("Sync");
            reveal_strlit("Follow_Up");
            reveal_strlit("Delay_Req");
            reveal_strlit("Delay_Resp");
            reveal_strlit("Announce");
            reveal_strlit("Pdelay_Req");
            reveal_strlit("Pdelay_Resp");
            assert("Sync"@.len() == 4 && "Follow_Up"@.len() == 9 && "Delay_Req"@.len() == 9 && "Delay_Resp"@.len() == 10);
            assert("Announce"@.len() == 8 && "Pdelay_Req"@.len() == 10 && "Pdelay_Resp"@.len() == 11);
            assert("Follow_Up"@[0] != "Delay_Req"@[0]);
            assert("Delay_Resp"@[0] != "Pdelay_Req"@[0]);
        }
        let is_sync = pi.message_type == String::from_str("Sync");
        let is_follow_up = pi.message_type == String::from_str("Follow_Up");
        let is_delay_req = pi.message_type == String::from_str("Delay_Req");
        let is_delay_resp = pi.message_type == String::from_str("Delay_Resp");
        let is_announce = pi.message_type == String::from_str("Announce");
        let is_pdelay_req = pi.message_type == String::from_str("Pdelay_Req");
        let is_pdelay_resp = pi.message_type == String::from_str("Pdelay_Resp");
        let ghost old_pairs = self.sync_pairs@;
        self.stats.messages = self.stats.messages + 1;
        if is_sync {
            self.stats.sync_count = self.stats.sync_count + 1;
            self.process_sync(pi.sequence_id, packet.timestamp_us);
        } else if is_follow_up {
            self.stats.follow_up_count = self.stats.follow_up_count + 1;
            if self.knows_sync(pi.sequence_id) {
                push_bounded(&mut self.offset_samples, pi.correction_field, MAX_PTP_SAMPLES);
            }
        } else if is_delay_req {
            self.stats.delay_req_count = self.stats.delay_req_count + 1;
        } else if is_delay_resp {
            self.stats.delay_resp_count = self.stats.delay_resp_count + 1;
            let c = pi.correction_field;
            let mag: u64 = if c < 0 { (-(c as i128)) as u64 } else { c as u64 };
            if mag > 0 && mag < DELAY_LIMIT_SCALED {
                push_bounded(&mut self.delay_samples, mag, MAX_PTP_SAMPLES);
            }
        } else if is_announce {
            self.stats.announce_count = self.stats.announce_count + 1;
            if self.stats.grandmaster_id.is_none() {
                self.stats.grandmaster_id = Some(pi.source_port_identity.clone());
            }
        } else if is_pdelay_req {
            self.stats.pdelay_req_count = self.stats.pdelay_req_count + 1;
        } else if is_pdelay_resp {
            self.stats.pdelay_resp_count = self.stats.pdelay_resp_count + 1;
        }
        if self.stats.domain.is_none() {
            self.stats.domain = Some(pi.domain);
        }
        self.update_clock(pi, packet.timestamp_us, is_sync || is_follow_up, is_announce);
    }

    pub fn get_stats(&self) -> (r: &PtpStats)
        ensures
            r == &self.stats,
    {
        &self.stats
    }

    pub fn get_clocks(&self) -> (r: &Vec<PtpClock>)
        ensures
            r == &self.clocks,
    {
        &self.clocks
    }
}

/// Records that the Sync of sequence id `seq` was seen at `now_us`.
fn remember_sync(pairs: &mut Vec<(u16, i64)>, seq: u16, now_us: i64)
    ensures
        has_sync(final(pairs)@, seq),
        forall|s: u16| has_sync(old(pairs)@, s) ==> has_sync(final(pairs)@, s),
{
    let mut i: usize = 0;
    while i < pairs.len()
        invariant
            i <= pairs@.len(),
            pairs@ == old(pairs)@,
        decreases pairs@.len() - i,
    {
        if pairs[i].0 == seq {
            let ghost before = pairs@;
            pairs.set(i, (seq, now_us));
            assert(pairs@[i as int].0 == seq);
            assert forall|s: u16| has_sync(before, s) implies has_sync(pairs@, s) by {
                let k = choose|k: int| 0 <= k < before.len() && (#[trigger] before[k]).0 == s;
                assert(pairs@[k].0 == s);
            }
            return;
        }
        i = i + 1;
    }
    let ghost before = pairs@;
    pairs.push((seq, now_us));
    assert(pairs@[before.len() as int].0 == seq);
    assert forall|s: u16| has_sync(before, s) implies has_sync(pairs@, s) by {
        let k = choose|k: int| 0 <= k < before.len() && (#[trigger] before[k]).0 == s;
        assert(pairs@[k].0 == s);
    }
}

impl Default for PtpAnalyzer {
    fn default() -> (r: PtpAnalyzer)
        ensures
            r.wf() && r.stats.messages == 0,
    {
        PtpAnalyzer::new()
    }
}

} // verus!
