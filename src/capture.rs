//! The capture store: a bounded FIFO of captured records with aggregate
//! counters, which also drives the interval tracker.
use vstd::prelude::*;
use crate::interval::IntervalTracker;
use crate::packet::{opt_text, packet_matches, CapturedPacket};
use crate::text::{dec_text, push_char, push_dec};

verus! {

pub const MAX_PACKETS_BUFFER: usize = 100000;
/// Bytes of Ethernet, IPv4 and TCP headers without options.
pub const TCP_HEADER_ESTIMATE: u32 = 54;

#[derive(Clone, Copy, Debug)]
pub struct CaptureStats {
    pub packets_captured: u64,
    pub bytes_captured: u64,
    pub packets_dropped: u64,
    pub tsn_packets: u64,
    pub ptp_packets: u64,
    /// Wall-clock start of the session in microseconds since the epoch.
    pub start_time_us: Option<i64>,
}

impl CaptureStats {
    pub fn zero() -> (r: CaptureStats)
        ensures
            r == CaptureStats::zero_spec(),
    {
        CaptureStats {
            packets_captured: 0,
            bytes_captured: 0,
            packets_dropped: 0,
            tsn_packets: 0,
            ptp_packets: 0,
            start_time_us: None,
        }
    }
}

pub struct InterfaceInfo {
    pub name: String,
    pub description: String,
    pub addresses: Vec<String>,
}

/// Length of a ring of capacity `cap` holding `len` records after one admit.
pub open spec fn admitted_len(len: nat, cap: nat) -> nat {
    if len < cap { len + 1 } else { cap }
}

/// `b` is `a` after admitting one record: same capacity, one more record
/// unless full, one more counted.
pub open spec fn admit_step(a: CaptureManager, b: CaptureManager) -> bool {
    &&& b.capacity == a.capacity
    &&& b.packets@.len() == admitted_len(a.packets@.len(), a.capacity as nat)
    &&& b.stats.packets_captured == a.stats.packets_captured + 1
}

pub struct CaptureManager {
    pub interface: String,
    pub buffer_size: usize,
    pub capacity: usize,
    pub packets: std::collections::VecDeque<CapturedPacket>,
    pub is_capturing: bool,
    pub stats: CaptureStats,
    pub next_id: u64,
    pub interval_tracker: IntervalTracker,
}

/// After `n` admits into an empty store of capacity `c` that has counted
/// nothing, it holds `min(n, c)` records and has counted `n`, evictions
/// notwithstanding.
pub proof fn lemma_ingest_counts(states: Seq<CaptureManager>)
    requires
        states.len() >= 1,
        states[0].packets@.len() == 0,
        states[0].stats.packets_captured == 0,
        states[0].capacity > 0,
        forall|i: int| 0 <= i < states.len() - 1 ==> admit_step(#[trigger] states[i], states[i + 1]),
    ensures
        ({
            let n = states.len() - 1;
            let c = states[0].capacity as int;
            &&& states.last().packets@.len() == if n < c { n } else { c }
            &&& states.last().stats.packets_captured == n
        }),
    decreases states.len(),
{
    if states.len() > 1 {
        let pre = states.drop_last();
        assert forall|i: int| 0 <= i < pre.len() - 1 implies admit_step(#[trigger] pre[i], pre[i + 1]) by {
            assert(admit_step(states[i], states[i + 1]));
        }
        lemma_ingest_counts(pre);
        assert(admit_step(states[states.len() - 2], states[states.len() - 1]));
        assert forall|i: int| 0 <= i < states.len() implies (#[trigger] states[i]).capacity == states[0].capacity by {
            lemma_capacity_kept(states, i);
        }
    }
}

proof fn lemma_capacity_kept(states: Seq<CaptureManager>, i: int)
    requires
        0 <= i < states.len(),
        forall|k: int| 0 <= k < states.len() - 1 ==> admit_step(#[trigger] states[k], states[k + 1]),
    ensures
        states[i].capacity == states[0].capacity,
    decreases i,
{
    if i > 0 {
        lemma_capacity_kept(states, i - 1);
        assert(admit_step(states[i - 1], states[i]));
    }
}

/// `b` is `a` after `ingest` returned `id`.
pub open spec fn ingest_step(a: CaptureManager, b: CaptureManager, id: u64) -> bool {
    id == a.next_id && b.next_id == id + 1
}

/// The ids that successive ingests return strictly increase, so no two are equal.
pub proof fn lemma_ids_increase(states: Seq<CaptureManager>, ids: Seq<u64>, i: int, j: int)
    requires
        states.len() == ids.len() + 1,
        forall|k: int| 0 <= k < ids.len() ==> ingest_step(#[trigger] states[k], states[k + 1], ids[k]),
        0 <= i < j < ids.len(),
    ensures
        ids[i] < ids[j],
    decreases j - i,
{
    assert(ingest_step(states[j - 1], states[j], ids[j - 1]));
    assert(ingest_step(states[j], states[j + 1], ids[j]));
    if i < j - 1 {
        lemma_ids_increase(states, ids, i, j - 1);
    }
}

impl CaptureManager {
    /// Records fit the ring, are never longer on the wire than captured, and
    /// carry strictly increasing ids below `next_id`.
    pub open spec fn wf(&self) -> bool {
        &&& 0 < self.capacity <= MAX_PACKETS_BUFFER
        &&& self.packets@.len() <= self.capacity
        &&& self.interval_tracker.wf()
        &&& self.stats.packets_dropped <= self.stats.packets_captured
        &&& self.stats.tsn_packets <= self.stats.packets_captured
        &&& self.stats.ptp_packets <= self.stats.packets_captured
        &&& forall|i: int| 0 <= i < self.packets@.len()
            ==> (#[trigger] self.packets@[i]).length >= self.packets@[i].data@.len()
        &&& forall|i: int| 0 <= i < self.packets@.len() ==> (#[trigger] self.packets@[i]).id < self.next_id
        &&& forall|i: int, j: int| 0 <= i < j < self.packets@.len()
            ==> (#[trigger] self.packets@[i]).id < (#[trigger] self.packets@[j]).id
    }

    /// A store of the default capacity; `buffer_size_mb` is kept in bytes.
    pub fn new(interface: &str, buffer_size_mb: usize) -> (r: CaptureManager)
        requires
            buffer_size_mb <= usize::MAX / 1048576,
        ensures
            r.wf(),
            r.capacity == MAX_PACKETS_BUFFER,
            r.buffer_size == buffer_size_mb * 1048576,
            r.interface@ == interface@,
            r.packets@.len() == 0,
            !r.is_capturing,
            r.next_id == 0,
            r.stats.packets_captured == 0,
    {
        Self::with_capacity(interface, buffer_size_mb, MAX_PACKETS_BUFFER)
    }

    pub fn with_capacity(interface: &str, buffer_size_mb: usize, capacity: usize) -> (r: CaptureManager)
        requires
            buffer_size_mb <= usize::MAX / 1048576,
            0 < capacity <= MAX_PACKETS_BUFFER,
        ensures
            r.wf(),
            r.capacity == capacity,
            r.buffer_size == buffer_size_mb * 1048576,
            r.interface@ == interface@,
            r.packets@.len() == 0,
            !r.is_capturing,
            r.next_id == 0,
            r.stats == CaptureStats::zero_spec(),
    {
        CaptureManager {
            interface: String::from_str(interface),
            buffer_size: buffer_size_mb * 1048576,
            capacity,
            packets: std::collections::VecDeque::new(),
            is_capturing: false,
            stats: CaptureStats::zero(),
            next_id: 0,
            interval_tracker: IntervalTracker::new(),
        }
    }
}

impl Default for CaptureStats {
    fn default() -> (r: CaptureStats)
        ensures
            r == CaptureStats::zero_spec(),
    {
        CaptureStats::zero()
    }
}

impl CaptureStats {
    pub open spec fn zero_spec() -> CaptureStats {
        CaptureStats {
            packets_captured: 0,
            bytes_captured: 0,
            packets_dropped: 0,
            tsn_packets: 0,
            ptp_packets: 0,
            start_time_us: None,
        }
    }
}


/// How a record's endpoint is shown: `ip:port`, `ip`, or the MAC address.
pub open spec fn endpoint_text(ip: Option<Seq<char>>, port: Option<u16>, mac: Seq<char>) -> Seq<char> {
    match ip {
        Some(a) => match port {
            Some(p) => a.push(':') + dec_text(p as nat),
            None => a,
        },
        None => mac,
    }
}

fn endpoint_string(ip: &Option<String>, port: Option<u16>, mac: &String) -> (r: String)
    ensures
        r@ == endpoint_text(opt_text(*ip), port, mac@),
{
    match ip {
        Some(a) => {
            let mut s = a.clone();
            match port {
                Some(p) => {
                    push_char(&mut s, ':');
                    push_dec(&mut s, p as u64);
                },
                None => {},
            }
            s
        },
        None => mac.clone(),
    }
}

pub open spec fn same_record(a: CapturedPacket, b: CapturedPacket) -> bool {
    a.id == b.id && a.timestamp_us == b.timestamp_us && a.length == b.length && a.data@ == b.data@
        && a.info == b.info && a.tsn_info == b.tsn_info
}

/// The ring after admitting `p`: the oldest record leaves when it is full.
pub open spec fn admitted(ring: Seq<CapturedPacket>, cap: nat, p: CapturedPacket) -> Seq<CapturedPacket> {
    if ring.len() < cap { ring.push(p) } else { ring.drop_first().push(p) }
}

impl CaptureManager {
    /// The counters may take one more record of `length` bytes.
    pub open spec fn has_room(&self, length: u32) -> bool {
        self.stats.packets_captured < u64::MAX && self.stats.bytes_captured + length <= u64::MAX
    }

    /// Admits a record: updates the counters, feeds the interval tracker with
    /// the monotonic instant `capture_us`, and appends it, evicting the
    /// oldest record when the ring is full.
    pub fn add_packet(&mut self, packet: CapturedPacket, capture_us: u64)
        requires
            old(self).wf(),
            old(self).has_room(packet.length),
            packet.length >= packet.data@.len(),
            old(self).next_id <= packet.id < u64::MAX,
        ensures
            final(self).wf(),
            admit_step(*old(self), *final(self)),
            final(self).packets@ == admitted(old(self).packets@, old(self).capacity as nat, packet),
            final(self).packets@.len() == admitted_len(old(self).packets@.len(), old(self).capacity as nat),
            final(self).capacity == old(self).capacity,
            final(self).next_id == packet.id + 1,
            final(self).is_capturing == old(self).is_capturing,
            final(self).interface == old(self).interface,
            final(self).stats.packets_captured == old(self).stats.packets_captured + 1,
            final(self).stats.bytes_captured == old(self).stats.bytes_captured + packet.length,
            final(self).stats.packets_dropped == old(self).stats.packets_dropped + (if old(
                self,
            ).packets@.len() >= old(self).capacity { 1int } else { 0int }),
            final(self).stats.tsn_packets == old(self).stats.tsn_packets + (if packet.tsn_info.is_some() { 1int } else { 0int }),
            final(self).stats.ptp_packets == old(self).stats.ptp_packets + (if packet.info.is_ptp { 1int } else { 0int }),
            final(self).stats.start_time_us == old(self).stats.start_time_us,
            final(self).interval_tracker.last_packet == Some((capture_us, packet.timestamp_us)),
            ({
                let s = final(self).interval_tracker.interval_samples@.last();
                &&& final(self).interval_tracker.interval_samples@.len() > 0
                &&& s.packet_id == packet.id
                &&& s.length == packet.length
                &&& s.src@ == endpoint_text(opt_text(packet.info.src_ip), packet.info.src_port, packet.info.src_mac@)
                &&& s.dst@ == endpoint_text(opt_text(packet.info.dst_ip), packet.info.dst_port, packet.info.dst_mac@)
            }),
    {
        self.stats.packets_captured = self.stats.packets_captured + 1;
        self.stats.bytes_captured = self.stats.bytes_captured + packet.length as u64;
        if packet.tsn_info.is_some() {
            self.stats.tsn_packets = self.stats.tsn_packets + 1;
        }
        if packet.info.is_ptp {
            self.stats.ptp_packets = self.stats.ptp_packets + 1;
        }
        let tcp_name = String::from_str("TCP");
        let is_tcp = match &packet.info.protocol {
            Some(p) => *p == tcp_name,
            None => false,
        };
        let tcp_flags_ack = match packet.info.tcp_flags {
            Some(f) => f.ack,
            None => false,
        };
        let payload_len: u32 = if is_tcp && packet.length > TCP_HEADER_ESTIMATE {
            packet.length - TCP_HEADER_ESTIMATE
        } else {
            0
        };
        let src = endpoint_string(&packet.info.src_ip, packet.info.src_port, &packet.info.src_mac);
        let dst = endpoint_string(&packet.info.dst_ip, packet.info.dst_port, &packet.info.dst_mac);
        let protocol = match &packet.info.protocol {
            Some(p) => p.as_str(),
            None => packet.info.ethertype_name.as_str(),
        };
        let src_ip = match &packet.info.src_ip {
            Some(a) => Some(a.as_str()),
            None => None,
        };
        let dst_ip = match &packet.info.dst_ip {
            Some(a) => Some(a.as_str()),
            None => None,
        };
        self.interval_tracker.process_packet(
            packet.id,
            packet.timestamp_us,
            capture_us,
            packet.length,
            src.as_str(),
            dst.as_str(),
            protocol,
            src_ip,
            dst_ip,
            packet.info.src_port,
            packet.info.dst_port,
            is_tcp,
            packet.info.seq_num,
            packet.info.ack_num,
            tcp_flags_ack,
            payload_len,
        );
        let ghost before = self.packets@;
        if self.packets.len() >= self.capacity {
            self.packets.pop_front();
            self.stats.packets_dropped = self.stats.packets_dropped + 1;
        }
        self.next_id = packet.id + 1;
        self.packets.push_back(packet);
        assert(self.packets@ =~= admitted(before, self.capacity as nat, packet));
        assert forall|i: int, j: int| 0 <= i < j < self.packets@.len()
            implies (#[trigger] self.packets@[i]).id < (#[trigger] self.packets@[j]).id by {
            if j == self.packets@.len() - 1 {
                if before.len() < self.capacity {
                    assert(self.packets@[i] == before[i]);
                } else {
                    assert(self.packets@[i] == before[i + 1]);
                }
            } else if before.len() < self.capacity {
                assert(self.packets@[i] == before[i]);
                assert(self.packets@[j] == before[j]);
            } else {
                assert(self.packets@[i] == before[i + 1]);
                assert(self.packets@[j] == before[j + 1]);
            }
        }
        assert forall|i: int| 0 <= i < self.packets@.len() implies
            (#[trigger] self.packets@[i]).length >= self.packets@[i].data@.len()
            && self.packets@[i].id < self.next_id by {
            if i < self.packets@.len() - 1 {
                if before.len() < self.capacity {
                    assert(self.packets@[i] == before[i]);
                } else {
                    assert(self.packets@[i] == before[i + 1]);
                }
            }
        }
    }

    /// Admits a record made elsewhere (a loaded file, say) under the next id,
    /// whatever id it carried; returns the id given.
    pub fn import_packet(&mut self, packet: CapturedPacket, capture_us: u64) -> (id: u64)
        requires
            old(self).wf(),
            old(self).has_room(packet.length),
            packet.length >= packet.data@.len(),
            old(self).next_id < u64::MAX,
        ensures
            final(self).wf(),
            id == old(self).next_id,
            final(self).next_id == id + 1,
            admit_step(*old(self), *final(self)),
            final(self).packets@.last().id == id,
            final(self).packets@.last().data@ == packet.data@,
            final(self).packets@.last().length == packet.length,
            final(self).packets@.last().timestamp_us == packet.timestamp_us,
    {
        let id = self.next_id;
        let mut p = packet;
        p.id = id;
        self.add_packet(p, capture_us);
        id
    }

    /// Builds the record of a frame captured now under the next id and
    /// admits it; returns the id. Ids grow strictly with every call.
    pub fn ingest(&mut self, data: &[u8], timestamp_us: i64, capture_us: u64) -> (id: u64)
        requires
            old(self).wf(),
            data@.len() <= u32::MAX,
            old(self).has_room(data@.len() as u32),
            old(self).next_id < u64::MAX,
        ensures
            final(self).wf(),
            id == old(self).next_id,
            final(self).next_id == id + 1,
            forall|i: int| 0 <= i < old(self).packets@.len() ==> (#[trigger] old(self).packets@[i]).id < id,
            final(self).packets@.len() == admitted_len(old(self).packets@.len(), old(self).capacity as nat),
            packet_matches(id, data@, timestamp_us, final(self).packets@.last()),
            admit_step(*old(self), *final(self)),
            ingest_step(*old(self), *final(self), id),
            final(self).stats.packets_captured == old(self).stats.packets_captured + 1,
            final(self).capacity == old(self).capacity,
    {
        let id = self.next_id;
        let packet = CapturedPacket::from_raw(id, data, timestamp_us);
        self.add_packet(packet, capture_us);
        id
    }

    /// Up to `limit` records from position `offset`, oldest first.
    pub fn get_packets(&self, offset: usize, limit: usize) -> (r: Vec<CapturedPacket>)
        requires
            self.wf(),
        ensures
            r@.len() == (if offset >= self.packets@.len() { 0 } else if self.packets@.len() - offset < limit {
                self.packets@.len() - offset
            } else {
                limit as int
            }),
            forall|i: int| 0 <= i < r@.len() ==> same_record(#[trigger] r@[i], self.packets@[offset + i]),
    {
        let n = self.packets.len();
        let mut out: Vec<CapturedPacket> = Vec::new();
        if offset >= n {
            return out;
        }
        let end = if n - offset < limit { n } else { offset + limit };
        let mut i = offset;
        while i < end
            invariant
                n == self.packets@.len(),
                offset <= i <= end <= n,
                out@.len() == i - offset,
                forall|k: int| 0 <= k < out@.len() ==> same_record(#[trigger] out@[k], self.packets@[offset + k]),
            decreases end - i,
        {
            out.push(self.packets[i].copy());
            i = i + 1;
        }
        out
    }

    pub fn get_packet_count(&self) -> (r: usize)
        ensures
            r == self.packets@.len(),
    {
        self.packets.len()
    }

    pub fn get_stats(&self) -> (r: CaptureStats)
        ensures
            r == self.stats,
    {
        self.stats
    }

    /// Starts a session at `now_us`; a running session is left as it is.
    /// Returns whether a new session started.
    pub fn start_capture(&mut self, now_us: i64) -> (started: bool)
        requires
            old(self).wf(),
        ensures
            final(self).wf(),
            started == !old(self).is_capturing,
            final(self).is_capturing,
            started ==> final(self).packets@.len() == 0 && final(self).stats.start_time_us == Some(now_us),
            !started ==> final(self).packets@ == old(self).packets@ && final(self).stats == old(self).stats,
            final(self).next_id == old(self).next_id,
            final(self).capacity == old(self).capacity,
    {
        if self.is_capturing {
            return false;
        }
        self.is_capturing = true;
        self.stats.start_time_us = Some(now_us);
        self.packets.clear();
        true
    }

    pub fn stop_capture(&mut self)
        requires
            old(self).wf(),
        ensures
            final(self).wf(),
            !final(self).is_capturing,
            final(self).packets@ == old(self).packets@,
            final(self).stats == old(self).stats,
            final(self).next_id == old(self).next_id,
    {
        self.is_capturing = false;
    }

    pub fn is_capturing(&self) -> (r: bool)
        ensures
            r == self.is_capturing,
    {
        self.is_capturing
    }

    /// Changes the interface; refused while a session runs.
    pub fn set_interface(&mut self, interface: &str) -> (r: Result<(), String>)
        requires
            old(self).wf(),
        ensures
            final(self).wf(),
            r.is_ok() == !old(self).is_capturing,
            r.is_ok() ==> final(self).interface@ == interface@,
            r.is_err() ==> final(self).interface == old(self).interface,
            final(self).packets@ == old(self).packets@,
            final(self).stats == old(self).stats,
            final(self).next_id == old(self).next_id,
            final(self).is_capturing == old(self).is_capturing,
    {
        if self.is_capturing {
            return Err(String::from_str("Cannot change interface while capturing"));
        }
        self.interface = String::from_str(interface);
        Ok(())
    }

    pub fn get_interface(&self) -> (r: &str)
        ensures
            r@ == self.interface@,
    {
        self.interface.as_str()
    }

    pub fn get_buffer_size(&self) -> (r: usize)
        ensures
            r == self.buffer_size,
    {
        self.buffer_size
    }

    /// Empties the ring, zeroes the counters and resets the interval tracker.
    pub fn clear_packets(&mut self)
        requires
            old(self).wf(),
        ensures
            final(self).wf(),
            final(self).packets@.len() == 0,
            final(self).stats == CaptureStats::zero_spec(),
            final(self).interval_tracker.rtt_samples@.len() == 0,
            final(self).interval_tracker.interval_samples@.len() == 0,
            final(self).next_id == old(self).next_id,
            final(self).capacity == old(self).capacity,
    {
        self.packets.clear();
        self.stats = CaptureStats::zero();
        self.interval_tracker.reset();
    }

    pub fn get_interval_data(&self, limit: usize) -> (r: crate::interval::IntervalData)
        requires
            self.wf(),
        ensures
            r.intervals@ == crate::interval::keep_last(self.interval_tracker.interval_samples@, limit as nat),
            r.rtt_samples@ == crate::interval::keep_last(self.interval_tracker.rtt_samples@, limit as nat),
            crate::interval::stats_of(self.interval_tracker.all_intervals@, r.interval_stats),
    {
        self.interval_tracker.get_data(limit)
    }
}

} // verus!
