//! One frame through the pipeline: the topology sees it before the store
//! admits it, so a subscriber never sees a record the topology has not.
use vstd::prelude::*;
use crate::capture::CaptureManager;
use crate::packet::{packet_matches, CapturedPacket};
use crate::topology::{types_kept, TopologyManager};

verus! {

pub struct CaptureEngine {
    pub store: CaptureManager,
    pub topology: TopologyManager,
}

impl CaptureEngine {
    pub open spec fn wf(&self) -> bool {
        self.store.wf() && self.topology.wf()
    }

    pub fn new(interface: &str, buffer_size_mb: usize) -> (r: CaptureEngine)
        requires
            buffer_size_mb <= usize::MAX / 1048576,
        ensures
            r.wf(),
            r.store.packets@.len() == 0,
            r.topology.nodes@.len() == 0,
    {
        CaptureEngine { store: CaptureManager::new(interface, buffer_size_mb), topology: TopologyManager::new() }
    }

    /// Builds the record of a frame under the next id, updates the topology
    /// with it, then admits it to the store; returns the id. `None`, with
    /// nothing changed, when a counter or the frame length would overflow.
    pub fn ingest_frame(&mut self, data: &[u8], timestamp_us: i64, capture_us: u64) -> (r: Option<u64>)
        requires
            old(self).wf(),
        ensures
            final(self).wf(),
            types_kept(old(self).topology.nodes@, final(self).topology.nodes@),
            match r {
                Some(id) => {
                    &&& id == old(self).store.next_id
                    &&& final(self).store.next_id == id + 1
                    &&& packet_matches(id, data@, timestamp_us, final(self).store.packets@.last())
                    &&& final(self).store.stats.packets_captured == old(self).store.stats.packets_captured + 1
                    &&& final(self).topology.stats.total_packets == old(self).topology.stats.total_packets + 1
                },
                None => final(self).store.packets@ == old(self).store.packets@ && final(self).topology.nodes@
                    == old(self).topology.nodes@,
            },
            r.is_none() == !(data@.len() <= u32::MAX && old(self).store.next_id < u64::MAX
                && old(self).store.stats.packets_captured < u64::MAX
                && old(self).store.stats.bytes_captured + data@.len() <= u64::MAX
                && old(self).topology.stats.total_packets < u64::MAX
                && old(self).topology.stats.total_bytes + data@.len() <= u64::MAX
                && old(self).topology.graph_has_room()),
    {
        let n = data.len();
        if n > 0xFFFF_FFFF || self.store.next_id == u64::MAX || self.store.stats.packets_captured == u64::MAX
            || self.store.stats.bytes_captured > u64::MAX - n as u64 || self.topology.stats.total_packets == u64::MAX
            || self.topology.stats.total_bytes > u64::MAX - n as u64 || !self.topology.has_graph_room() {
            return None;
        }
        let id = self.store.next_id;
        let packet = CapturedPacket::from_raw(id, data, timestamp_us);
        self.topology.process_packet(&packet);
        self.store.add_packet(packet, capture_us);
        Some(id)
    }
}

} // verus!
