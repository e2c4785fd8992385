//! Dispatch of frames to the PTP, CBS, TAS and FRER analyzers, with TSN
//! stream and flow tallies.
use vstd::prelude::*;
use crate::cbs::{cbs_step, CbsAnalyzer};
use crate::frer::{frer_step, FrerAnalyzer};
use crate::packet::{opt_text, CapturedPacket, TsnType};
use crate::ptp::{ptp_step, PtpAnalyzer};
use crate::tas::{tas_step, TasAnalyzer};
use crate::text::{dec_text, push_char, push_dec};
use crate::textops::push_unique_text;

verus! {

/// A TSN stream; its bandwidth follows from `byte_count` over
/// `last_seen_us - first_seen_us`.
pub struct TsnStream {
    pub stream_id: String,
    pub src_mac: String,
    pub dst_mac: String,
    pub vlan_id: Option<u16>,
    pub priority: u8,
    pub packet_count: u64,
    pub byte_count: u64,
    pub first_seen_us: i64,
    pub last_seen_us: i64,
}

pub struct TsnFlow {
    pub flow_id: String,
    pub src: String,
    pub dst: String,
    pub protocol: String,
    pub traffic_class: u8,
    pub packets: u64,
    pub bytes: u64,
    pub streams: Vec<String>,
}

pub struct ProtocolAnalyzer {
    pub packets: u64,
    pub bytes: u64,
    pub ptp: PtpAnalyzer,
    pub cbs: CbsAnalyzer,
    pub tas: TasAnalyzer,
    pub frer: FrerAnalyzer,
    pub streams: Vec<TsnStream>,
    pub flows: Vec<TsnFlow>,
}

/// `<src-mac>:<dst-mac>:<vlan-id or 0>:<protocol or ETH>`.
pub open spec fn flow_key(p: CapturedPacket) -> Seq<char> {
    p.info.src_mac@.push(':') + p.info.dst_mac@.push(':') + dec_text(
        match p.info.vlan_id {
            Some(v) => v as nat,
            None => 0nat,
        },
    ).push(':') + flow_protocol(p)
}

pub open spec fn flow_protocol(p: CapturedPacket) -> Seq<char> {
    match opt_text(p.info.protocol) {
        Some(s) => s,
        None => "ETH"@,
    }
}

pub open spec fn tsn_type_of_packet(p: CapturedPacket) -> Option<TsnType> {
    match p.tsn_info {
        Some(t) => Some(t.tsn_type),
        None => None,
    }
}

impl ProtocolAnalyzer {
    pub open spec fn wf(&self) -> bool {
        &&& self.ptp.wf() && self.cbs.wf() && self.tas.wf() && self.frer.wf()
        &&& self.ptp.stats.messages <= self.packets
        &&& self.cbs.total_packets <= self.packets && self.cbs.total_bytes <= self.bytes
        &&& self.tas.total_packets <= self.packets && self.tas.total_bytes <= self.bytes
        &&& self.frer.stats.total_packets <= self.packets
        &&& forall|i: int| 0 <= i < self.streams@.len() ==> (#[trigger] self.streams@[i]).packet_count <= self.packets
            && self.streams@[i].byte_count <= self.bytes
        &&& forall|i: int| 0 <= i < self.flows@.len() ==> (#[trigger] self.flows@[i]).packets <= self.packets
            && self.flows@[i].bytes <= self.bytes
    }

    pub fn new() -> (r: ProtocolAnalyzer)
        ensures
            r.wf(),
            r.packets == 0,
            r.streams@.len() == 0,
            r.flows@.len() == 0,
    {
        ProtocolAnalyzer {
            packets: 0,
            bytes: 0,
            ptp: PtpAnalyzer::new(),
            cbs: CbsAnalyzer::new(),
            tas: TasAnalyzer::new(),
            frer: FrerAnalyzer::new(),
            streams: Vec::new(),
            flows: Vec::new(),
        }
    }

    fn update_stream(&mut self, stream_id: &String, packet: &CapturedPacket)
        requires
            old(self).wf(),
            old(self).packets > 0,
            forall|i: int| 0 <= i < old(self).streams@.len() ==> (#[trigger] old(self).streams@[i]).packet_count < old(self).packets
                && old(self).streams@[i].byte_count + packet.length <= old(self).bytes,
            packet.length <= old(self).bytes,
        ensures
            final(self).wf(),
            final(self).packets == old(self).packets && final(self).bytes == old(self).bytes,
            final(self).flows == old(self).flows,
            final(self).ptp == old(self).ptp && final(self).frer == old(self).frer,
            final(self).cbs == old(self).cbs && final(self).tas == old(self).tas,
            exists|i: int| 0 <= i < final(self).streams@.len() && (#[trigger] final(self).streams@[i]).stream_id@ == stream_id@
                && final(self).streams@[i].last_seen_us == packet.timestamp_us
                && final(self).streams@[i].packet_count == (if i < old(self).streams@.len() { old(self).streams@[i].packet_count as int } else { 0int }) + 1
                && final(self).streams@[i].byte_count == (if i < old(self).streams@.len() { old(self).streams@[i].byte_count as int } else { 0int }) + packet.length
                && (i < old(self).streams@.len() ==> old(self).streams@[i].stream_id@ == stream_id@)
                && (i >= old(self).streams@.len() ==> forall|k: int| 0 <= k < old(self).streams@.len() ==> (#[trigger] old(self).streams@[k]).stream_id@ != stream_id@),
    {
        let mut idx: usize = 0;
        let mut found = false;
        while idx < self.streams.len() && !found
            invariant
                idx <= self.streams@.len(),
                found ==> idx < self.streams@.len() && self.streams@[idx as int].stream_id@ == stream_id@,
                forall|k: int| 0 <= k < idx ==> (#[trigger] self.streams@[k]).stream_id@ != stream_id@,
            decreases self.streams@.len() - idx + (if found { 0int } else { 1int }),
        {
            if self.streams[idx].stream_id == *stream_id {
                found = true;
            } else {
                idx = idx + 1;
            }
        }
        if !found {
            idx = self.streams.len();
            self.streams.push(TsnStream {
                stream_id: stream_id.clone(),
                src_mac: packet.info.src_mac.clone(),
                dst_mac: packet.info.dst_mac.clone(),
                vlan_id: packet.info.vlan_id,
                priority: match packet.info.vlan_pcp {
                    Some(p) => p,
                    None => 0,
                },
                packet_count: 0,
                byte_count: 0,
                first_seen_us: packet.timestamp_us,
                last_seen_us: packet.timestamp_us,
            });
        }
        let ghost mid = self.streams@;
        let ghost old_len = old(self).streams@.len();
        let mut st = self.streams.remove(idx);
        let ghost st0 = st;
        st.packet_count = st.packet_count + 1;
        st.byte_count = st.byte_count + packet.length as u64;
        st.last_seen_us = packet.timestamp_us;
        self.streams.insert(idx, st);
        assert forall|i: int| 0 <= i < self.streams@.len() implies (#[trigger] self.streams@[i]).packet_count <= self.packets
            && self.streams@[i].byte_count <= self.bytes by {
            if i != idx {
                assert(self.streams@[i] == mid[i]);
            }
        }
        assert(self.streams@[idx as int].stream_id@ == stream_id@);
        proof {
            if idx < old_len {
                assert(st0 == old(self).streams@[idx as int]);
            }
        }
    }

    fn update_flow(&mut self, packet: &CapturedPacket)
        requires
            old(self).wf(),
            old(self).packets > 0,
            forall|i: int| 0 <= i < old(self).flows@.len() ==> (#[trigger] old(self).flows@[i]).packets < old(self).packets
                && old(self).flows@[i].bytes + packet.length <= old(self).bytes,
            packet.length <= old(self).bytes,
        ensures
            final(self).wf(),
            final(self).packets == old(self).packets && final(self).bytes == old(self).bytes,
            final(self).streams == old(self).streams,
            final(self).ptp == old(self).ptp && final(self).frer == old(self).frer,
            final(self).cbs == old(self).cbs && final(self).tas == old(self).tas,
            exists|i: int| 0 <= i < final(self).flows@.len() && (#[trigger] final(self).flows@[i]).flow_id@ == flow_key(*packet)
                && final(self).flows@[i].packets == (if i < old(self).flows@.len() { old(self).flows@[i].packets as int } else { 0int }) + 1
                && final(self).flows@[i].bytes == (if i < old(self).flows@.len() { old(self).flows@[i].bytes as int } else { 0int }) + packet.length
                && (i < old(self).flows@.len() ==> old(self).flows@[i].flow_id@ == flow_key(*packet))
                && (i >= old(self).flows@.len() ==> forall|k: int| 0 <= k < old(self).flows@.len() ==> (#[trigger] old(self).flows@[k]).flow_id@ != flow_key(*packet)),
    {
        let mut id = packet.info.src_mac.clone();
        push_char(&mut id, ':');
        id.append(packet.info.dst_mac.as_str());
        push_char(&mut id, ':');
        let v: u64 = match packet.info.vlan_id {
            Some(v) => v as u64,
            None => 0,
        };
        push_dec(&mut id, v);
        push_char(&mut id, ':');
        let proto = match &packet.info.protocol {
            Some(p) => p.clone(),
            None => String::from_str("ETH"),
        };
        id.append(proto.as_str());
        let mut idx: usize = 0;
        let mut found = false;
        while idx < self.flows.len() && !found
            invariant
                idx <= self.flows@.len(),
                found ==> idx < self.flows@.len() && self.flows@[idx as int].flow_id@ == id@,
                forall|k: int| 0 <= k < idx ==> (#[trigger] self.flows@[k]).flow_id@ != id@,
            decreases self.flows@.len() - idx + (if found { 0int } else { 1int }),
        {
            if self.flows[idx].flow_id == id {
                found = true;
            } else {
                idx = idx + 1;
            }
        }
        if !found {
            idx = self.flows.len();
            self.flows.push(TsnFlow {
                flow_id: id.clone(),
                src: packet.info.src_mac.clone(),
                dst: packet.info.dst_mac.clone(),
                protocol: proto,
                traffic_class: match packet.info.vlan_pcp {
                    Some(p) => p,
                    None => 0,
                },
                packets: 0,
                bytes: 0,
                streams: Vec::new(),
            });
        }
        let ghost mid = self.flows@;
        let ghost old_len = old(self).flows@.len();
        let mut f = self.flows.remove(idx);
        let ghost f0 = f;
        f.packets = f.packets + 1;
        f.bytes = f.bytes + packet.length as u64;
        match &packet.tsn_info {
            Some(t) => match &t.stream_id {
                Some(s) => push_unique_text(&mut f.streams, s),
                None => {},
            },
            None => {},
        }
        self.flows.insert(idx, f);
        assert forall|i: int| 0 <= i < self.flows@.len() implies (#[trigger] self.flows@[i]).packets <= self.packets
            && self.flows@[i].bytes <= self.bytes by {
            if i != idx {
                assert(self.flows@[i] == mid[i]);
            }
        }
        assert(self.flows@[idx as int].flow_id@ == flow_key(*packet));
        proof {
            if idx < old_len {
                assert(f0 == old(self).flows@[idx as int]);
            }
        }
    }

    /// Feeds a frame to the analyzers: PTP frames to the PTP analyzer,
    /// annotated frames to their stream and, by TSN type, to the CBS, TAS or
    /// FRER analyzer; every frame to its flow.
    pub fn analyze_packet(&mut self, packet: &CapturedPacket)
        requires
            old(self).wf(),
            old(self).packets < u64::MAX,
            old(self).bytes + packet.length <= u64::MAX,
        ensures
            final(self).wf(),
            final(self).packets == old(self).packets + 1,
            final(self).bytes == old(self).bytes + packet.length,
            final(self).ptp.stats.messages == old(self).ptp.stats.messages + (if packet.info.is_ptp
                && crate::ptp::ptp_of(*packet).is_some() { 1int } else { 0int }),
            final(self).cbs.total_packets == old(self).cbs.total_packets + (if tsn_type_of_packet(*packet) == Some(TsnType::Cbs) { 1int } else { 0int }),
            final(self).tas.total_packets == old(self).tas.total_packets + (if tsn_type_of_packet(*packet) == Some(TsnType::Tas) { 1int } else { 0int }),
            final(self).frer.stats.total_packets == old(self).frer.stats.total_packets + (if tsn_type_of_packet(*packet) == Some(TsnType::Frer) { 1int } else { 0int }),
            exists|i: int| 0 <= i < final(self).flows@.len() && (#[trigger] final(self).flows@[i]).flow_id@ == flow_key(*packet)
                && final(self).flows@[i].packets == (if i < old(self).flows@.len() { old(self).flows@[i].packets as int } else { 0int }) + 1
                && final(self).flows@[i].bytes == (if i < old(self).flows@.len() { old(self).flows@[i].bytes as int } else { 0int }) + packet.length
                && (i < old(self).flows@.len() ==> old(self).flows@[i].flow_id@ == flow_key(*packet))
                && (i >= old(self).flows@.len() ==> forall|k: int| 0 <= k < old(self).flows@.len() ==> (#[trigger] old(self).flows@[k]).flow_id@ != flow_key(*packet)),
            packet.info.is_ptp ==> ptp_step(old(self).ptp, final(self).ptp, *packet),
            !packet.info.is_ptp ==> final(self).ptp == old(self).ptp,
            tsn_type_of_packet(*packet) == Some(TsnType::Cbs) ==> cbs_step(old(self).cbs, final(self).cbs, *packet),
            tsn_type_of_packet(*packet) != Some(TsnType::Cbs) ==> final(self).cbs == old(self).cbs,
            tsn_type_of_packet(*packet) == Some(TsnType::Tas) ==> tas_step(old(self).tas, final(self).tas, *packet),
            tsn_type_of_packet(*packet) != Some(TsnType::Tas) ==> final(self).tas == old(self).tas,
            tsn_type_of_packet(*packet) == Some(TsnType::Frer) ==> frer_step(old(self).frer, final(self).frer, *packet),
            tsn_type_of_packet(*packet) != Some(TsnType::Frer) ==> final(self).frer == old(self).frer,
            ({
                let sid = match packet.tsn_info { Some(t) => opt_text(t.stream_id), None => None };
                sid.is_some() ==> exists|i: int| 0 <= i < final(self).streams@.len()
                    && (#[trigger] final(self).streams@[i]).stream_id@ == sid.unwrap()
                    && final(self).streams@[i].packet_count == (if i < old(self).streams@.len() { old(self).streams@[i].packet_count as int } else { 0int }) + 1
                    && final(self).streams@[i].byte_count == (if i < old(self).streams@.len() { old(self).streams@[i].byte_count as int } else { 0int }) + packet.length
                    && (i < old(self).streams@.len() ==> old(self).streams@[i].stream_id@ == sid.unwrap())
            }),
            ({
                let sid = match packet.tsn_info { Some(t) => opt_text(t.stream_id), None => None };
                sid.is_none() ==> final(self).streams == old(self).streams
            }),
    {
        self.packets = self.packets + 1;
        self.bytes = self.bytes + packet.length as u64;
        if packet.info.is_ptp {
            self.ptp.process_packet(packet);
        }
        match &packet.tsn_info {
            Some(t) => {
                match &t.stream_id {
                    Some(s) => self.update_stream(s, packet),
                    None => {},
                }
                match t.tsn_type {
                    TsnType::Cbs => self.cbs.process_packet(packet),
                    TsnType::Tas => self.tas.process_packet(packet),
                    TsnType::Frer => self.frer.process_packet(packet),
                    _ => {},
                }
            },
            None => {},
        }
        self.update_flow(packet);
    }

    pub fn get_streams(&self) -> (r: &Vec<TsnStream>)
        ensures
            r == &self.streams,
    {
        &self.streams
    }

    pub fn get_flows(&self) -> (r: &Vec<TsnFlow>)
        ensures
            r == &self.flows,
    {
        &self.flows
    }

    /// Forgets all streams, flows and analyzer state.
    pub fn reset(&mut self)
        ensures
            final(self).wf(),
            final(self).packets == 0,
            final(self).streams@.len() == 0,
            final(self).flows@.len() == 0,
    {
        *self = ProtocolAnalyzer::new();
    }
}

impl Default for ProtocolAnalyzer {
    fn default() -> (r: ProtocolAnalyzer)
        ensures
            r.wf() && r.packets == 0,
    {
        ProtocolAnalyzer::new()
    }
}

} // verus!
