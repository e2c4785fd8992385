//! The classic PCAP file format in memory: writing records as bytes and
//! reading them back.
use vstd::prelude::*;
use crate::packet::CapturedPacket;

verus! {

pub const PCAP_MAGIC: u32 = 0xa1b2c3d4;
pub const PCAP_MAGIC_SWAPPED: u32 = 0xd4c3b2a1;
pub const PCAP_MAGIC_NANO: u32 = 0xa1b23c4d;
pub const PCAP_MAGIC_NANO_SWAPPED: u32 = 0x4d3cb2a1;
pub const PCAP_VERSION_MAJOR: u16 = 2;
pub const PCAP_VERSION_MINOR: u16 = 4;
pub const PCAP_SNAPLEN: u32 = 65535;
pub const PCAP_LINKTYPE_ETHERNET: u32 = 1;
pub const MICROS: i64 = 1000000;
/// Timestamps are written as 32-bit seconds.
pub const MAX_PCAP_US: i64 = 4294967296000000;

#[derive(Clone, Copy, Debug, PartialEq, Eq, Structural)]
pub enum PcapError {
    /// Fewer than 24 bytes: no global header.
    TooShort,
    /// The first word is none of the four magic numbers.
    BadMagic(u32),
}

pub struct PcapHandler;

pub open spec fn le32_bytes(x: u32) -> Seq<u8> {
    seq![(x % 256) as u8, ((x / 256) % 256) as u8, ((x / 65536) % 256) as u8, (x / 16777216) as u8]
}

pub open spec fn le16_bytes(x: u16) -> Seq<u8> {
    seq![(x % 256) as u8, (x / 256) as u8]
}

pub open spec fn rd32(b: Seq<u8>, i: int, swapped: bool) -> u32 {
    if swapped { crate::packet::be32(b, i) } else { crate::hwts::le32(b, i) }
}

/// The 24-byte global header: microsecond magic, version 2.4, zone 0,
/// accuracy 0, snapshot length 65535, link type Ethernet.
pub open spec fn global_header() -> Seq<u8> {
    le32_bytes(PCAP_MAGIC) + le16_bytes(PCAP_VERSION_MAJOR) + le16_bytes(PCAP_VERSION_MINOR) + le32_bytes(0)
        + le32_bytes(0) + le32_bytes(PCAP_SNAPLEN) + le32_bytes(PCAP_LINKTYPE_ETHERNET)
}

/// A record as the file holds it: seconds, sub-second part, on-wire
/// length and the captured bytes.
pub struct PcapRecordModel {
    pub ts_sec: u32,
    pub ts_sub: u32,
    pub orig_len: u32,
    pub bytes: Seq<u8>,
}

pub open spec fn record_of(p: CapturedPacket) -> PcapRecordModel {
    PcapRecordModel {
        ts_sec: (p.timestamp_us / MICROS) as u32,
        ts_sub: (p.timestamp_us % MICROS) as u32,
        orig_len: p.length,
        bytes: p.data@,
    }
}

pub open spec fn record_bytes(r: PcapRecordModel) -> Seq<u8> {
    le32_bytes(r.ts_sec) + le32_bytes(r.ts_sub) + le32_bytes(r.bytes.len() as u32) + le32_bytes(r.orig_len) + r.bytes
}

pub open spec fn records_bytes(rs: Seq<PcapRecordModel>) -> Seq<u8>
    decreases rs.len(),
{
    if rs.len() == 0 { Seq::empty() } else { record_bytes(rs[0]) + records_bytes(rs.drop_first()) }
}

/// Records read from `b` until fewer than 16 bytes remain or a record
/// would run past the end.
pub open spec fn parse_records(b: Seq<u8>, swapped: bool) -> Seq<PcapRecordModel>
    decreases b.len(),
{
    if b.len() < 16 {
        Seq::empty()
    } else {
        let l = rd32(b, 8, swapped) as int;
        if 16 + l > b.len() {
            Seq::empty()
        } else {
            seq![PcapRecordModel { ts_sec: rd32(b, 0, swapped), ts_sub: rd32(b, 4, swapped), orig_len: rd32(b, 12, swapped), bytes: b.subrange(16, 16 + l) }]
                + parse_records(b.subrange(16 + l, b.len() as int), swapped)
        }
    }
}

/// Timestamps fit 32-bit seconds and captures fit a 32-bit length.
pub open spec fn packets_fit(ps: Seq<CapturedPacket>) -> bool {
    forall|i: int| 0 <= i < ps.len() ==> 0 <= (#[trigger] ps[i]).timestamp_us < MAX_PCAP_US && ps[i].data@.len() <= u32::MAX
}

pub open spec fn records_fit(rs: Seq<PcapRecordModel>) -> bool {
    forall|i: int| 0 <= i < rs.len() ==> (#[trigger] rs[i]).bytes.len() <= u32::MAX
}

proof fn lemma_records_bytes_push(rs: Seq<PcapRecordModel>, r: PcapRecordModel)
    ensures
        records_bytes(rs.push(r)) == records_bytes(rs) + record_bytes(r),
    decreases rs.len(),
{
    if rs.len() == 0 {
        assert(rs.push(r).drop_first() =~= Seq::<PcapRecordModel>::empty());
        assert(rs.push(r)[0] == r);
        assert(records_bytes(Seq::<PcapRecordModel>::empty()) == Seq::<u8>::empty());
        assert(records_bytes(rs) == Seq::<u8>::empty());
        assert(records_bytes(rs.push(r)) =~= record_bytes(r) + Seq::<u8>::empty());
        assert(records_bytes(rs.push(r)) =~= records_bytes(rs) + record_bytes(r));
    } else {
        assert(rs.push(r).drop_first() =~= rs.drop_first().push(r));
        lemma_records_bytes_push(rs.drop_first(), r);
        assert(records_bytes(rs.push(r)) =~= records_bytes(rs) + record_bytes(r));
    }
}

proof fn lemma_le32_at(x: u32, b: Seq<u8>, off: int)
    requires
        0 <= off,
        off + 4 <= b.len(),
        b.subrange(off, off + 4) == le32_bytes(x),
    ensures
        crate::hwts::le32(b, off) == x,
{
    assert(b[off] == le32_bytes(x)[0]);
    assert(b[off + 1] == le32_bytes(x)[1]);
    assert(b[off + 2] == le32_bytes(x)[2]);
    assert(b[off + 3] == le32_bytes(x)[3]);
    let a0 = x % 256;
    let a1 = (x / 256) % 256;
    let a2 = (x / 65536) % 256;
    let a3 = x / 16777216;
    assert(a0 + a1 * 256 + a2 * 65536 + a3 * 16777216 == x) by (nonlinear_arith)
        requires a0 == x % 256, a1 == (x / 256) % 256, a2 == (x / 65536) % 256, a3 == x / 16777216, x <= u32::MAX;
}

/// Reading one record that `record_bytes` wrote, followed by anything.
proof fn lemma_parse_one(r: PcapRecordModel, rest: Seq<u8>)
    requires
        r.bytes.len() <= u32::MAX,
    ensures
        parse_records(record_bytes(r) + rest, false) == seq![r] + parse_records(rest, false),
{
    let b = record_bytes(r) + rest;
    let l = r.bytes.len() as int;
    assert(b.subrange(0, 4) =~= le32_bytes(r.ts_sec));
    assert(b.subrange(4, 8) =~= le32_bytes(r.ts_sub));
    assert(b.subrange(8, 12) =~= le32_bytes(r.bytes.len() as u32));
    assert(b.subrange(12, 16) =~= le32_bytes(r.orig_len));
    lemma_le32_at(r.ts_sec, b, 0);
    lemma_le32_at(r.ts_sub, b, 4);
    lemma_le32_at(r.bytes.len() as u32, b, 8);
    lemma_le32_at(r.orig_len, b, 12);
    assert(b.subrange(16, 16 + l) =~= r.bytes);
    assert(b.subrange(16 + l, b.len() as int) =~= rest);
    let head = PcapRecordModel { ts_sec: rd32(b, 0, false), ts_sub: rd32(b, 4, false), orig_len: rd32(b, 12, false), bytes: b.subrange(16, 16 + l) };
    assert(head == r);
}

/// Reading back what `records_bytes` wrote gives the same records.
proof fn lemma_parse_records_bytes(rs: Seq<PcapRecordModel>)
    requires
        records_fit(rs),
    ensures
        parse_records(records_bytes(rs), false) == rs,
    decreases rs.len(),
{
    if rs.len() > 0 {
        let rest = rs.drop_first();
        assert(records_fit(rest)) by {
            assert forall|i: int| 0 <= i < rest.len() implies (#[trigger] rest[i]).bytes.len() <= u32::MAX by {
                assert(rest[i] == rs[i + 1]);
            }
        }
        lemma_parse_records_bytes(rest);
        lemma_parse_one(rs[0], records_bytes(rest));
        assert(seq![rs[0]] + rest =~= rs);
    }
}

/// The bytes `save_pcap_to_bytes` writes for `ps`.
pub open spec fn pcap_bytes(ps: Seq<CapturedPacket>) -> Seq<u8> {
    global_header() + records_bytes(ps.map_values(|p: CapturedPacket| record_of(p)))
}

/// Wall-clock microseconds of a record's timestamp; with nanosecond
/// resolution the remaining nanoseconds are kept beside it.
pub open spec fn record_time_us(r: PcapRecordModel, nano: bool) -> i64 {
    (r.ts_sec as int * MICROS + if nano { r.ts_sub as int / 1000 } else { r.ts_sub as int }) as i64
}

/// What `load_pcap_from_bytes` yields: one record per stored frame, numbered
/// from zero, decoded from its bytes, with the stored on-wire length.
pub open spec fn loaded_matches(d: Seq<u8>, swapped: bool, nano: bool, out: Seq<CapturedPacket>) -> bool {
    let rs = parse_records(d.subrange(24, d.len() as int), swapped);
    &&& out.len() == rs.len()
    &&& forall|i: int| 0 <= i < out.len() ==> {
        let r = rs[i];
        let p = #[trigger] out[i];
        &&& packet_matches_but_length(i as u64, r.bytes, record_time_us(r, nano), p)
        &&& p.length == r.orig_len
        &&& p.timestamp_sub_us_ns == (if nano { r.ts_sub % 1000 } else { 0 })
    }
}

pub open spec fn packet_matches_but_length(id: u64, data: Seq<u8>, ts: i64, p: CapturedPacket) -> bool {
    &&& p.id == id
    &&& p.timestamp_us == ts
    &&& p.data@ == data
    &&& crate::packet::info_matches(data, p.info)
    &&& crate::packet::tsn_matches(data, p.tsn_info)
}


fn push_le32(v: &mut Vec<u8>, x: u32)
    ensures
        final(v)@ == old(v)@ + le32_bytes(x),
{
    v.push((x % 256) as u8);
    v.push(((x / 256) % 256) as u8);
    v.push(((x / 65536) % 256) as u8);
    v.push((x / 16777216) as u8);
    assert(final(v)@ =~= old(v)@ + le32_bytes(x));
}

fn push_le16(v: &mut Vec<u8>, x: u16)
    ensures
        final(v)@ == old(v)@ + le16_bytes(x),
{
    v.push((x % 256) as u8);
    v.push((x / 256) as u8);
    assert(final(v)@ =~= old(v)@ + le16_bytes(x));
}

fn push_bytes(v: &mut Vec<u8>, b: &[u8])
    ensures
        final(v)@ == old(v)@ + b@,
{
    let mut i: usize = 0;
    while i < b.len()
        invariant
            i <= b@.len(),
            v@ == old(v)@ + b@.subrange(0, i as int),
        decreases b@.len() - i,
    {
        v.push(b[i]);
        i = i + 1;
        assert(v@ =~= old(v)@ + b@.subrange(0, i as int));
    }
    assert(b@.subrange(0, b@.len() as int) =~= b@);
}

fn read32(d: &[u8], i: usize, swapped: bool) -> (r: u32)
    requires
        i + 4 <= d@.len(),
    ensures
        r == rd32(d@, i as int, swapped),
{
    if swapped {
        crate::packet::read_be32(d, i)
    } else {
        (d[i] as u32) + (d[i + 1] as u32) * 256 + (d[i + 2] as u32) * 65536 + (d[i + 3] as u32) * 16777216
    }
}

/// The header fields of the record at `off`, if it is complete.
fn read_record(data: &[u8], off: usize, swapped: bool) -> (r: Option<(u32, u32, u32, u32)>)
    requires
        off + 16 <= data@.len(),
    ensures
        match r {
            Some((s, u, l, o)) => off + 16 + l <= data@.len() && parse_records(data@.subrange(off as int, data@.len() as int), swapped)
                == seq![PcapRecordModel { ts_sec: s, ts_sub: u, orig_len: o, bytes: data@.subrange(off + 16, off + 16 + l) }]
                    + parse_records(data@.subrange(off + 16 + l, data@.len() as int), swapped),
            None => parse_records(data@.subrange(off as int, data@.len() as int), swapped).len() == 0,
        },
{
    let n = data.len();
    let ghost b = data@.subrange(off as int, n as int);
    let ts_sec = read32(data, off, swapped);
    let ts_sub = read32(data, off + 4, swapped);
    let incl = read32(data, off + 8, swapped);
    let orig = read32(data, off + 12, swapped);
    assert(rd32(b, 0, swapped) == ts_sec && rd32(b, 4, swapped) == ts_sub) by {
        assert(b[0] == data@[off as int] && b[1] == data@[off + 1] && b[2] == data@[off + 2] && b[3] == data@[off + 3]);
        assert(b[4] == data@[off + 4] && b[5] == data@[off + 5] && b[6] == data@[off + 6] && b[7] == data@[off + 7]);
    }
    assert(rd32(b, 8, swapped) == incl && rd32(b, 12, swapped) == orig) by {
        assert(b[8] == data@[off + 8] && b[9] == data@[off + 9] && b[10] == data@[off + 10] && b[11] == data@[off + 11]);
        assert(b[12] == data@[off + 12] && b[13] == data@[off + 13] && b[14] == data@[off + 14] && b[15] == data@[off + 15]);
    }
    if incl as usize > n - (off + 16) {
        return None;
    }
    assert(b.subrange(16, 16 + incl as int) =~= data@.subrange(off + 16, off + 16 + incl as int));
    assert(b.subrange(16 + incl as int, b.len() as int) =~= data@.subrange(off + 16 + incl as int, n as int));
    Some((ts_sec, ts_sub, incl, orig))
}

/// The record of a stored frame: decoded from its bytes, with the stored
/// on-wire length and the timestamp in microseconds.
fn loaded_packet(id: u64, bytes: &[u8], ts_sec: u32, ts_sub: u32, orig: u32, nano: bool) -> (p: CapturedPacket)
    requires
        bytes@.len() <= u32::MAX,
    ensures
        packet_matches_but_length(id, bytes@, record_time_us(PcapRecordModel { ts_sec, ts_sub, orig_len: orig, bytes: bytes@ }, nano), p),
        p.length == orig,
        p.timestamp_sub_us_ns == (if nano { ts_sub % 1000 } else { 0 }),
{
    let sub_us: i64 = if nano { (ts_sub / 1000) as i64 } else { ts_sub as i64 };
    let ts: i64 = (ts_sec as i64) * MICROS + sub_us;
    let mut p = CapturedPacket::from_raw(id, bytes, ts);
    p.length = orig;
    if nano {
        p.timestamp_sub_us_ns = (ts_sub % 1000) as u16;
    }
    p
}

impl PcapHandler {
    /// Writes the global header and one record per packet: seconds and
    /// microseconds of its timestamp, captured and on-wire length, bytes.
    pub fn save_pcap_to_bytes(packets: &[CapturedPacket]) -> (r: Vec<u8>)
        requires
            packets_fit(packets@),
        ensures
            r@ == pcap_bytes(packets@),
    {
        let mut out: Vec<u8> = Vec::new();
        push_le32(&mut out, PCAP_MAGIC);
        push_le16(&mut out, PCAP_VERSION_MAJOR);
        push_le16(&mut out, PCAP_VERSION_MINOR);
        push_le32(&mut out, 0);
        push_le32(&mut out, 0);
        push_le32(&mut out, PCAP_SNAPLEN);
        push_le32(&mut out, PCAP_LINKTYPE_ETHERNET);
        assert(out@ =~= global_header());
        let ghost f = |p: CapturedPacket| record_of(p);
        assert(packets@.subrange(0, 0).map_values(f) =~= Seq::<PcapRecordModel>::empty());
        assert(out@ =~= global_header() + records_bytes(packets@.subrange(0, 0).map_values(f)));
        let mut i: usize = 0;
        while i < packets.len()
            invariant
                i <= packets@.len(),
                packets_fit(packets@),
                f == (|p: CapturedPacket| record_of(p)),
                out@ == global_header() + records_bytes(packets@.subrange(0, i as int).map_values(f)),
            decreases packets@.len() - i,
        {
            let p = &packets[i];
            let ts = p.timestamp_us;
            push_le32(&mut out, (ts / MICROS) as u32);
            push_le32(&mut out, (ts % MICROS) as u32);
            push_le32(&mut out, p.data.len() as u32);
            push_le32(&mut out, p.length);
            push_bytes(&mut out, p.data.as_slice());
            proof {
                let pre = packets@.subrange(0, i as int).map_values(f);
                assert(packets@.subrange(0, i + 1).map_values(f) =~= pre.push(record_of(*p)));
                lemma_records_bytes_push(pre, record_of(*p));
            }
            i = i + 1;
            assert(out@ =~= global_header() + records_bytes(packets@.subrange(0, i as int).map_values(f)));
        }
        assert(packets@.subrange(0, packets@.len() as int) =~= packets@);
        out
    }

    /// Reads a PCAP file held in memory: the magic selects byte order and
    /// timestamp resolution; records are read until the data ends or a
    /// record would run past it.
    pub fn load_pcap_from_bytes(data: &[u8]) -> (r: Result<Vec<CapturedPacket>, PcapError>)
        ensures
            data@.len() < 24 ==> r == Err::<Vec<CapturedPacket>, PcapError>(PcapError::TooShort),
            data@.len() >= 24 ==> {
                let m = crate::hwts::le32(data@, 0);
                if m == PCAP_MAGIC || m == PCAP_MAGIC_SWAPPED || m == PCAP_MAGIC_NANO || m == PCAP_MAGIC_NANO_SWAPPED {
                    r.is_ok() && loaded_matches(
                        data@,
                        m == PCAP_MAGIC_SWAPPED || m == PCAP_MAGIC_NANO_SWAPPED,
                        m == PCAP_MAGIC_NANO || m == PCAP_MAGIC_NANO_SWAPPED,
                        r.unwrap()@,
                    )
                } else {
                    r == Err::<Vec<CapturedPacket>, PcapError>(PcapError::BadMagic(m))
                }
            },
    {
        let n = data.len();
        if n < 24 {
            return Err(PcapError::TooShort);
        }
        let magic = read32(data, 0, false);
        let (swapped, nano) = if magic == PCAP_MAGIC {
            (false, false)
        } else if magic == PCAP_MAGIC_SWAPPED {
            (true, false)
        } else if magic == PCAP_MAGIC_NANO {
            (false, true)
        } else if magic == PCAP_MAGIC_NANO_SWAPPED {
            (true, true)
        } else {
            return Err(PcapError::BadMagic(magic));
        };
        let ghost all = parse_records(data@.subrange(24, n as int), swapped);
        let ghost done: Seq<PcapRecordModel> = Seq::empty();
        let mut out: Vec<CapturedPacket> = Vec::new();
        let mut off: usize = 24;
        assert(all =~= done + parse_records(data@.subrange(off as int, n as int), swapped));
        while n - off >= 16
            invariant
                n == data@.len(),
                24 <= off <= n,
                all == parse_records(data@.subrange(24, n as int), swapped),
                all == done + parse_records(data@.subrange(off as int, n as int), swapped),
                out@.len() == done.len(),
                out@.len() <= off,
                forall|i: int| 0 <= i < out@.len() ==> {
                    let r = done[i];
                    let p = #[trigger] out@[i];
                    &&& packet_matches_but_length(i as u64, r.bytes, record_time_us(r, nano), p)
                    &&& p.length == r.orig_len
                    &&& p.timestamp_sub_us_ns == (if nano { r.ts_sub % 1000 } else { 0 })
                },
            ensures
                all == done,
            decreases n - off,
        {
            let (ts_sec, ts_sub, incl, orig) = match read_record(data, off, swapped) {
                Some(x) => x,
                None => {
                    assert(all =~= done);
                    break;
                },
            };
            let start = off + 16;
            let end = start + incl as usize;
            let bytes = &data[start..end];
            let p = loaded_packet(out.len() as u64, bytes, ts_sec, ts_sub, orig, nano);
            let ghost rec = PcapRecordModel { ts_sec, ts_sub, orig_len: orig, bytes: bytes@ };
            assert(rec.bytes == data@.subrange(off + 16, off + 16 + incl as int));
            out.push(p);
            proof {
                let d2 = done.push(rec);
                assert(all =~= d2 + parse_records(data@.subrange(end as int, n as int), swapped));
                done = d2;
            }
            off = end;
        }
        proof {
            if n - off < 16 {
                assert(parse_records(data@.subrange(off as int, n as int), swapped) =~= Seq::<PcapRecordModel>::empty());
                assert(all =~= done);
            }
        }
        Ok(out)
    }
}

/// Writing packets and reading the bytes back gives records with the same
/// bytes, on-wire lengths and timestamps, and so the same decoded
/// EtherTypes, addresses, ports, VLAN ids and priorities.
pub proof fn lemma_pcap_round_trip(ps: Seq<CapturedPacket>, out: Seq<CapturedPacket>)
    requires
        packets_fit(ps),
        forall|i: int| 0 <= i < ps.len() ==> crate::packet::info_matches((#[trigger] ps[i]).data@, ps[i].info),
        loaded_matches(pcap_bytes(ps), false, false, out),
    ensures
        out.len() == ps.len(),
        forall|i: int| 0 <= i < ps.len() ==> {
            let a = #[trigger] out[i];
            let b = ps[i];
            &&& a.data@ == b.data@
            &&& a.length == b.length
            &&& a.timestamp_us == b.timestamp_us
            &&& a.info.ethertype == b.info.ethertype
            &&& a.info.ethertype_name@ == b.info.ethertype_name@
            &&& crate::packet::opt_text(a.info.src_ip) == crate::packet::opt_text(b.info.src_ip)
            &&& crate::packet::opt_text(a.info.dst_ip) == crate::packet::opt_text(b.info.dst_ip)
            &&& a.info.src_mac@ == b.info.src_mac@ && a.info.dst_mac@ == b.info.dst_mac@
            &&& a.info.src_port == b.info.src_port && a.info.dst_port == b.info.dst_port
            &&& a.info.vlan_id == b.info.vlan_id && a.info.vlan_pcp == b.info.vlan_pcp
        },
{
    let f = |p: CapturedPacket| record_of(p);
    let rs = ps.map_values(f);
    assert(records_fit(rs));
    lemma_parse_records_bytes(rs);
    let d = pcap_bytes(ps);
    assert(d.subrange(24, d.len() as int) =~= records_bytes(rs));
    assert forall|i: int| 0 <= i < ps.len() implies record_time_us(#[trigger] rs[i], false) == ps[i].timestamp_us by {
        let t = ps[i].timestamp_us;
        assert((t / MICROS) * MICROS + t % MICROS == t);
    }
    assert forall|i: int| 0 <= i < ps.len() implies {
        let a = #[trigger] out[i];
        let b = ps[i];
        &&& a.data@ == b.data@
        &&& a.length == b.length
        &&& a.timestamp_us == b.timestamp_us
        &&& a.info.ethertype == b.info.ethertype
        &&& a.info.ethertype_name@ == b.info.ethertype_name@
        &&& crate::packet::opt_text(a.info.src_ip) == crate::packet::opt_text(b.info.src_ip)
        &&& crate::packet::opt_text(a.info.dst_ip) == crate::packet::opt_text(b.info.dst_ip)
        &&& a.info.src_mac@ == b.info.src_mac@ && a.info.dst_mac@ == b.info.dst_mac@
        &&& a.info.src_port == b.info.src_port && a.info.dst_port == b.info.dst_port
        &&& a.info.vlan_id == b.info.vlan_id && a.info.vlan_pcp == b.info.vlan_pcp
    } by {
        assert(rs[i] == record_of(ps[i]));
        assert(record_time_us(rs[i], false) == ps[i].timestamp_us);
    }
}
} // verus!
