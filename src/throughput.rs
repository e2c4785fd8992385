//! UDP throughput probe: the 40-byte header, payload, pacing and the
//! receiver's session tally.
use vstd::prelude::*;
use crate::hwts::le32;

verus! {

/// `THPT` read as a little-endian word.
pub const THROUGHPUT_MAGIC: u32 = 0x54485054;
pub const THROUGHPUT_PORT: u16 = 7879;
pub const OP_START: u8 = 0;
pub const OP_DATA: u8 = 1;
pub const OP_END: u8 = 2;
pub const OP_RESULT: u8 = 3;
pub const HEADER_LEN: usize = 40;
pub const DEFAULT_PACKET_SIZE: usize = 1400;
pub const MIN_PACKET_SIZE: usize = 64;
pub const MAX_PACKET_SIZE: usize = 65000;

#[derive(Clone, Copy, Debug, PartialEq, Eq, Structural)]
pub struct ThroughputHeader {
    pub magic: u32,
    pub op: u8,
    pub seq: u64,
    pub timestamp: u64,
    pub total_bytes: u64,
    pub total_packets: u64,
}

pub open spec fn le64(d: Seq<u8>, i: int) -> u64 {
    (le32(d, i) as int + le32(d, i + 4) as int * 0x1_0000_0000) as u64
}

/// The header as sent: magic, opcode, three zero bytes, then sequence,
/// timestamp, byte and packet totals, all little-endian.
pub open spec fn header_matches(b: Seq<u8>, h: ThroughputHeader) -> bool {
    &&& b.len() == HEADER_LEN
    &&& le32(b, 0) == h.magic
    &&& b[4] == h.op && b[5] == 0 && b[6] == 0 && b[7] == 0
    &&& le64(b, 8) == h.seq
    &&& le64(b, 16) == h.timestamp
    &&& le64(b, 24) == h.total_bytes
    &&& le64(b, 32) == h.total_packets
}

fn push_le64(v: &mut Vec<u8>, x: u64)
    ensures
        final(v)@.len() == old(v)@.len() + 8,
        forall|k: int| 0 <= k < old(v)@.len() ==> final(v)@[k] == old(v)@[k],
        le64(final(v)@, old(v)@.len() as int) == x,
{
    let lo = (x % 0x1_0000_0000) as u32;
    let hi = (x / 0x1_0000_0000) as u32;
    v.push((lo % 256) as u8);
    v.push(((lo / 256) % 256) as u8);
    v.push(((lo / 65536) % 256) as u8);
    v.push((lo / 16777216) as u8);
    v.push((hi % 256) as u8);
    v.push(((hi / 256) % 256) as u8);
    v.push(((hi / 65536) % 256) as u8);
    v.push((hi / 16777216) as u8);
    let ghost n = old(v)@.len() as int;
    assert(le32(v@, n) == lo) by (nonlinear_arith)
        requires v@[n] == (lo % 256) as u8, v@[n + 1] == ((lo / 256) % 256) as u8, v@[n + 2] == ((lo / 65536) % 256) as u8,
            v@[n + 3] == (lo / 16777216) as u8, lo <= u32::MAX,
            le32(v@, n) == (v@[n] as int + v@[n + 1] as int * 256 + v@[n + 2] as int * 65536 + v@[n + 3] as int * 16777216) as u32;
    assert(le32(v@, n + 4) == hi) by (nonlinear_arith)
        requires v@[n + 4] == (hi % 256) as u8, v@[n + 5] == ((hi / 256) % 256) as u8, v@[n + 6] == ((hi / 65536) % 256) as u8,
            v@[n + 7] == (hi / 16777216) as u8, hi <= u32::MAX,
            le32(v@, n + 4) == (v@[n + 4] as int + v@[n + 5] as int * 256 + v@[n + 6] as int * 65536 + v@[n + 7] as int * 16777216) as u32;
}

fn push_le32(v: &mut Vec<u8>, x: u32)
    ensures
        final(v)@.len() == old(v)@.len() + 4,
        forall|k: int| 0 <= k < old(v)@.len() ==> final(v)@[k] == old(v)@[k],
        le32(final(v)@, old(v)@.len() as int) == x,
{
    v.push((x % 256) as u8);
    v.push(((x / 256) % 256) as u8);
    v.push(((x / 65536) % 256) as u8);
    v.push((x / 16777216) as u8);
    let ghost n = old(v)@.len() as int;
    assert(le32(v@, n) == x) by (nonlinear_arith)
        requires v@[n] == (x % 256) as u8, v@[n + 1] == ((x / 256) % 256) as u8, v@[n + 2] == ((x / 65536) % 256) as u8,
            v@[n + 3] == (x / 16777216) as u8, x <= u32::MAX,
            le32(v@, n) == (v@[n] as int + v@[n + 1] as int * 256 + v@[n + 2] as int * 65536 + v@[n + 3] as int * 16777216) as u32;
}

pub fn encode_header(h: &ThroughputHeader) -> (r: Vec<u8>)
    ensures
        header_matches(r@, *h),
{
    let mut v: Vec<u8> = Vec::new();
    push_le32(&mut v, h.magic);
    v.push(h.op);
    v.push(0);
    v.push(0);
    v.push(0);
    let ghost a = v@;
    push_le64(&mut v, h.seq);
    let ghost b = v@;
    push_le64(&mut v, h.timestamp);
    let ghost c = v@;
    push_le64(&mut v, h.total_bytes);
    let ghost d = v@;
    push_le64(&mut v, h.total_packets);
    proof {
        assert(le32(v@, 0) == le32(a, 0)) by {
            assert(v@[0] == d[0] && d[0] == c[0] && c[0] == b[0] && b[0] == a[0]);
            assert(v@[1] == d[1] && d[1] == c[1] && c[1] == b[1] && b[1] == a[1]);
            assert(v@[2] == d[2] && d[2] == c[2] && c[2] == b[2] && b[2] == a[2]);
            assert(v@[3] == d[3] && d[3] == c[3] && c[3] == b[3] && b[3] == a[3]);
        }
        assert(v@[4] == a[4] && v@[5] == a[5] && v@[6] == a[6] && v@[7] == a[7]) by {
            assert(v@[4] == d[4] && d[4] == c[4] && c[4] == b[4]);
            assert(v@[5] == d[5] && d[5] == c[5] && c[5] == b[5]);
            assert(v@[6] == d[6] && d[6] == c[6] && c[6] == b[6]);
            assert(v@[7] == d[7] && d[7] == c[7] && c[7] == b[7]);
        }
        assert(le64(v@, 8) == le64(b, 8)) by {
            assert forall|k: int| 8 <= k < 16 implies v@[k] == b[k] by {
                assert(v@[k] == d[k] && d[k] == c[k]);
            }
        }
        assert(le64(v@, 16) == le64(c, 16)) by {
            assert forall|k: int| 16 <= k < 24 implies v@[k] == c[k] by {
                assert(v@[k] == d[k]);
            }
        }
        assert(le64(v@, 24) == le64(d, 24)) by {
            assert forall|k: int| 24 <= k < 32 implies v@[k] == d[k] by {}
        }
    }
    v
}

fn read_le32(b: &[u8], i: usize) -> (r: u32)
    requires
        i + 4 <= b@.len(),
    ensures
        r == le32(b@, i as int),
{
    (b[i] as u32) + (b[i + 1] as u32) * 256 + (b[i + 2] as u32) * 65536 + (b[i + 3] as u32) * 16777216
}

fn read_le64(b: &[u8], i: usize) -> (r: u64)
    requires
        i + 8 <= b@.len(),
    ensures
        r == le64(b@, i as int),
{
    let _n = b.len();
    let lo = read_le32(b, i) as u64;
    let hi = read_le32(b, i + 4) as u64;
    lo + hi * 0x1_0000_0000
}

/// The header at the start of `b`, if `b` holds 40 bytes with the magic.
pub open spec fn header_of(b: Seq<u8>) -> Option<ThroughputHeader> {
    if b.len() >= HEADER_LEN && le32(b, 0) == THROUGHPUT_MAGIC {
        Some(ThroughputHeader {
            magic: THROUGHPUT_MAGIC,
            op: b[4],
            seq: le64(b, 8),
            timestamp: le64(b, 16),
            total_bytes: le64(b, 24),
            total_packets: le64(b, 32),
        })
    } else {
        None
    }
}

pub fn decode_header(b: &[u8]) -> (r: Option<ThroughputHeader>)
    ensures
        r == header_of(b@),
{
    if b.len() < HEADER_LEN {
        return None;
    }
    let magic = read_le32(b, 0);
    if magic != THROUGHPUT_MAGIC {
        return None;
    }
    Some(ThroughputHeader {
        magic,
        op: b[4],
        seq: read_le64(b, 8),
        timestamp: read_le64(b, 16),
        total_bytes: read_le64(b, 24),
        total_packets: read_le64(b, 32),
    })
}

/// Client configuration: target host, port, datagram size and an optional
/// rate limit in bits per second.
pub struct ThroughputTester {
    pub target: String,
    pub port: u16,
    pub packet_size: usize,
    pub bandwidth_limit_bps: Option<u64>,
}

impl ThroughputTester {
    pub fn new(target: &str, port: Option<u16>) -> (r: ThroughputTester)
        ensures
            r.target@ == target@,
            r.port == (match port { Some(p) => p, None => THROUGHPUT_PORT }),
            r.packet_size == DEFAULT_PACKET_SIZE,
            r.bandwidth_limit_bps.is_none(),
    {
        ThroughputTester {
            target: String::from_str(target),
            port: match port {
                Some(p) => p,
                None => THROUGHPUT_PORT,
            },
            packet_size: DEFAULT_PACKET_SIZE,
            bandwidth_limit_bps: None,
        }
    }

    /// Sets the datagram size, kept within 64 to 65000 bytes.
    pub fn with_packet_size(self, size: usize) -> (r: ThroughputTester)
        ensures
            r.packet_size == (if size < MIN_PACKET_SIZE { MIN_PACKET_SIZE } else if size > MAX_PACKET_SIZE { MAX_PACKET_SIZE } else { size }),
            r.target == self.target && r.port == self.port && r.bandwidth_limit_bps == self.bandwidth_limit_bps,
    {
        let s = if size < MIN_PACKET_SIZE { MIN_PACKET_SIZE } else if size > MAX_PACKET_SIZE { MAX_PACKET_SIZE } else { size };
        ThroughputTester { packet_size: s, ..self }
    }

    pub fn with_bandwidth_limit(self, bps: u64) -> (r: ThroughputTester)
        requires
            bps > 0,
        ensures
            r.bandwidth_limit_bps == Some(bps),
            r.target == self.target && r.port == self.port && r.packet_size == self.packet_size,
    {
        ThroughputTester { bandwidth_limit_bps: Some(bps), ..self }
    }

    /// Pause after each datagram: its bits over the rate limit, in whole
    /// nanoseconds; zero without a limit.
    pub fn packet_delay_ns(&self) -> (r: u64)
        requires
            self.packet_size <= MAX_PACKET_SIZE,
        ensures
            r == (match self.bandwidth_limit_bps {
                Some(bps) => if bps > 0 { (self.packet_size * 8 * 1_000_000_000) / (bps as int) } else { 0 },
                None => 0,
            }),
    {
        match self.bandwidth_limit_bps {
            Some(bps) => {
                if bps == 0 {
                    0
                } else {
                    let bits: u64 = (self.packet_size as u64) * 8 * 1_000_000_000;
                    bits / bps
                }
            },
            None => 0,
        }
    }

    /// A datagram of `packet_size` bytes: header space, then each byte `i`
    /// holding `i mod 256`.
    pub fn payload(&self) -> (r: Vec<u8>)
        requires
            self.packet_size <= MAX_PACKET_SIZE,
        ensures
            r@.len() == self.packet_size,
            forall|i: int| 0 <= i < r@.len() ==> r@[i] == (if i < HEADER_LEN { 0 } else { i % 256 }),
    {
        let mut v: Vec<u8> = Vec::new();
        let mut i: usize = 0;
        while i < self.packet_size
            invariant
                i <= self.packet_size,
                v@.len() == i,
                forall|k: int| 0 <= k < i ==> v@[k] == (if k < HEADER_LEN { 0 } else { k % 256 }),
            decreases self.packet_size - i,
        {
            v.push(if i < HEADER_LEN { 0 } else { (i % 256) as u8 });
            i = i + 1;
        }
        v
    }
}

/// The receiver's tally of one session, from its Start to its End.
pub struct ThroughputSession {
    pub client: Option<String>,
    pub started_ns: u64,
    pub bytes_received: u64,
    pub packets_received: u64,
    pub last_seq: u64,
}

impl ThroughputSession {
    pub fn new() -> (r: ThroughputSession)
        ensures
            r.client.is_none(),
            r.bytes_received == 0 && r.packets_received == 0,
    {
        ThroughputSession { client: None, started_ns: 0, bytes_received: 0, packets_received: 0, last_seq: 0 }
    }

    /// Handles a datagram of `len` bytes from `src` at `now_ns`: Start opens
    /// a session for `src`; Data from the session's client is counted; End
    /// from it yields the Result header to send back. Other datagrams are ignored.
    pub fn on_datagram(&mut self, src: &String, len: usize, h: &ThroughputHeader, now_ns: u64) -> (r: Option<ThroughputHeader>)
        requires
            old(self).bytes_received + len <= u64::MAX,
            old(self).packets_received < u64::MAX,
        ensures
            h.op == OP_START ==> final(self).client.is_some() && final(self).client.unwrap()@ == src@
                && final(self).bytes_received == 0 && final(self).packets_received == 0 && r.is_none(),
            ({
                let mine = old(self).client.is_some() && old(self).client.unwrap()@ == src@;
                &&& (h.op == OP_DATA && mine) ==> final(self).bytes_received == old(self).bytes_received + len
                    && final(self).packets_received == old(self).packets_received + 1 && final(self).last_seq == h.seq
                    && r.is_none()
                &&& (h.op == OP_END && mine) ==> r == Some(ThroughputHeader {
                    magic: THROUGHPUT_MAGIC,
                    op: OP_RESULT,
                    seq: old(self).last_seq,
                    timestamp: (if now_ns >= old(self).started_ns { now_ns - old(self).started_ns } else { 0 }) as u64,
                    total_bytes: old(self).bytes_received,
                    total_packets: old(self).packets_received,
                })
                &&& (h.op != OP_START && !((h.op == OP_DATA || h.op == OP_END) && mine)) ==> r.is_none()
                    && final(self).bytes_received == old(self).bytes_received
                    && final(self).packets_received == old(self).packets_received
            }),
    {
        let mine = match &self.client {
            Some(c) => *c == *src,
            None => false,
        };
        if h.op == OP_START {
            self.client = Some(src.clone());
            self.started_ns = now_ns;
            self.bytes_received = 0;
            self.packets_received = 0;
            self.last_seq = 0;
            None
        } else if h.op == OP_DATA && mine {
            self.bytes_received = self.bytes_received + len as u64;
            self.packets_received = self.packets_received + 1;
            self.last_seq = h.seq;
            None
        } else if h.op == OP_END && mine {
            let elapsed = if now_ns >= self.started_ns { now_ns - self.started_ns } else { 0 };
            Some(ThroughputHeader {
                magic: THROUGHPUT_MAGIC,
                op: OP_RESULT,
                seq: self.last_seq,
                timestamp: elapsed,
                total_bytes: self.bytes_received,
                total_packets: self.packets_received,
            })
        } else {
            None
        }
    }
}

/// Packets and bytes the receiver counted: from its Result header when the
/// reply is one, otherwise the sender's own totals.
pub fn received_totals(reply: Option<ThroughputHeader>, sent_packets: u64, sent_bytes: u64) -> (r: (u64, u64))
    ensures
        r == (match reply {
            Some(h) => if h.op == OP_RESULT { (h.total_packets, h.total_bytes) } else { (sent_packets, sent_bytes) },
            None => (sent_packets, sent_bytes),
        }),
{
    match reply {
        Some(h) => if h.op == OP_RESULT { (h.total_packets, h.total_bytes) } else { (sent_packets, sent_bytes) },
        None => (sent_packets, sent_bytes),
    }
}

} // verus!
