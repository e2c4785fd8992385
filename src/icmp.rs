//! ICMP echo: the Internet checksum, the request a probe sends, and the
//! test that recognises its reply.
use vstd::prelude::*;
use crate::packet::{be16, be32, be64};

verus! {

pub const ICMP_ECHO_REQUEST: u8 = 8;
pub const ICMP_ECHO_REPLY: u8 = 0;
pub const ECHO_LEN: usize = 64;

/// Sum of the big-endian 16-bit words of `d`; an odd last byte is the high
/// half of a word.
pub open spec fn word_sum(d: Seq<u8>) -> nat
    decreases d.len(),
{
    if d.len() == 0 {
        0
    } else if d.len() == 1 {
        d[0] as nat * 256
    } else {
        d[0] as nat * 256 + d[1] as nat + word_sum(d.subrange(2, d.len() as int))
    }
}

/// Folds the carries of a one's-complement sum into 16 bits.
pub open spec fn fold_carries(s: nat) -> nat
    decreases s,
{
    if s < 65536 { s } else { fold_carries(s % 65536 + s / 65536) }
}

proof fn lemma_word_sum_bound(d: Seq<u8>)
    ensures
        word_sum(d) <= (d.len() + 1) * 65535,
    decreases d.len(),
{
    if d.len() >= 2 {
        lemma_word_sum_bound(d.subrange(2, d.len() as int));
    }
}

/// The Internet checksum: the complement of the folded word sum.
pub open spec fn checksum_of(d: Seq<u8>) -> u16 {
    (65535 - fold_carries(word_sum(d))) as u16
}

pub fn checksum(data: &[u8]) -> (r: u16)
    requires
        1 <= data@.len(),
    ensures
        r == checksum_of(data@),
{
    let n = data.len();
    let mut sum: u128 = 0;
    let mut i: usize = 0;
    proof {
        lemma_word_sum_bound(data@);
        assert(data@.subrange(0, n as int) =~= data@);
    }
    while i < n - 1
        invariant
            n == data@.len(),
            1 <= n,
            i <= n,
            i % 2 == 0,
            sum + word_sum(data@.subrange(i as int, n as int)) == word_sum(data@),
            sum <= (i / 2) * 65535,
        decreases n - i,
    {
        let ghost rest = data@.subrange(i as int, n as int);
        assert(rest.subrange(2, rest.len() as int) =~= data@.subrange(i + 2, n as int));
        sum = sum + (data[i] as u128) * 256 + (data[i + 1] as u128);
        i = i + 2;
    }
    if i < n {
        let ghost rest = data@.subrange(i as int, n as int);
        assert(rest.len() == 1);
        sum = sum + (data[i] as u128) * 256;
    } else {
        assert(data@.subrange(i as int, n as int).len() == 0);
    }
    assert(sum == word_sum(data@));
    while sum >= 65536
        invariant
            fold_carries(sum as nat) == fold_carries(word_sum(data@)),
        decreases sum,
    {
        sum = (sum % 65536) + (sum / 65536);
    }
    (65535 - sum) as u16
}

/// A 64-byte echo request: type 8, code 0, checksum, identifier, sequence,
/// an 8-byte timestamp, zero padding.
pub open spec fn is_echo_request(p: Seq<u8>, id: u16, seq: u16, timestamp: u64) -> bool {
    &&& p.len() == ECHO_LEN
    &&& p[0] == ICMP_ECHO_REQUEST && p[1] == 0
    &&& be16(p, 2) == checksum_of(p.update(2, 0).update(3, 0))
    &&& be16(p, 4) == id
    &&& be16(p, 6) == seq
    &&& be64(p, 8) == timestamp
    &&& forall|i: int| 16 <= i < ECHO_LEN ==> p[i] == 0
}

fn push_be16(v: &mut Vec<u8>, x: u16)
    ensures
        final(v)@.len() == old(v)@.len() + 2,
        forall|k: int| 0 <= k < old(v)@.len() ==> final(v)@[k] == old(v)@[k],
        be16(final(v)@, old(v)@.len() as int) == x,
{
    v.push((x / 256) as u8);
    v.push((x % 256) as u8);
}

pub fn icmp_echo_request(id: u16, seq: u16, timestamp: u64) -> (r: Vec<u8>)
    ensures
        is_echo_request(r@, id, seq, timestamp),
{
    let mut p: Vec<u8> = Vec::new();
    p.push(ICMP_ECHO_REQUEST);
    p.push(0);
    p.push(0);
    p.push(0);
    push_be16(&mut p, id);
    let ghost p4 = p@;
    push_be16(&mut p, seq);
    let ghost p6 = p@;
    let hi = (timestamp / 4294967296) as u32;
    let lo = (timestamp % 4294967296) as u32;
    push_be16(&mut p, (hi / 65536) as u16);
    let ghost p8 = p@;
    push_be16(&mut p, (hi % 65536) as u16);
    let ghost p10 = p@;
    push_be16(&mut p, (lo / 65536) as u16);
    let ghost p12 = p@;
    push_be16(&mut p, (lo % 65536) as u16);
    let ghost head = p@;
    assert(head[0] == ICMP_ECHO_REQUEST && head[1] == 0 && head[2] == 0 && head[3] == 0) by {
        assert(p12[0] == p10[0] && p10[0] == p8[0] && p8[0] == p6[0] && p6[0] == p4[0]);
        assert(p12[1] == p10[1] && p10[1] == p8[1] && p8[1] == p6[1] && p6[1] == p4[1]);
        assert(p12[2] == p10[2] && p10[2] == p8[2] && p8[2] == p6[2] && p6[2] == p4[2]);
        assert(p12[3] == p10[3] && p10[3] == p8[3] && p8[3] == p6[3] && p6[3] == p4[3]);
    }
    assert(be16(head, 4) == id) by {
        assert(be16(p6, 4) == id);
        assert(p12[4] == p10[4] && p10[4] == p8[4] && p8[4] == p6[4]);
        assert(p12[5] == p10[5] && p10[5] == p8[5] && p8[5] == p6[5]);
    }
    assert(be16(head, 6) == seq) by {
        assert(p12[6] == p10[6] && p10[6] == p8[6]);
        assert(p12[7] == p10[7] && p10[7] == p8[7]);
    }
    assert(be16(head, 8) == hi / 65536) by {
        assert(p12[8] == p10[8] && p12[9] == p10[9]);
    }
    assert(be16(head, 10) == hi % 65536);
    assert(be16(head, 12) == lo / 65536);
    while p.len() < ECHO_LEN
        invariant
            16 <= p@.len() <= ECHO_LEN,
            p@.subrange(0, 16) == head,
            forall|k: int| 16 <= k < p@.len() ==> p@[k] == 0,
        decreases ECHO_LEN - p@.len(),
    {
        p.push(0);
        assert(p@.subrange(0, 16) =~= head);
    }
    let ghost zeroed = p@;
    assert(zeroed[2] == head[2] && zeroed[3] == head[3]);
    let c = checksum(p.as_slice());
    p.set(2, (c / 256) as u8);
    p.set(3, (c % 256) as u8);
    proof {
        assert(zeroed[2] == 0 && zeroed[3] == 0);
        assert(p@.update(2, 0).update(3, 0) =~= zeroed);
        assert(be16(p@, 4) == be16(head, 4));
        assert(be16(p@, 6) == be16(head, 6));
        assert(be16(p@, 8) == be16(head, 8) && be16(p@, 10) == be16(head, 10));
        assert(be16(p@, 12) == be16(head, 12) && be16(p@, 14) == be16(head, 14));
        assert(be32(p@, 8) == hi);
        assert(be32(p@, 12) == lo);
        assert(be64(p@, 8) == timestamp);
        assert forall|k: int| 16 <= k < ECHO_LEN implies p@[k] == 0 by {
            assert(p@[k] == zeroed[k]);
        }
    }
    p
}

/// A reply behind a 20-byte IPv4 header: type 0 with our identifier and sequence.
pub open spec fn is_echo_reply_of(buf: Seq<u8>, id: u16, seq: u16) -> bool {
    buf.len() >= 28 && buf[20] == ICMP_ECHO_REPLY && be16(buf, 24) == id && be16(buf, 26) == seq
}

pub fn is_echo_reply(buf: &[u8], id: u16, seq: u16) -> (r: bool)
    ensures
        r == is_echo_reply_of(buf@, id, seq),
{
    buf.len() >= 28 && buf[20] == ICMP_ECHO_REPLY && crate::packet::read_be16(buf, 24) == id
        && crate::packet::read_be16(buf, 26) == seq
}

} // verus!
