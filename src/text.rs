//! Rendering of bytes and numbers as text (hex, decimal, colon separated).
use vstd::prelude::*;

verus! {

/// Relies on `String::push`: the character is appended at the end.
#[verifier::external_body]
pub(crate) fn push_char(s: &mut String, c: char)
    ensures
        final(s)@ == old(s)@.push(c),
{
    s.push(c);
}

pub open spec fn lower_hex_digit(n: nat) -> char {
    if n < 10 {
        seq!['0', '1', '2', '3', '4', '5', '6', '7', '8', '9'][n as int]
    } else {
        seq!['a', 'b', 'c', 'd', 'e', 'f'][n - 10]
    }
}

pub open spec fn upper_hex_digit(n: nat) -> char {
    if n < 10 {
        lower_hex_digit(n)
    } else {
        seq!['A', 'B', 'C', 'D', 'E', 'F'][n - 10]
    }
}

/// Two lower-case hex digits of a byte.
pub open spec fn hex_byte(b: u8) -> Seq<char> {
    seq![lower_hex_digit((b / 16) as nat), lower_hex_digit((b % 16) as nat)]
}

/// Hex digits of `bs`, two per byte, with `sep` placed before byte `i`
/// whenever `group > 0`, `i > 0` and `i % group == 0`.
pub open spec fn grouped_hex(bs: Seq<u8>, group: nat, sep: char) -> Seq<char>
    decreases bs.len(),
{
    if bs.len() == 0 {
        Seq::empty()
    } else {
        let i = bs.len() - 1;
        let head = grouped_hex(bs.drop_last(), group, sep);
        if group > 0 && i > 0 && i % (group as int) == 0 {
            head.push(sep) + hex_byte(bs.last())
        } else {
            head + hex_byte(bs.last())
        }
    }
}

/// Decimal digits of `n`, without leading zeros.
pub open spec fn dec_text(n: nat) -> Seq<char>
    decreases n,
{
    if n < 10 {
        seq![lower_hex_digit(n)]
    } else {
        dec_text(n / 10).push(lower_hex_digit(n % 10))
    }
}

/// Lower-case hex digits of `n`, without leading zeros.
pub open spec fn hex_text(n: nat) -> Seq<char>
    decreases n,
{
    if n < 16 {
        seq![lower_hex_digit(n)]
    } else {
        hex_text(n / 16).push(lower_hex_digit(n % 16))
    }
}

/// `0x` followed by four upper-case hex digits.
pub open spec fn hex4_upper(v: u16) -> Seq<char> {
    seq![
        '0',
        'x',
        upper_hex_digit((v / 4096) as nat),
        upper_hex_digit(((v / 256) % 16) as nat),
        upper_hex_digit(((v / 16) % 16) as nat),
        upper_hex_digit((v % 16) as nat),
    ]
}

/// Decimal numbers of `bs` separated by dots.
pub open spec fn dotted_dec(bs: Seq<u8>) -> Seq<char>
    decreases bs.len(),
{
    if bs.len() == 0 {
        Seq::empty()
    } else if bs.len() == 1 {
        dec_text(bs[0] as nat)
    } else {
        dotted_dec(bs.drop_last()).push('.') + dec_text(bs.last() as nat)
    }
}

pub fn lower_hex_char(n: u8) -> (c: char)
    requires
        n < 16,
    ensures
        c == lower_hex_digit(n as nat),
{
    match n {
        0 => '0',
        1 => '1',
        2 => '2',
        3 => '3',
        4 => '4',
        5 => '5',
        6 => '6',
        7 => '7',
        8 => '8',
        9 => '9',
        10 => 'a',
        11 => 'b',
        12 => 'c',
        13 => 'd',
        14 => 'e',
        _ => 'f',
    }
}

pub fn upper_hex_char(n: u8) -> (c: char)
    requires
        n < 16,
    ensures
        c == upper_hex_digit(n as nat),
{
    match n {
        10 => 'A',
        11 => 'B',
        12 => 'C',
        13 => 'D',
        14 => 'E',
        15 => 'F',
        _ => lower_hex_char(n),
    }
}

pub fn push_hex_byte(s: &mut String, b: u8)
    ensures
        final(s)@ == old(s)@ + hex_byte(b),
{
    push_char(s, lower_hex_char(b / 16));
    push_char(s, lower_hex_char(b % 16));
    assert(final(s)@ =~= old(s)@ + hex_byte(b));
}

/// Appends `grouped_hex` of `bs[start..end]`.
pub fn push_grouped_hex(s: &mut String, bs: &[u8], start: usize, end: usize, group: usize, sep: char)
    requires
        start <= end <= bs@.len(),
    ensures
        final(s)@ == old(s)@ + grouped_hex(bs@.subrange(start as int, end as int), group as nat, sep),
{
    let ghost s0 = s@;
    let mut i: usize = start;
    assert(bs@.subrange(start as int, start as int) =~= Seq::<u8>::empty());
    assert(s@ =~= s0 + grouped_hex(bs@.subrange(start as int, start as int), group as nat, sep));
    while i < end
        invariant
            start <= i <= end <= bs@.len(),
            s@ == s0 + grouped_hex(bs@.subrange(start as int, i as int), group as nat, sep),
        decreases end - i,
    {
        let k: usize = i - start;
        let ghost prev = s@;
        if group > 0 && k > 0 && k % group == 0 {
            push_char(s, sep);
        }
        push_hex_byte(s, bs[i]);
        let ghost sub = bs@.subrange(start as int, i + 1);
        assert(sub.drop_last() =~= bs@.subrange(start as int, i as int));
        assert(sub.last() == bs@[i as int]);
        assert(s@ =~= s0 + grouped_hex(sub, group as nat, sep));
        i = i + 1;
    }
}

/// Appends the decimal digits of `n`.
pub fn push_dec(s: &mut String, n: u64)
    ensures
        final(s)@ == old(s)@ + dec_text(n as nat),
    decreases n,
{
    if n >= 10 {
        push_dec(s, n / 10);
    }
    push_char(s, lower_hex_char((n % 10) as u8));
    assert(final(s)@ =~= old(s)@ + dec_text(n as nat));
}

/// Appends the lower-case hex digits of `n`, without leading zeros.
pub fn push_hex(s: &mut String, n: u64)
    ensures
        final(s)@ == old(s)@ + hex_text(n as nat),
    decreases n,
{
    if n >= 16 {
        push_hex(s, n / 16);
    }
    push_char(s, lower_hex_char((n % 16) as u8));
    assert(final(s)@ =~= old(s)@ + hex_text(n as nat));
}

/// Appends `0x` and four upper-case hex digits of `v`.
pub fn push_hex4_upper(s: &mut String, v: u16)
    ensures
        final(s)@ == old(s)@ + hex4_upper(v),
{
    push_char(s, '0');
    push_char(s, 'x');
    push_char(s, upper_hex_char((v / 4096) as u8));
    push_char(s, upper_hex_char(((v / 256) % 16) as u8));
    push_char(s, upper_hex_char(((v / 16) % 16) as u8));
    push_char(s, upper_hex_char((v % 16) as u8));
    assert(final(s)@ =~= old(s)@ + hex4_upper(v));
}

/// Appends `dotted_dec` of `bs[start..end]`.
pub fn push_dotted_dec(s: &mut String, bs: &[u8], start: usize, end: usize)
    requires
        start <= end <= bs@.len(),
    ensures
        final(s)@ == old(s)@ + dotted_dec(bs@.subrange(start as int, end as int)),
{
    let ghost s0 = s@;
    let mut i: usize = start;
    assert(bs@.subrange(start as int, start as int) =~= Seq::<u8>::empty());
    assert(s@ =~= s0 + dotted_dec(bs@.subrange(start as int, start as int)));
    while i < end
        invariant
            start <= i <= end <= bs@.len(),
            s@ == s0 + dotted_dec(bs@.subrange(start as int, i as int)),
        decreases end - i,
    {
        if i > start {
            push_char(s, '.');
        }
        push_dec(s, bs[i] as u64);
        let ghost sub = bs@.subrange(start as int, i + 1);
        assert(sub.drop_last() =~= bs@.subrange(start as int, i as int));
        assert(s@ =~= s0 + dotted_dec(sub));
        i = i + 1;
    }
}

/// Six bytes from `start` as a colon separated lower-case MAC address.
pub fn mac_string(bs: &[u8], start: usize) -> (r: String)
    requires
        start + 6 <= bs@.len(),
    ensures
        r@ == grouped_hex(bs@.subrange(start as int, start + 6), 1, ':'),
{
    let _n = bs.len();
    let mut s = String::new();
    push_grouped_hex(&mut s, bs, start, start + 6, 1, ':');
    s
}

/// Four bytes from `start` in dotted decimal form.
pub fn ipv4_string(bs: &[u8], start: usize) -> (r: String)
    requires
        start + 4 <= bs@.len(),
    ensures
        r@ == dotted_dec(bs@.subrange(start as int, start + 4)),
{
    let _n = bs.len();
    let mut s = String::new();
    push_dotted_dec(&mut s, bs, start, start + 4);
    s
}

} // verus!
