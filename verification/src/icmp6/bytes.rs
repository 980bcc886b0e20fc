use vstd::prelude::*;
use vstd::arithmetic::div_mod::lemma_fundamental_div_mod;
use crate::addr::Ip6Addr;

verus! {

// Big-endian fields of the ICMPv6 wire format, written arithmetically: the
// high byte of a 16-bit value is its quotient by 256, the low byte the
// remainder, and so on for wider values.

pub open spec fn u16_of(b0: u8, b1: u8) -> u16 {
    (b0 as int * 256 + b1 as int) as u16
}

pub open spec fn u16_hi(x: u16) -> u8 {
    (x as int / 256) as u8
}

pub open spec fn u16_lo(x: u16) -> u8 {
    (x as int % 256) as u8
}

pub open spec fn u32_of(b0: u8, b1: u8, b2: u8, b3: u8) -> u32 {
    (((b0 as int * 256 + b1 as int) * 256 + b2 as int) * 256 + b3 as int) as u32
}

pub open spec fn u32_b0(x: u32) -> u8 {
    (x as int / 0x1000000) as u8
}

pub open spec fn u32_b1(x: u32) -> u8 {
    ((x as int / 0x10000) % 256) as u8
}

pub open spec fn u32_b2(x: u32) -> u8 {
    ((x as int / 0x100) % 256) as u8
}

pub open spec fn u32_b3(x: u32) -> u8 {
    (x as int % 256) as u8
}

pub open spec fn ser_u16(x: u16) -> Seq<u8> {
    seq![u16_hi(x), u16_lo(x)]
}

pub open spec fn ser_u32(x: u32) -> Seq<u8> {
    seq![u32_b0(x), u32_b1(x), u32_b2(x), u32_b3(x)]
}

/// The address starting at byte `i` of `d`.
pub open spec fn addr_at(d: Seq<u8>, i: int) -> Ip6Addr {
    Ip6Addr {
        s0: u16_of(d[i], d[i + 1]),
        s1: u16_of(d[i + 2], d[i + 3]),
        s2: u16_of(d[i + 4], d[i + 5]),
        s3: u16_of(d[i + 6], d[i + 7]),
        s4: u16_of(d[i + 8], d[i + 9]),
        s5: u16_of(d[i + 10], d[i + 11]),
        s6: u16_of(d[i + 12], d[i + 13]),
        s7: u16_of(d[i + 14], d[i + 15]),
    }
}

/// The sixteen bytes of an address, network order.
pub open spec fn ser_addr(a: Ip6Addr) -> Seq<u8> {
    seq![
        u16_hi(a.s0), u16_lo(a.s0),
        u16_hi(a.s1), u16_lo(a.s1),
        u16_hi(a.s2), u16_lo(a.s2),
        u16_hi(a.s3), u16_lo(a.s3),
        u16_hi(a.s4), u16_lo(a.s4),
        u16_hi(a.s5), u16_lo(a.s5),
        u16_hi(a.s6), u16_lo(a.s6),
        u16_hi(a.s7), u16_lo(a.s7),
    ]
}

pub proof fn lemma_u16_split_join(x: u16)
    ensures
        u16_of(u16_hi(x), u16_lo(x)) == x,
{
    lemma_fundamental_div_mod(x as int, 256);
}

pub proof fn lemma_u32_split_join(x: u32)
    ensures
        u32_of(u32_b0(x), u32_b1(x), u32_b2(x), u32_b3(x)) == x,
{
    lemma_fundamental_div_mod(x as int, 256);
    lemma_fundamental_div_mod(x as int / 256, 256);
    lemma_fundamental_div_mod(x as int / 0x10000, 256);
    assert(x as int / 256 / 256 == x as int / 0x10000) by (nonlinear_arith);
    assert(x as int / 0x10000 / 256 == x as int / 0x1000000) by (nonlinear_arith);
}

/// Reading sixteen serialised bytes gives the address back.
pub proof fn lemma_addr_round_trip(a: Ip6Addr)
    ensures
        addr_at(ser_addr(a), 0) == a,
{
    lemma_u16_split_join(a.s0);
    lemma_u16_split_join(a.s1);
    lemma_u16_split_join(a.s2);
    lemma_u16_split_join(a.s3);
    lemma_u16_split_join(a.s4);
    lemma_u16_split_join(a.s5);
    lemma_u16_split_join(a.s6);
    lemma_u16_split_join(a.s7);
}

/// `addr_at` reads only the sixteen bytes at `i`, so it is stable under any
/// embedding that keeps them.
pub proof fn lemma_addr_at_agree(d1: Seq<u8>, d2: Seq<u8>, i1: int, i2: int)
    requires
        0 <= i1,
        i1 + 16 <= d1.len(),
        0 <= i2,
        i2 + 16 <= d2.len(),
        forall|k: int| 0 <= k < 16 ==> #[trigger] d1[i1 + k] == d2[i2 + k],
    ensures
        addr_at(d1, i1) == addr_at(d2, i2),
{
    assert(d1[i1 + 0] == d2[i2 + 0]);
    assert(d1[i1 + 1] == d2[i2 + 1]);
    assert(d1[i1 + 2] == d2[i2 + 2]);
    assert(d1[i1 + 3] == d2[i2 + 3]);
    assert(d1[i1 + 4] == d2[i2 + 4]);
    assert(d1[i1 + 5] == d2[i2 + 5]);
    assert(d1[i1 + 6] == d2[i2 + 6]);
    assert(d1[i1 + 7] == d2[i2 + 7]);
    assert(d1[i1 + 8] == d2[i2 + 8]);
    assert(d1[i1 + 9] == d2[i2 + 9]);
    assert(d1[i1 + 10] == d2[i2 + 10]);
    assert(d1[i1 + 11] == d2[i2 + 11]);
    assert(d1[i1 + 12] == d2[i2 + 12]);
    assert(d1[i1 + 13] == d2[i2 + 13]);
    assert(d1[i1 + 14] == d2[i2 + 14]);
    assert(d1[i1 + 15] == d2[i2 + 15]);
}

// Executable counterparts.

/// An element-wise copy of a byte vector.
pub fn clone_bytes(v: &Vec<u8>) -> (r: Vec<u8>)
    ensures
        r@ == v@,
{
    let mut out: Vec<u8> = Vec::new();
    let mut i: usize = 0;
    while i < v.len()
        invariant
            i <= v@.len(),
            out@ == v@.take(i as int),
        decreases v@.len() - i,
    {
        out.push(v[i]);
        proof {
            assert(out@ =~= v@.take(i + 1));
        }
        i += 1;
    }
    proof {
        assert(v@.take(i as int) =~= v@);
    }
    out
}

pub fn read_u16(b0: u8, b1: u8) -> (r: u16)
    ensures
        r == u16_of(b0, b1),
{
    (b0 as u16) * 256 + (b1 as u16)
}

pub fn read_u32(b0: u8, b1: u8, b2: u8, b3: u8) -> (r: u32)
    ensures
        r == u32_of(b0, b1, b2, b3),
{
    (((b0 as u32) * 256 + (b1 as u32)) * 256 + (b2 as u32)) * 256 + (b3 as u32)
}

/// Reads the address at `d[i..i + 16]`.
pub fn read_addr(d: &[u8], i: usize) -> (r: Ip6Addr)
    requires
        i + 16 <= d@.len(),
    ensures
        r == addr_at(d@, i as int),
{
    Ip6Addr {
        s0: read_u16(d[i], d[i + 1]),
        s1: read_u16(d[i + 2], d[i + 3]),
        s2: read_u16(d[i + 4], d[i + 5]),
        s3: read_u16(d[i + 6], d[i + 7]),
        s4: read_u16(d[i + 8], d[i + 9]),
        s5: read_u16(d[i + 10], d[i + 11]),
        s6: read_u16(d[i + 12], d[i + 13]),
        s7: read_u16(d[i + 14], d[i + 15]),
    }
}

pub fn push_u16(out: &mut Vec<u8>, x: u16)
    ensures
        final(out)@ == old(out)@ + ser_u16(x),
{
    out.push((x / 256) as u8);
    out.push((x % 256) as u8);
    assert(out@ =~= old(out)@ + ser_u16(x));
}

pub fn push_u32(out: &mut Vec<u8>, x: u32)
    ensures
        final(out)@ == old(out)@ + ser_u32(x),
{
    out.push((x / 0x1000000) as u8);
    out.push(((x / 0x10000) % 256) as u8);
    out.push(((x / 0x100) % 256) as u8);
    out.push((x % 256) as u8);
    assert(out@ =~= old(out)@ + ser_u32(x));
}

pub fn push_addr(out: &mut Vec<u8>, a: Ip6Addr)
    ensures
        final(out)@ == old(out)@ + ser_addr(a),
{
    push_u16(out, a.s0);
    push_u16(out, a.s1);
    push_u16(out, a.s2);
    push_u16(out, a.s3);
    push_u16(out, a.s4);
    push_u16(out, a.s5);
    push_u16(out, a.s6);
    push_u16(out, a.s7);
    assert(out@ =~= old(out)@ + ser_addr(a));
}

} // verus!
