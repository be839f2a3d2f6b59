//! Big-endian integers as bytes.

use vstd::prelude::*;

verus! {

pub open spec fn be_u16_bytes(v: u16) -> Seq<u8> {
    seq![(v / 0x100) as u8, (v % 0x100) as u8]
}

pub open spec fn be_u32_bytes(v: u32) -> Seq<u8> {
    seq![
        (v / 0x100_0000) as u8,
        ((v / 0x1_0000) % 0x100) as u8,
        ((v / 0x100) % 0x100) as u8,
        (v % 0x100) as u8,
    ]
}

pub open spec fn be_u64_bytes(v: u64) -> Seq<u8> {
    be_u32_bytes((v / 0x1_0000_0000) as u32) + be_u32_bytes((v % 0x1_0000_0000) as u32)
}

/// The big-endian `u16` at offset `i` of `s`.
pub open spec fn be_u16_at(s: Seq<u8>, i: int) -> u16 {
    (s[i] * 0x100 + s[i + 1]) as u16
}

/// The big-endian `u32` at offset `i` of `s`.
pub open spec fn be_u32_at(s: Seq<u8>, i: int) -> u32 {
    (s[i] * 0x100_0000 + s[i + 1] * 0x1_0000 + s[i + 2] * 0x100 + s[i + 3]) as u32
}

/// The big-endian `u64` at offset `i` of `s`.
pub open spec fn be_u64_at(s: Seq<u8>, i: int) -> u64 {
    (be_u32_at(s, i) * 0x1_0000_0000 + be_u32_at(s, i + 4)) as u64
}

pub fn read_be_u16(s: &[u8], i: usize) -> (r: u16)
    requires
        i + 2 <= s@.len(),
    ensures
        r == be_u16_at(s@, i as int),
{
    (s[i] as u16) * 0x100 + (s[i + 1] as u16)
}

pub fn read_be_u32(s: &[u8], i: usize) -> (r: u32)
    requires
        i + 4 <= s@.len(),
    ensures
        r == be_u32_at(s@, i as int),
{
    (s[i] as u32) * 0x100_0000 + (s[i + 1] as u32) * 0x1_0000 + (s[i + 2] as u32) * 0x100 + (s[i
        + 3] as u32)
}

pub fn read_be_u64(s: &[u8], i: usize) -> (r: u64)
    requires
        i + 8 <= s@.len(),
    ensures
        r == be_u64_at(s@, i as int),
{
    let hi = read_be_u32(s, i) as u64;
    assert(i + 4 < s.len());
    let lo = read_be_u32(s, i + 4) as u64;
    hi * 0x1_0000_0000 + lo
}

pub fn write_be_u16(dst: &mut Vec<u8>, v: u16)
    ensures
        final(dst)@ == old(dst)@ + be_u16_bytes(v),
{
    dst.push((v / 0x100) as u8);
    dst.push((v % 0x100) as u8);
    assert(dst@ =~= old(dst)@ + be_u16_bytes(v));
}

pub fn write_be_u32(dst: &mut Vec<u8>, v: u32)
    ensures
        final(dst)@ == old(dst)@ + be_u32_bytes(v),
{
    dst.push((v / 0x100_0000) as u8);
    dst.push(((v / 0x1_0000) % 0x100) as u8);
    dst.push(((v / 0x100) % 0x100) as u8);
    dst.push((v % 0x100) as u8);
    assert(dst@ =~= old(dst)@ + be_u32_bytes(v));
}

pub fn write_be_u64(dst: &mut Vec<u8>, v: u64)
    ensures
        final(dst)@ == old(dst)@ + be_u64_bytes(v),
{
    write_be_u32(dst, (v / 0x1_0000_0000) as u32);
    write_be_u32(dst, (v % 0x1_0000_0000) as u32);
    assert(dst@ =~= old(dst)@ + be_u64_bytes(v));
}

pub proof fn lemma_be_u16(v: u16, s: Seq<u8>, i: int)
    requires
        0 <= i,
        i + 2 <= s.len(),
        s.subrange(i, i + 2) == be_u16_bytes(v),
    ensures
        be_u16_at(s, i) == v,
{
    assert(s[i] == s.subrange(i, i + 2)[0]);
    assert(s[i + 1] == s.subrange(i, i + 2)[1]);
}

pub proof fn lemma_be_u32(v: u32, s: Seq<u8>, i: int)
    requires
        0 <= i,
        i + 4 <= s.len(),
        s.subrange(i, i + 4) == be_u32_bytes(v),
    ensures
        be_u32_at(s, i) == v,
{
    assert(s[i] == s.subrange(i, i + 4)[0]);
    assert(s[i + 1] == s.subrange(i, i + 4)[1]);
    assert(s[i + 2] == s.subrange(i, i + 4)[2]);
    assert(s[i + 3] == s.subrange(i, i + 4)[3]);
}

pub proof fn lemma_be_u64(v: u64, s: Seq<u8>, i: int)
    requires
        0 <= i,
        i + 8 <= s.len(),
        s.subrange(i, i + 8) == be_u64_bytes(v),
    ensures
        be_u64_at(s, i) == v,
{
    assert(s.subrange(i, i + 4) =~= s.subrange(i, i + 8).subrange(0, 4));
    assert(s.subrange(i + 4, i + 8) =~= s.subrange(i, i + 8).subrange(4, 8));
    assert(be_u64_bytes(v).subrange(0, 4) =~= be_u32_bytes((v / 0x1_0000_0000) as u32));
    assert(be_u64_bytes(v).subrange(4, 8) =~= be_u32_bytes((v % 0x1_0000_0000) as u32));
    lemma_be_u32((v / 0x1_0000_0000) as u32, s, i);
    lemma_be_u32((v % 0x1_0000_0000) as u32, s, i + 4);
}

} // verus!
