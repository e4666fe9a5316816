//! Scalars as little-endian bytes, and what a reader finds where they were
//! appended.

use vstd::prelude::*;
use crate::envelope::read::{le2, le4, spec_u16_at, spec_u32_at, spec_u64_at, spec_u8_at};

verus! {

pub open spec fn le_bytes2(x: u16) -> Seq<u8> {
    seq![(x % 0x100) as u8, (x / 0x100) as u8]
}

pub open spec fn le_bytes4(x: u32) -> Seq<u8> {
    let q1 = x / 0x100;
    let q2 = q1 / 0x100;
    let q3 = q2 / 0x100;
    seq![(x % 0x100) as u8, (q1 % 0x100) as u8, (q2 % 0x100) as u8, q3 as u8]
}

pub open spec fn le_bytes8(x: u64) -> Seq<u8> {
    le_bytes4((x % 0x1_0000_0000) as u32) + le_bytes4((x / 0x1_0000_0000) as u32)
}

pub open spec fn zeros(n: nat) -> Seq<u8> {
    Seq::new(n, |i: int| 0u8)
}

pub proof fn lemma_le2(x: u16)
    ensures
        le_bytes2(x).len() == 2,
        le2(le_bytes2(x)[0], le_bytes2(x)[1]) == x,
{
}

pub proof fn lemma_le4(x: u32)
    ensures
        le_bytes4(x).len() == 4,
        le4(le_bytes4(x)[0], le_bytes4(x)[1], le_bytes4(x)[2], le_bytes4(x)[3]) == x,
{
}

pub proof fn lemma_le8(x: u64)
    ensures
        le_bytes8(x).len() == 8,
        le4(le_bytes8(x)[0], le_bytes8(x)[1], le_bytes8(x)[2], le_bytes8(x)[3]) + 0x1_0000_0000
            * le4(le_bytes8(x)[4], le_bytes8(x)[5], le_bytes8(x)[6], le_bytes8(x)[7]) == x,
        le_bytes8(x).subrange(0, 4) == le_bytes4((x % 0x1_0000_0000) as u32),
        le_bytes8(x)[0] == (x % 0x100) as u8,
{
    let low = (x % 0x1_0000_0000) as u32;
    let high = (x / 0x1_0000_0000) as u32;
    lemma_le4(low);
    lemma_le4(high);
    assert(le_bytes8(x).subrange(0, 4) =~= le_bytes4(low));
}

pub proof fn lemma_append_keeps_u16(v: Seq<u8>, more: Seq<u8>, pos: int)
    requires
        spec_u16_at(v, pos) is Some,
    ensures
        spec_u16_at(v + more, pos) == spec_u16_at(v, pos),
{
}

pub proof fn lemma_append_keeps_u32(v: Seq<u8>, more: Seq<u8>, pos: int)
    requires
        spec_u32_at(v, pos) is Some,
    ensures
        spec_u32_at(v + more, pos) == spec_u32_at(v, pos),
{
}

pub proof fn lemma_append_keeps_u64(v: Seq<u8>, more: Seq<u8>, pos: int)
    requires
        spec_u64_at(v, pos) is Some,
    ensures
        spec_u64_at(v + more, pos) == spec_u64_at(v, pos),
{
}

/// A scalar that was appended at a multiple of its size is read there.
pub proof fn lemma_read_appended_u16(v: Seq<u8>, x: u16, more: Seq<u8>)
    requires
        v.len() % 2 == 0,
    ensures
        spec_u16_at(v + le_bytes2(x) + more, v.len() as int) == Some(x),
{
    lemma_le2(x);
    let b = v + le_bytes2(x) + more;
    let n = v.len() as int;
    assert(b[n] == le_bytes2(x)[0]);
    assert(b[n + 1] == le_bytes2(x)[1]);
}

pub proof fn lemma_read_appended_u32(v: Seq<u8>, x: u32, more: Seq<u8>)
    requires
        v.len() % 4 == 0,
    ensures
        spec_u32_at(v + le_bytes4(x) + more, v.len() as int) == Some(x),
{
    lemma_le4(x);
    let b = v + le_bytes4(x) + more;
    let n = v.len() as int;
    assert(b[n] == le_bytes4(x)[0]);
    assert(b[n + 1] == le_bytes4(x)[1]);
    assert(b[n + 2] == le_bytes4(x)[2]);
    assert(b[n + 3] == le_bytes4(x)[3]);
}

/// Where eight bytes of a scalar were appended at a multiple of 8, the
/// scalar is read in full, and in its low bytes as far as it fits in them.
pub proof fn lemma_read_appended_u64(v: Seq<u8>, x: u64, more: Seq<u8>)
    requires
        v.len() % 8 == 0,
    ensures
        spec_u64_at(v + le_bytes8(x) + more, v.len() as int) == Some(x),
        x <= u32::MAX ==> spec_u32_at(v + le_bytes8(x) + more, v.len() as int) == Some(x as u32),
        x <= u16::MAX ==> spec_u16_at(v + le_bytes8(x) + more, v.len() as int) == Some(x as u16),
        x <= u8::MAX ==> spec_u8_at(v + le_bytes8(x) + more, v.len() as int) == Some(x as u8),
{
    lemma_le8(x);
    let b = v + le_bytes8(x) + more;
    let n = v.len() as int;
    let s = le_bytes8(x);
    assert(b[n] == s[0]);
    assert(b[n + 1] == s[1]);
    assert(b[n + 2] == s[2]);
    assert(b[n + 3] == s[3]);
    assert(b[n + 4] == s[4]);
    assert(b[n + 5] == s[5]);
    assert(b[n + 6] == s[6]);
    assert(b[n + 7] == s[7]);
}

pub fn push_u16(out: &mut Vec<u8>, x: u16)
    ensures
        final(out)@ == old(out)@ + le_bytes2(x),
{
    out.push((x % 0x100) as u8);
    out.push((x / 0x100) as u8);
    assert(out@ =~= old(out)@ + le_bytes2(x));
}

pub fn push_u32(out: &mut Vec<u8>, x: u32)
    ensures
        final(out)@ == old(out)@ + le_bytes4(x),
{
    let q1: u32 = x / 0x100;
    let q2: u32 = q1 / 0x100;
    let q3: u32 = q2 / 0x100;
    out.push((x % 0x100) as u8);
    out.push((q1 % 0x100) as u8);
    out.push((q2 % 0x100) as u8);
    out.push(q3 as u8);
    assert(out@ =~= old(out)@ + le_bytes4(x));
}

pub fn push_u64(out: &mut Vec<u8>, x: u64)
    ensures
        final(out)@ == old(out)@ + le_bytes8(x),
{
    let ghost before = out@;
    push_u32(out, (x % 0x1_0000_0000) as u32);
    push_u32(out, (x / 0x1_0000_0000) as u32);
    assert(out@ =~= before + le_bytes8(x));
}

pub fn push_zeros(out: &mut Vec<u8>, n: usize)
    ensures
        final(out)@ == old(out)@ + zeros(n as nat),
{
    let ghost before = out@;
    let mut i: usize = 0;
    while i < n
        invariant
            i <= n,
            out@ == before + zeros(i as nat),
        decreases n - i,
    {
        out.push(0);
        i += 1;
        assert(out@ =~= before + zeros(i as nat));
    }
}

pub fn push_all(out: &mut Vec<u8>, bytes: &[u8])
    ensures
        final(out)@ == old(out)@ + bytes@,
{
    let ghost before = out@;
    let mut i: usize = 0;
    while i < bytes.len()
        invariant
            i <= bytes.len(),
            out@ == before + bytes@.subrange(0, i as int),
        decreases bytes.len() - i,
    {
        out.push(bytes[i]);
        i += 1;
        assert(out@ =~= before + bytes@.subrange(0, i as int));
    }
    assert(bytes@.subrange(0, bytes.len() as int) =~= bytes@);
}

} // verus!
