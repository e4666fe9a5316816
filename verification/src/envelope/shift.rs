//! What stays true of a buffer that grows at its front.
//!
//! An envelope is written from its end towards its start: what a table
//! refers to is written before the table. A block that is already written
//! is found by its distance from the end of the buffer, which no later
//! block changes. The lemmas here say that a reader which found something
//! in a buffer finds the same thing, as many bytes further on as were put
//! before it, provided that this number keeps every scalar aligned.

use vstd::prelude::*;
use crate::envelope::read::{
    spec_field, spec_ref_field, spec_string_at, spec_table_at, spec_target, spec_u16_at,
    spec_u16_field, spec_u32_at, spec_u64_at, spec_u64_field, spec_u8_at, spec_u8_field,
    spec_vector_at, ByteRange, Table,
};

verus! {

/// `new` is `old` with a whole number of 8-byte words put before it.
pub open spec fn extends(new: Seq<u8>, old: Seq<u8>) -> bool {
    &&& new.len() >= old.len()
    &&& (new.len() - old.len()) % 8 == 0
    &&& forall|j: int| 0 <= j < old.len() ==> new[new.len() - old.len() + j] == old[j]
}

pub proof fn lemma_extends_trans(a: Seq<u8>, b: Seq<u8>, c: Seq<u8>)
    requires
        extends(a, b),
        extends(b, c),
    ensures
        extends(a, c),
{
    let k1 = a.len() - b.len();
    let k2 = b.len() - c.len();
    assert forall|j: int| 0 <= j < c.len() implies a[a.len() - c.len() + j] == c[j] by {
        assert(b[k2 + j] == c[j]);
        assert(a[k1 + (k2 + j)] == b[k2 + j]);
    }
}

/// A table moved `k` bytes on.
pub open spec fn moved_table(t: Table, k: int) -> Table {
    Table { pos: (t.pos + k) as usize, vtable: (t.vtable + k) as usize, vtable_len: t.vtable_len }
}

/// A run of bytes moved `k` bytes on.
pub open spec fn moved_range(r: ByteRange, k: int) -> ByteRange {
    ByteRange { start: (r.start + k) as usize, len: r.len }
}

pub proof fn lemma_shift_u8(new: Seq<u8>, old: Seq<u8>, pos: int)
    requires
        extends(new, old),
        spec_u8_at(old, pos) is Some,
    ensures
        spec_u8_at(new, pos + (new.len() - old.len())) == spec_u8_at(old, pos),
{
    let k = new.len() - old.len();
    assert(new[k + pos] == old[pos]);
}

pub proof fn lemma_shift_u16(new: Seq<u8>, old: Seq<u8>, pos: int)
    requires
        extends(new, old),
        spec_u16_at(old, pos) is Some,
    ensures
        spec_u16_at(new, pos + (new.len() - old.len())) == spec_u16_at(old, pos),
{
    let k = new.len() - old.len();
    assert(new[k + pos] == old[pos]);
    assert(new[k + (pos + 1)] == old[pos + 1]);
}

pub proof fn lemma_shift_u32(new: Seq<u8>, old: Seq<u8>, pos: int)
    requires
        extends(new, old),
        spec_u32_at(old, pos) is Some,
    ensures
        spec_u32_at(new, pos + (new.len() - old.len())) == spec_u32_at(old, pos),
{
    let k = new.len() - old.len();
    assert(new[k + pos] == old[pos]);
    assert(new[k + (pos + 1)] == old[pos + 1]);
    assert(new[k + (pos + 2)] == old[pos + 2]);
    assert(new[k + (pos + 3)] == old[pos + 3]);
}

pub proof fn lemma_shift_u64(new: Seq<u8>, old: Seq<u8>, pos: int)
    requires
        extends(new, old),
        spec_u64_at(old, pos) is Some,
    ensures
        spec_u64_at(new, pos + (new.len() - old.len())) == spec_u64_at(old, pos),
{
    let k = new.len() - old.len();
    assert(new[k + pos] == old[pos]);
    assert(new[k + (pos + 1)] == old[pos + 1]);
    assert(new[k + (pos + 2)] == old[pos + 2]);
    assert(new[k + (pos + 3)] == old[pos + 3]);
    assert(new[k + (pos + 4)] == old[pos + 4]);
    assert(new[k + (pos + 5)] == old[pos + 5]);
    assert(new[k + (pos + 6)] == old[pos + 6]);
    assert(new[k + (pos + 7)] == old[pos + 7]);
}

pub proof fn lemma_shift_table(new: Seq<u8>, old: Seq<u8>, pos: int)
    requires
        extends(new, old),
        new.len() <= usize::MAX,
        spec_table_at(old, pos) is Some,
    ensures
        spec_table_at(new, pos + (new.len() - old.len())) == Some(
            moved_table(spec_table_at(old, pos).unwrap(), new.len() - old.len()),
        ),
{
    let k = new.len() - old.len();
    lemma_shift_u32(new, old, pos);
    let t = spec_table_at(old, pos).unwrap();
    lemma_shift_u16(new, old, t.vtable as int);
}

pub proof fn lemma_shift_field(new: Seq<u8>, old: Seq<u8>, t: Table, slot: int)
    requires
        extends(new, old),
        spec_field(old, t, slot) is Some,
        0 <= slot,
        t.pos <= old.len(),
        t.vtable + t.vtable_len <= old.len(),
        new.len() <= usize::MAX,
    ensures
        spec_field(new, moved_table(t, new.len() - old.len()), slot) == match spec_field(
            old,
            t,
            slot,
        ).unwrap() {
            None => Some(None::<int>),
            Some(pos) => Some(Some(pos + (new.len() - old.len()))),
        },
{
    let entry = 4 + 2 * slot;
    if entry < t.vtable_len {
        lemma_shift_u16(new, old, t.vtable + entry);
    }
}

pub proof fn lemma_shift_u8_field(new: Seq<u8>, old: Seq<u8>, t: Table, slot: int, default: u8)
    requires
        extends(new, old),
        spec_u8_field(old, t, slot, default) is Some,
        0 <= slot,
        t.pos <= old.len(),
        t.vtable + t.vtable_len <= old.len(),
        new.len() <= usize::MAX,
    ensures
        spec_u8_field(new, moved_table(t, new.len() - old.len()), slot, default) == spec_u8_field(
            old,
            t,
            slot,
            default,
        ),
{
    lemma_shift_field(new, old, t, slot);
    match spec_field(old, t, slot).unwrap() {
        None => {},
        Some(pos) => {
            lemma_shift_u8(new, old, pos);
        },
    }
}

pub proof fn lemma_shift_u16_field(new: Seq<u8>, old: Seq<u8>, t: Table, slot: int, default: u16)
    requires
        extends(new, old),
        spec_u16_field(old, t, slot, default) is Some,
        0 <= slot,
        t.pos <= old.len(),
        t.vtable + t.vtable_len <= old.len(),
        new.len() <= usize::MAX,
    ensures
        spec_u16_field(new, moved_table(t, new.len() - old.len()), slot, default)
            == spec_u16_field(old, t, slot, default),
{
    lemma_shift_field(new, old, t, slot);
    match spec_field(old, t, slot).unwrap() {
        None => {},
        Some(pos) => {
            lemma_shift_u16(new, old, pos);
        },
    }
}

pub proof fn lemma_shift_u64_field(new: Seq<u8>, old: Seq<u8>, t: Table, slot: int, default: u64)
    requires
        extends(new, old),
        spec_u64_field(old, t, slot, default) is Some,
        0 <= slot,
        t.pos <= old.len(),
        t.vtable + t.vtable_len <= old.len(),
        new.len() <= usize::MAX,
    ensures
        spec_u64_field(new, moved_table(t, new.len() - old.len()), slot, default)
            == spec_u64_field(old, t, slot, default),
{
    lemma_shift_field(new, old, t, slot);
    match spec_field(old, t, slot).unwrap() {
        None => {},
        Some(pos) => {
            lemma_shift_u64(new, old, pos);
        },
    }
}

pub proof fn lemma_shift_target(new: Seq<u8>, old: Seq<u8>, pos: int)
    requires
        extends(new, old),
        spec_target(old, pos) is Some,
    ensures
        spec_target(new, pos + (new.len() - old.len())) == Some(
            spec_target(old, pos).unwrap() + (new.len() - old.len()),
        ),
{
    lemma_shift_u32(new, old, pos);
}

pub proof fn lemma_shift_ref_field(new: Seq<u8>, old: Seq<u8>, t: Table, slot: int)
    requires
        extends(new, old),
        spec_ref_field(old, t, slot) is Some,
        0 <= slot,
        t.pos <= old.len(),
        t.vtable + t.vtable_len <= old.len(),
        new.len() <= usize::MAX,
    ensures
        spec_ref_field(new, moved_table(t, new.len() - old.len()), slot) == match spec_ref_field(
            old,
            t,
            slot,
        ).unwrap() {
            None => Some(None::<int>),
            Some(target) => Some(Some(target + (new.len() - old.len()))),
        },
{
    lemma_shift_field(new, old, t, slot);
    match spec_field(old, t, slot).unwrap() {
        None => {},
        Some(pos) => {
            lemma_shift_target(new, old, pos);
        },
    }
}

pub proof fn lemma_shift_vector(new: Seq<u8>, old: Seq<u8>, pos: int, size: int)
    requires
        extends(new, old),
        spec_vector_at(old, pos, size) is Some,
        0 <= size,
        new.len() <= usize::MAX,
    ensures
        spec_vector_at(new, pos + (new.len() - old.len()), size) == Some(
            moved_range(spec_vector_at(old, pos, size).unwrap(), new.len() - old.len()),
        ),
{
    lemma_shift_u32(new, old, pos);
}

/// The bytes of a run stay what they were.
pub proof fn lemma_shift_range(new: Seq<u8>, old: Seq<u8>, r: ByteRange)
    requires
        extends(new, old),
        r.within(old),
        new.len() <= usize::MAX,
    ensures
        moved_range(r, new.len() - old.len()).within(new),
        moved_range(r, new.len() - old.len()).of(new) == r.of(old),
{
    let k = new.len() - old.len();
    let m = moved_range(r, k);
    assert forall|j: int| 0 <= j < r.len implies m.of(new)[j] == r.of(old)[j] by {
        assert(new[k + (r.start + j)] == old[r.start + j]);
    }
    assert(m.of(new) =~= r.of(old));
}

pub proof fn lemma_shift_string(new: Seq<u8>, old: Seq<u8>, pos: int)
    requires
        extends(new, old),
        spec_string_at(old, pos) is Some,
        new.len() <= usize::MAX,
    ensures
        spec_string_at(new, pos + (new.len() - old.len())) == Some(
            moved_range(spec_string_at(old, pos).unwrap(), new.len() - old.len()),
        ),
{
    let k = new.len() - old.len();
    lemma_shift_vector(new, old, pos, 1);
    let r = spec_string_at(old, pos).unwrap();
    assert(new[k + (r.start + r.len)] == old[r.start + r.len]);
}

} // verus!
