//! Reading the binary layout of an envelope.
//!
//! An envelope is a buffer of little-endian scalars that refer to each
//! other by offsets. A *table* starts with a signed 32-bit offset back to
//! its *vtable*, which lists for each field of the table where it lies in
//! the table, or 0 where the field is left out. Strings and vectors start
//! with their 32-bit length. A field that holds a string, a vector or a
//! table holds an unsigned 32-bit offset forward to it. Every scalar lies
//! at a multiple of its size.
//!
//! Each reader here comes as a spec function, which says what the bytes
//! mean, and as an executable function that computes exactly that. A reader
//! answers `None` where the bytes leave the buffer or break the layout.

use vstd::prelude::*;

verus! {

/// No envelope is longer than 2 GiB.
pub const MAX_ENVELOPE_SIZE: usize = 0x8000_0000;

/// Whether `size` bytes from `pos` on lie inside the buffer.
pub open spec fn in_bounds(b: Seq<u8>, pos: int, size: int) -> bool {
    0 <= pos && 0 <= size && pos + size <= b.len()
}

pub open spec fn spec_u8_at(b: Seq<u8>, pos: int) -> Option<u8> {
    if in_bounds(b, pos, 1) {
        Some(b[pos])
    } else {
        None
    }
}

/// The value of two bytes, least significant first.
pub open spec fn le2(b0: u8, b1: u8) -> int {
    b0 + 0x100 * b1
}

/// The value of four bytes, least significant first.
pub open spec fn le4(b0: u8, b1: u8, b2: u8, b3: u8) -> int {
    b0 + 0x100 * b1 + 0x1_0000 * b2 + 0x100_0000 * b3
}

pub open spec fn spec_u16_at(b: Seq<u8>, pos: int) -> Option<u16> {
    if in_bounds(b, pos, 2) && pos % 2 == 0 {
        Some(le2(b[pos], b[pos + 1]) as u16)
    } else {
        None
    }
}

pub open spec fn spec_u32_at(b: Seq<u8>, pos: int) -> Option<u32> {
    if in_bounds(b, pos, 4) && pos % 4 == 0 {
        Some(le4(b[pos], b[pos + 1], b[pos + 2], b[pos + 3]) as u32)
    } else {
        None
    }
}

pub open spec fn spec_u64_at(b: Seq<u8>, pos: int) -> Option<u64> {
    if in_bounds(b, pos, 8) && pos % 8 == 0 {
        Some(
            (le4(b[pos], b[pos + 1], b[pos + 2], b[pos + 3]) + 0x1_0000_0000 * le4(
                b[pos + 4],
                b[pos + 5],
                b[pos + 6],
                b[pos + 7],
            )) as u64,
        )
    } else {
        None
    }
}

/// A table that was found in a buffer: where it starts, where its vtable
/// starts, and how many bytes the vtable has.
#[derive(Clone, Copy, Debug, PartialEq, Eq, Structural)]
pub struct Table {
    pub pos: usize,
    pub vtable: usize,
    pub vtable_len: usize,
}

/// The signed reading of a 32-bit word.
pub open spec fn signed(raw: u32) -> int {
    if raw < 0x8000_0000 {
        raw as int
    } else {
        raw - 0x1_0000_0000
    }
}

/// The table that starts at `pos`: its first word, read as signed, is the
/// distance back from the table to its vtable; the vtable starts with its
/// own length, which is even, and lies inside the buffer.
pub open spec fn spec_table_at(b: Seq<u8>, pos: int) -> Option<Table> {
    match spec_u32_at(b, pos) {
        None => None,
        Some(raw) => {
            let vtable = pos - signed(raw);
            if 0 <= vtable < b.len() {
                match spec_u16_at(b, vtable) {
                    None => None,
                    Some(vtable_len) => if vtable_len % 2 == 0 && vtable + vtable_len <= b.len() {
                        Some(
                            Table {
                                pos: pos as usize,
                                vtable: vtable as usize,
                                vtable_len: vtable_len as usize,
                            },
                        )
                    } else {
                        None
                    },
                }
            } else {
                None
            }
        },
    }
}

/// Where the field of a slot lies: `Some(None)` where the table leaves it
/// out, `Some(Some(pos))` where it holds it at `pos`. Slot `k` is listed at
/// byte `4 + 2 k` of the vtable; a vtable too short to list it leaves it
/// out.
pub open spec fn spec_field(b: Seq<u8>, t: Table, slot: int) -> Option<Option<int>> {
    let entry = 4 + 2 * slot;
    if entry < t.vtable_len {
        match spec_u16_at(b, t.vtable + entry) {
            None => None,
            Some(offset) => if offset > 0 {
                Some(Some(t.pos + offset))
            } else {
                Some(None)
            },
        }
    } else {
        Some(None)
    }
}

pub open spec fn spec_u8_field(b: Seq<u8>, t: Table, slot: int, default: u8) -> Option<u8> {
    match spec_field(b, t, slot) {
        None => None,
        Some(None) => Some(default),
        Some(Some(pos)) => spec_u8_at(b, pos),
    }
}

pub open spec fn spec_u16_field(b: Seq<u8>, t: Table, slot: int, default: u16) -> Option<u16> {
    match spec_field(b, t, slot) {
        None => None,
        Some(None) => Some(default),
        Some(Some(pos)) => spec_u16_at(b, pos),
    }
}

pub open spec fn spec_u64_field(b: Seq<u8>, t: Table, slot: int, default: u64) -> Option<u64> {
    match spec_field(b, t, slot) {
        None => None,
        Some(None) => Some(default),
        Some(Some(pos)) => spec_u64_at(b, pos),
    }
}

/// Where the offset at `pos` points: as far past `pos` as the word there
/// says.
pub open spec fn spec_target(b: Seq<u8>, pos: int) -> Option<int> {
    match spec_u32_at(b, pos) {
        None => None,
        Some(offset) => Some(pos + offset),
    }
}

/// Where the string, vector or table of a slot starts, if the table holds
/// one there.
pub open spec fn spec_ref_field(b: Seq<u8>, t: Table, slot: int) -> Option<Option<int>> {
    match spec_field(b, t, slot) {
        None => None,
        Some(None) => Some(None),
        Some(Some(pos)) => match spec_target(b, pos) {
            None => None,
            Some(target) => Some(Some(target)),
        },
    }
}

/// A run of bytes inside a buffer.
#[derive(Clone, Copy, Debug, PartialEq, Eq, Structural)]
pub struct ByteRange {
    pub start: usize,
    pub len: usize,
}

impl ByteRange {
    pub open spec fn within(self, b: Seq<u8>) -> bool {
        self.start + self.len <= b.len()
    }

    /// The bytes of the run.
    pub open spec fn of(self, b: Seq<u8>) -> Seq<u8> {
        b.subrange(self.start as int, self.start + self.len)
    }
}

/// The elements of the vector that starts at `pos`: its first word counts
/// them, and they follow it, `size` bytes each.
pub open spec fn spec_vector_at(b: Seq<u8>, pos: int, size: int) -> Option<ByteRange> {
    match spec_u32_at(b, pos) {
        None => None,
        Some(count) => if in_bounds(b, pos + 4, count * size) {
            Some(ByteRange { start: (pos + 4) as usize, len: count as usize })
        } else {
            None
        },
    }
}

/// The bytes of the string that starts at `pos`: a vector of bytes that a
/// zero byte follows.
pub open spec fn spec_string_at(b: Seq<u8>, pos: int) -> Option<ByteRange> {
    match spec_vector_at(b, pos, 1) {
        None => None,
        Some(span) => if span.start + span.len < b.len() && b[span.start + span.len] == 0 {
            Some(span)
        } else {
            None
        },
    }
}

pub fn u8_at(b: &[u8], pos: usize) -> (value: Option<u8>)
    ensures
        value == spec_u8_at(b@, pos as int),
{
    if pos < b.len() {
        Some(b[pos])
    } else {
        None
    }
}

pub fn u16_at(b: &[u8], pos: usize) -> (value: Option<u16>)
    ensures
        value == spec_u16_at(b@, pos as int),
{
    if pos <= b.len() && b.len() - pos >= 2 && pos % 2 == 0 {
        let b0: u16 = b[pos] as u16;
        let b1: u16 = b[pos + 1] as u16;
        Some(b0 + 0x100 * b1)
    } else {
        None
    }
}

pub fn u32_at(b: &[u8], pos: usize) -> (value: Option<u32>)
    ensures
        value == spec_u32_at(b@, pos as int),
{
    if pos <= b.len() && b.len() - pos >= 4 && pos % 4 == 0 {
        let b0: u32 = b[pos] as u32;
        let b1: u32 = b[pos + 1] as u32;
        let b2: u32 = b[pos + 2] as u32;
        let b3: u32 = b[pos + 3] as u32;
        Some(b0 + 0x100 * b1 + 0x1_0000 * b2 + 0x100_0000 * b3)
    } else {
        None
    }
}

pub fn u64_at(b: &[u8], pos: usize) -> (value: Option<u64>)
    ensures
        value == spec_u64_at(b@, pos as int),
{
    if pos <= b.len() && b.len() - pos >= 8 && pos % 8 == 0 {
        let b0: u64 = b[pos] as u64;
        let b1: u64 = b[pos + 1] as u64;
        let b2: u64 = b[pos + 2] as u64;
        let b3: u64 = b[pos + 3] as u64;
        let b4: u64 = b[pos + 4] as u64;
        let b5: u64 = b[pos + 5] as u64;
        let b6: u64 = b[pos + 6] as u64;
        let b7: u64 = b[pos + 7] as u64;
        let low: u64 = b0 + 0x100 * b1 + 0x1_0000 * b2 + 0x100_0000 * b3;
        let high: u64 = b4 + 0x100 * b5 + 0x1_0000 * b6 + 0x100_0000 * b7;
        Some(low + 0x1_0000_0000 * high)
    } else {
        None
    }
}

pub fn table_at(b: &[u8], pos: usize) -> (table: Option<Table>)
    requires
        b.len() <= MAX_ENVELOPE_SIZE,
    ensures
        table == spec_table_at(b@, pos as int),
{
    match u32_at(b, pos) {
        None => None,
        Some(raw) => {
            let at: u64 = pos as u64;
            let vtable: u64 = if raw < 0x8000_0000 {
                if raw as u64 > at {
                    return None;
                }
                at - raw as u64
            } else {
                at + (0x1_0000_0000 - raw as u64)
            };
            if vtable >= b.len() as u64 {
                return None;
            }
            let vtable: usize = vtable as usize;
            match u16_at(b, vtable) {
                None => None,
                Some(vtable_len) => {
                    if vtable_len % 2 == 0 && vtable_len as usize <= b.len() - vtable {
                        Some(Table { pos, vtable, vtable_len: vtable_len as usize })
                    } else {
                        None
                    }
                },
            }
        },
    }
}

/// Where the field of a slot lies in a table that was found in `b`.
pub fn field(b: &[u8], t: Table, slot: usize) -> (at: Option<Option<usize>>)
    requires
        b.len() <= MAX_ENVELOPE_SIZE,
        t.pos <= b.len(),
        t.vtable + t.vtable_len <= b.len(),
        slot < 0x1000,
    ensures
        spec_field(b@, t, slot as int) == match at {
            None => None::<Option<int>>,
            Some(None) => Some(None),
            Some(Some(pos)) => Some(Some(pos as int)),
        },
{
    let entry: usize = 4 + 2 * slot;
    if entry < t.vtable_len {
        match u16_at(b, t.vtable + entry) {
            None => None,
            Some(offset) => {
                if offset > 0 {
                    Some(Some(t.pos + offset as usize))
                } else {
                    Some(None)
                }
            },
        }
    } else {
        Some(None)
    }
}

pub fn u8_field(b: &[u8], t: Table, slot: usize, default: u8) -> (value: Option<u8>)
    requires
        b.len() <= MAX_ENVELOPE_SIZE,
        t.pos <= b.len(),
        t.vtable + t.vtable_len <= b.len(),
        slot < 0x1000,
    ensures
        value == spec_u8_field(b@, t, slot as int, default),
{
    match field(b, t, slot) {
        None => None,
        Some(None) => Some(default),
        Some(Some(pos)) => u8_at(b, pos),
    }
}

pub fn u16_field(b: &[u8], t: Table, slot: usize, default: u16) -> (value: Option<u16>)
    requires
        b.len() <= MAX_ENVELOPE_SIZE,
        t.pos <= b.len(),
        t.vtable + t.vtable_len <= b.len(),
        slot < 0x1000,
    ensures
        value == spec_u16_field(b@, t, slot as int, default),
{
    match field(b, t, slot) {
        None => None,
        Some(None) => Some(default),
        Some(Some(pos)) => u16_at(b, pos),
    }
}

pub fn u64_field(b: &[u8], t: Table, slot: usize, default: u64) -> (value: Option<u64>)
    requires
        b.len() <= MAX_ENVELOPE_SIZE,
        t.pos <= b.len(),
        t.vtable + t.vtable_len <= b.len(),
        slot < 0x1000,
    ensures
        value == spec_u64_field(b@, t, slot as int, default),
{
    match field(b, t, slot) {
        None => None,
        Some(None) => Some(default),
        Some(Some(pos)) => u64_at(b, pos),
    }
}

/// Where the offset at `pos` points. A target past the end of the buffer
/// comes back as it is: nothing can be read there.
pub fn target(b: &[u8], pos: usize) -> (at: Option<u64>)
    requires
        b.len() <= MAX_ENVELOPE_SIZE,
    ensures
        spec_target(b@, pos as int) == match at {
            None => None::<int>,
            Some(target) => Some(target as int),
        },
{
    match u32_at(b, pos) {
        None => None,
        Some(offset) => Some(pos as u64 + offset as u64),
    }
}

/// Where the string, vector or table of a slot starts. The start lies
/// inside the buffer, or the answer is `None`.
pub fn ref_field(b: &[u8], t: Table, slot: usize) -> (at: Option<Option<u64>>)
    requires
        b.len() <= MAX_ENVELOPE_SIZE,
        t.pos <= b.len(),
        t.vtable + t.vtable_len <= b.len(),
        slot < 0x1000,
    ensures
        spec_ref_field(b@, t, slot as int) == match at {
            None => None::<Option<int>>,
            Some(None) => Some(None),
            Some(Some(target)) => Some(Some(target as int)),
        },
{
    match field(b, t, slot) {
        None => None,
        Some(None) => Some(None),
        Some(Some(pos)) => match target(b, pos) {
            None => None,
            Some(target) => Some(Some(target)),
        },
    }
}

pub fn vector_at(b: &[u8], pos: u64, size: usize) -> (span: Option<ByteRange>)
    requires
        b.len() <= MAX_ENVELOPE_SIZE,
        1 <= size <= 8,
    ensures
        span == spec_vector_at(b@, pos as int, size as int),
        span matches Some(s) ==> s.start + s.len * size <= b.len(),
{
    if pos > b.len() as u64 {
        return None;
    }
    let pos: usize = pos as usize;
    match u32_at(b, pos) {
        None => None,
        Some(count) => {
            let start: usize = pos + 4;
            assert(count * size <= 0xffff_ffff * 8) by (nonlinear_arith)
                requires
                    count <= 0xffff_ffff,
                    size <= 8,
            ;
            let bytes: u64 = count as u64 * size as u64;
            if bytes <= (b.len() - start) as u64 {
                Some(ByteRange { start, len: count as usize })
            } else {
                None
            }
        },
    }
}

pub fn string_at(b: &[u8], pos: u64) -> (span: Option<ByteRange>)
    requires
        b.len() <= MAX_ENVELOPE_SIZE,
    ensures
        span == spec_string_at(b@, pos as int),
        span matches Some(s) ==> s.start + s.len < b.len(),
{
    match vector_at(b, pos, 1) {
        None => None,
        Some(span) => {
            let end: usize = span.start + span.len;
            if end < b.len() && b[end] == 0 {
                Some(span)
            } else {
                None
            }
        },
    }
}

} // verus!
