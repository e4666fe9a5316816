//! Writing the binary layout of an envelope.
//!
//! A [`Writer`] grows an envelope from its end towards its start, one
//! block at a time: a string, a vector of bytes, a vector of offsets or a
//! table. What a block refers to is written before it, and is named by its
//! distance from the end of the buffer. Every block is a whole number of
//! 8-byte words, so every scalar lies at a multiple of its size.
//!
//! The contract of each operation says what the readers find in the buffer
//! afterwards.

use vstd::prelude::*;
use crate::envelope::bytes::{
    le_bytes2, le_bytes4, le_bytes8, lemma_append_keeps_u16, lemma_append_keeps_u32,
    lemma_append_keeps_u64, lemma_read_appended_u16, lemma_read_appended_u32,
    lemma_read_appended_u64, push_all, push_u16, push_u32, push_u64, push_zeros, zeros,
};
use crate::envelope::read::{
    spec_field, spec_string_at, spec_table_at, spec_target, spec_u16_at, spec_u32_at, spec_u64_at,
    spec_u8_at, spec_vector_at, ByteRange, Table, MAX_ENVELOPE_SIZE,
};
use crate::envelope::shift::extends;

verus! {

/// The least multiple of 8 that is not less than `n`.
pub open spec fn round8(n: int) -> int {
    (n + 7) / 8 * 8
}

/// The size of the block of a string of `n` bytes: its length, its bytes
/// and a zero byte.
pub open spec fn string_size(n: int) -> int {
    round8(n + 5)
}

/// The size of the block of a vector of `n` bytes.
pub open spec fn bytes_size(n: int) -> int {
    round8(n + 4)
}

/// The size of the block of a vector of `n` offsets.
pub open spec fn offsets_size(n: int) -> int {
    round8(4 + 4 * n)
}

/// The size of the block of a table of `n` slots: its vtable, then the
/// table with one 8-byte cell for each slot.
pub open spec fn table_size(n: int) -> int {
    round8(4 + 2 * n) + 8 + 8 * n
}

/// No table has more slots than this.
pub const MAX_SLOTS: usize = 16;

/// What a table holds in one slot.
#[derive(Clone, Copy, Debug, PartialEq, Eq, Structural)]
pub enum Cell {
    /// The table leaves the slot out.
    Absent,
    Byte(u8),
    Short(u16),
    Long(u64),
    /// A string, vector or table at this distance from the end of the
    /// buffer.
    Ref(usize),
}

/// Whether slot `k` of table `t` in `b` holds what `cell` says.
pub open spec fn cell_holds(b: Seq<u8>, t: Table, k: int, cell: Cell) -> bool {
    let at = t.pos + 8 + 8 * k;
    match cell {
        Cell::Absent => spec_field(b, t, k) == Some(None::<int>),
        Cell::Byte(x) => spec_field(b, t, k) == Some(Some(at)) && spec_u8_at(b, at) == Some(x),
        Cell::Short(x) => spec_field(b, t, k) == Some(Some(at)) && spec_u16_at(b, at) == Some(x),
        Cell::Long(x) => spec_field(b, t, k) == Some(Some(at)) && spec_u64_at(b, at) == Some(x),
        Cell::Ref(d) => spec_field(b, t, k) == Some(Some(at)) && spec_target(b, at) == Some(
            b.len() - d,
        ),
    }
}

/// An envelope under construction.
pub struct Writer {
    /// The bytes written so far, last byte first.
    rev: Vec<u8>,
}

impl View for Writer {
    type V = Seq<u8>;

    /// The bytes written so far: the end of the envelope.
    closed spec fn view(&self) -> Seq<u8> {
        self.written()
    }
}

/// The number that the eight bytes of a cell hold, where the cell lies
/// `after` bytes before the end of the buffer: a scalar is held as it is,
/// a reference as the distance from the cell to what it refers to.
pub open spec fn cell_value(cell: Cell, after: int) -> int {
    match cell {
        Cell::Absent => 0,
        Cell::Byte(x) => x as int,
        Cell::Short(x) => x as int,
        Cell::Long(x) => x as int,
        Cell::Ref(d) => after - d,
    }
}

/// Whoever reads a small number as eight bytes reads it in fewer too.
proof fn lemma_narrow(b: Seq<u8>, pos: int)
    requires
        spec_u64_at(b, pos) is Some,
    ensures
        spec_u64_at(b, pos).unwrap() <= u32::MAX ==> spec_u32_at(b, pos) == Some(
            spec_u64_at(b, pos).unwrap() as u32,
        ),
        spec_u64_at(b, pos).unwrap() <= u16::MAX ==> spec_u16_at(b, pos) == Some(
            spec_u64_at(b, pos).unwrap() as u16,
        ),
        spec_u64_at(b, pos).unwrap() <= u8::MAX ==> spec_u8_at(b, pos) == Some(
            spec_u64_at(b, pos).unwrap() as u8,
        ),
{
}

/// What the readers find in a buffer that starts with the block of a
/// vector of bytes, with or without the zero byte of a string.
proof fn lemma_bytes_block(block: Seq<u8>, s: Seq<u8>, tail: Seq<u8>, before: Seq<u8>)
    requires
        s.len() <= u32::MAX,
        block == Seq::<u8>::empty() + le_bytes4(s.len() as u32) + s + tail,
        block.len() % 8 == 0,
        block.len() + before.len() <= usize::MAX,
    ensures
        ({
            let b = block + before;
            let r = ByteRange { start: 4, len: s.len() as usize };
            &&& extends(b, before)
            &&& spec_vector_at(b, 0, 1) == Some(r)
            &&& r.of(b) == s
            &&& tail.len() > 0 && tail[0] == 0 ==> spec_string_at(b, 0) == Some(r)
        }),
{
    let n = s.len() as int;
    let b = block + before;
    let r = ByteRange { start: 4, len: n as usize };
    let rest = s + tail + before;
    assert(b =~= Seq::<u8>::empty() + le_bytes4(n as u32) + rest);
    lemma_read_appended_u32(Seq::<u8>::empty(), n as u32, rest);
    assert(r.of(b) =~= s);
    let k = 4 + n + tail.len();
    assert forall|j: int| 0 <= j < before.len() implies b[b.len() - before.len() + j]
        == before[j] by {
        assert(b[k + j] == before[j]);
    }
    if tail.len() > 0 && tail[0] == 0 {
        assert(b[4 + n] == tail[0]);
    }
}

/// What the readers find in a buffer that starts with the block of a
/// vector of offsets, given what the words of the block are.
proof fn lemma_offsets_block(
    block: Seq<u8>,
    filled: Seq<u8>,
    pad: nat,
    before: Seq<u8>,
    targets: Seq<usize>,
)
    requires
        targets.len() <= MAX_ENVELOPE_SIZE / 4,
        block == filled + zeros(pad),
        filled.len() == 4 + 4 * targets.len(),
        block.len() % 8 == 0,
        block.len() + before.len() <= MAX_ENVELOPE_SIZE,
        forall|j: int| 0 <= j < targets.len() ==> targets[j] <= before.len(),
        spec_u32_at(filled, 0) == Some(targets.len() as u32),
        forall|j: int|
            0 <= j < targets.len() ==> #[trigger] spec_u32_at(filled, 4 + 4 * j) == Some(
                (block.len() - (4 + 4 * j) + before.len() - targets[j]) as u32,
            ),
    ensures
        ({
            let b = block + before;
            &&& extends(b, before)
            &&& spec_vector_at(b, 0, 4) == Some(
                ByteRange { start: 4, len: targets.len() as usize },
            )
            &&& forall|i: int|
                0 <= i < targets.len() ==> #[trigger] spec_target(b, 4 + 4 * i) == Some(
                    b.len() - targets[i],
                )
        }),
{
    let b = block + before;
    let n = targets.len() as int;
    let more = zeros(pad) + before;
    assert(b =~= filled + more);
    lemma_append_keeps_u32(filled, more, 0);
    assert forall|j: int| 0 <= j < n implies #[trigger] spec_target(b, 4 + 4 * j) == Some(
        b.len() - targets[j],
    ) by {
        lemma_append_keeps_u32(filled, more, 4 + 4 * j);
    }
    assert forall|j: int| 0 <= j < before.len() implies b[b.len() - before.len() + j]
        == before[j] by {
        assert(b[block.len() + j] == before[j]);
    }
}

/// The entry of a slot in the vtable: where the cell lies in the table, or
/// 0 where the table leaves the slot out.
pub open spec fn cell_entry(cell: Cell, k: int) -> int {
    match cell {
        Cell::Absent => 0,
        _ => 8 + 8 * k,
    }
}

/// What the readers find in a buffer `b` that starts with the block of a
/// table, given what the scalars of the block are.
proof fn lemma_table_block(block: Seq<u8>, before: Seq<u8>, cells: Seq<Cell>, vt_size: int)
    requires
        cells.len() <= MAX_SLOTS,
        vt_size == round8(4 + 2 * (cells.len() as int)),
        block.len() == vt_size + 8 + 8 * cells.len(),
        block.len() + before.len() <= MAX_ENVELOPE_SIZE,
        spec_u16_at(block, 0) == Some((4 + 2 * cells.len()) as u16),
        spec_u32_at(block, vt_size) == Some(vt_size as u32),
        forall|k: int|
            0 <= k < cells.len() ==> #[trigger] spec_u16_at(block, 4 + 2 * k) == Some(
                cell_entry(cells[k], k) as u16,
            ),
        forall|k: int|
            0 <= k < cells.len() ==> #[trigger] spec_u64_at(block, vt_size + 8 + 8 * k) == Some(
                cell_value(cells[k], block.len() + before.len() - (vt_size + 8 + 8 * k)) as u64,
            ),
        forall|k: int|
            0 <= k < cells.len() ==> (#[trigger] cells[k] matches Cell::Ref(d) ==> d
                <= before.len()),
    ensures
        ({
            let b = block + before;
            let t = Table {
                pos: vt_size as usize,
                vtable: 0,
                vtable_len: (4 + 2 * cells.len()) as usize,
            };
            &&& extends(b, before)
            &&& spec_table_at(b, vt_size) == Some(t)
            &&& forall|k: int| 0 <= k < cells.len() ==> #[trigger] cell_holds(b, t, k, cells[k])
            &&& forall|k: int|
                cells.len() <= k ==> #[trigger] spec_field(b, t, k) == Some(None::<int>)
        }),
{
    let b = block + before;
    let n = cells.len() as int;
    let t = Table { pos: vt_size as usize, vtable: 0, vtable_len: (4 + 2 * n) as usize };
    lemma_append_keeps_u16(block, before, 0);
    lemma_append_keeps_u32(block, before, vt_size);
    assert forall|k: int| 0 <= k < n implies #[trigger] cell_holds(b, t, k, cells[k]) by {
        let at = vt_size + 8 + 8 * k;
        assert(spec_u16_at(block, 4 + 2 * k) == Some(cell_entry(cells[k], k) as u16));
        lemma_append_keeps_u16(block, before, 4 + 2 * k);
        assert(spec_u64_at(block, vt_size + 8 + 8 * k) is Some);
        lemma_append_keeps_u64(block, before, at);
        lemma_narrow(b, at);
    }
    assert forall|j: int| 0 <= j < before.len() implies b[b.len() - before.len() + j]
        == before[j] by {
        assert(b[block.len() + j] == before[j]);
    }
}

impl Writer {
    #[verifier::opaque]
    closed spec fn written(&self) -> Seq<u8> {
        self.rev@.reverse()
    }

    /// Every block written so far is a whole number of words, and the
    /// envelope is within its limit.
    pub open spec fn wf(&self) -> bool {
        self@.len() % 8 == 0 && self@.len() <= MAX_ENVELOPE_SIZE
    }

    pub fn new() -> (w: Writer)
        ensures
            w@ == Seq::<u8>::empty(),
            w.wf(),
    {
        let w = Writer { rev: Vec::new() };
        reveal(Writer::written);
        assert(w.rev@.reverse() =~= Seq::<u8>::empty());
        w
    }

    /// The number of bytes written so far, which is the distance from the
    /// end of the buffer to the block written last.
    pub fn len(&self) -> (n: usize)
        ensures
            n == self@.len(),
    {
        reveal(Writer::written);
        self.rev.len()
    }

    /// Puts a block before what is written.
    fn prepend(&mut self, block: &Vec<u8>)
        ensures
            final(self)@ == block@ + old(self)@,
    {
        reveal(Writer::written);
        let ghost before = self.rev@;
        let mut i: usize = block.len();
        while i > 0
            invariant
                i <= block.len(),
                self.rev@ == before + block@.subrange(i as int, block.len() as int).reverse(),
            decreases i,
        {
            i -= 1;
            self.rev.push(block[i]);
            assert(self.rev@ =~= before + block@.subrange(
                i as int,
                block.len() as int,
            ).reverse());
        }
        assert(block@.subrange(0, block.len() as int) =~= block@);
        assert((before + block@.reverse()).reverse() =~= block@ + before.reverse());
    }

    /// Ends the envelope: puts before what is written the word that points
    /// to the root table, and hands the bytes out in their order. The
    /// answer is `None` where the envelope would pass its limit.
    pub fn finish(self, root: usize) -> (bytes: Option<Vec<u8>>)
        requires
            self.wf(),
            root <= self@.len(),
        ensures
            match bytes {
                Some(b) => {
                    &&& extends(b@, self@)
                    &&& b@.len() == self@.len() + 8
                    &&& b@.len() <= MAX_ENVELOPE_SIZE
                    &&& spec_target(b@, 0) == Some(b@.len() - root)
                },
                None => self@.len() + 8 > MAX_ENVELOPE_SIZE,
            },
    {
        if self.len() > MAX_ENVELOPE_SIZE - 8 {
            return None;
        }
        let mut w = self;
        let ghost body = w@;
        let mut head: Vec<u8> = Vec::new();
        let offset: u32 = (8 + (w.len() - root)) as u32;
        push_u32(&mut head, offset);
        push_zeros(&mut head, 4);
        w.prepend(&head);
        let out = w.into_bytes();
        proof {
            lemma_read_appended_u32(Seq::<u8>::empty(), offset, zeros(4) + body);
            assert(out@ =~= Seq::<u8>::empty() + le_bytes4(offset) + (zeros(4) + body));
            assert forall|j: int| 0 <= j < body.len() implies out@[out@.len() - body.len() + j]
                == body[j] by {
                assert(out@[8 + j] == body[j]);
            }
        }
        Some(out)
    }

    /// The bytes written, in their order.
    fn into_bytes(self) -> (out: Vec<u8>)
        ensures
            out@ == self@,
    {
        reveal(Writer::written);
        let mut out: Vec<u8> = Vec::new();
        let mut i: usize = self.rev.len();
        while i > 0
            invariant
                i <= self.rev.len(),
                out@ == self.rev@.subrange(i as int, self.rev.len() as int).reverse(),
            decreases i,
        {
            i -= 1;
            out.push(self.rev[i]);
            assert(out@ =~= self.rev@.subrange(i as int, self.rev.len() as int).reverse());
        }
        assert(self.rev@.subrange(0, self.rev.len() as int) =~= self.rev@);
        out
    }

    /// Writes a string. `at` is the distance from the end of the buffer at
    /// which the string then starts. The answer is `None`, and nothing is
    /// written, where the envelope would pass its limit.
    pub fn put_string(&mut self, s: &[u8]) -> (at: Option<usize>)
        requires
            old(self).wf(),
        ensures
            match at {
                Some(d) => {
                    &&& final(self).wf()
                    &&& extends(final(self)@, old(self)@)
                    &&& final(self)@.len() == old(self)@.len() + string_size(s@.len() as int)
                    &&& d == final(self)@.len()
                    &&& spec_string_at(final(self)@, 0) == Some(
                        ByteRange { start: 4, len: s@.len() as usize },
                    )
                    &&& (ByteRange { start: 4, len: s@.len() as usize }).of(final(self)@) == s@
                },
                None => {
                    &&& final(self)@ == old(self)@
                    &&& old(self)@.len() + string_size(s@.len() as int) > MAX_ENVELOPE_SIZE
                },
            },
    {
        let used: usize = self.len();
        if s.len() > MAX_ENVELOPE_SIZE {
            return None;
        }
        let size: usize = (s.len() + 5 + 7) / 8 * 8;
        if size > MAX_ENVELOPE_SIZE - used {
            return None;
        }
        let ghost before = self@;
        let pad: usize = size - (s.len() + 5);
        let mut tail: Vec<u8> = Vec::new();
        tail.push(0);
        push_zeros(&mut tail, pad);
        let mut block: Vec<u8> = Vec::new();
        push_u32(&mut block, s.len() as u32);
        push_all(&mut block, s);
        push_all(&mut block, tail.as_slice());
        self.prepend(&block);
        proof {
            lemma_bytes_block(block@, s@, tail@, before);
        }
        Some(self.len())
    }

    /// Writes a vector of bytes. `at` is the distance from the end of the
    /// buffer at which the vector then starts.
    pub fn put_bytes(&mut self, s: &[u8]) -> (at: Option<usize>)
        requires
            old(self).wf(),
        ensures
            match at {
                Some(d) => {
                    &&& final(self).wf()
                    &&& extends(final(self)@, old(self)@)
                    &&& final(self)@.len() == old(self)@.len() + bytes_size(s@.len() as int)
                    &&& d == final(self)@.len()
                    &&& spec_vector_at(final(self)@, 0, 1) == Some(
                        ByteRange { start: 4, len: s@.len() as usize },
                    )
                    &&& (ByteRange { start: 4, len: s@.len() as usize }).of(final(self)@) == s@
                },
                None => {
                    &&& final(self)@ == old(self)@
                    &&& old(self)@.len() + bytes_size(s@.len() as int) > MAX_ENVELOPE_SIZE
                },
            },
    {
        let used: usize = self.len();
        if s.len() > MAX_ENVELOPE_SIZE {
            return None;
        }
        let size: usize = (s.len() + 4 + 7) / 8 * 8;
        if size > MAX_ENVELOPE_SIZE - used {
            return None;
        }
        let ghost before = self@;
        let pad: usize = size - (s.len() + 4);
        let mut tail: Vec<u8> = Vec::new();
        push_zeros(&mut tail, pad);
        let mut block: Vec<u8> = Vec::new();
        push_u32(&mut block, s.len() as u32);
        push_all(&mut block, s);
        push_all(&mut block, tail.as_slice());
        self.prepend(&block);
        proof {
            lemma_bytes_block(block@, s@, tail@, before);
        }
        Some(self.len())
    }

    /// Writes a vector of offsets to blocks that are already written, each
    /// named by its distance from the end of the buffer. `at` is the
    /// distance from the end of the buffer at which the vector then starts.
    #[verifier::rlimit(60)]
    pub fn put_offsets(&mut self, targets: &Vec<usize>) -> (at: Option<usize>)
        requires
            old(self).wf(),
            forall|i: int| 0 <= i < targets@.len() ==> targets@[i] <= old(self)@.len(),
        ensures
            match at {
                Some(d) => {
                    &&& final(self).wf()
                    &&& extends(final(self)@, old(self)@)
                    &&& final(self)@.len() == old(self)@.len() + offsets_size(
                        targets@.len() as int,
                    )
                    &&& d == final(self)@.len()
                    &&& spec_vector_at(final(self)@, 0, 4) == Some(
                        ByteRange { start: 4, len: targets@.len() as usize },
                    )
                    &&& forall|i: int|
                        0 <= i < targets@.len() ==> #[trigger] spec_target(final(self)@, 4 + 4 * i)
                            == Some(final(self)@.len() - targets@[i])
                },
                None => {
                    &&& final(self)@ == old(self)@
                    &&& old(self)@.len() + offsets_size(targets@.len() as int)
                        > MAX_ENVELOPE_SIZE
                },
            },
    {
        let used: usize = self.len();
        let n: usize = targets.len();
        if n > MAX_ENVELOPE_SIZE / 4 {
            return None;
        }
        let size: usize = (4 + 4 * n + 7) / 8 * 8;
        if size > MAX_ENVELOPE_SIZE - used {
            return None;
        }
        let ghost before = self@;
        let mut block: Vec<u8> = Vec::new();
        push_u32(&mut block, n as u32);
        proof {
            lemma_read_appended_u32(Seq::<u8>::empty(), n as u32, Seq::<u8>::empty());
            assert(block@ =~= Seq::<u8>::empty() + le_bytes4(n as u32) + Seq::<u8>::empty());
        }
        let mut i: usize = 0;
        while i < n
            invariant
                n == targets@.len(),
                n <= MAX_ENVELOPE_SIZE / 4,
                size == round8(4 + 4 * n),
                used + size <= MAX_ENVELOPE_SIZE,
                forall|j: int| 0 <= j < n ==> targets@[j] <= used,
                i <= n,
                block@.len() == 4 + 4 * i,
                spec_u32_at(block@, 0) == Some(n as u32),
                forall|j: int|
                    0 <= j < i ==> #[trigger] spec_u32_at(block@, 4 + 4 * j) == Some(
                        (size - (4 + 4 * j) + used - targets@[j]) as u32,
                    ),
            decreases n - i,
        {
            let ghost was = block@;
            let offset: u32 = (size - (4 + 4 * i) + (used - targets[i])) as u32;
            push_u32(&mut block, offset);
            proof {
                lemma_read_appended_u32(was, offset, Seq::<u8>::empty());
                assert(block@ =~= was + le_bytes4(offset) + Seq::<u8>::empty());
                lemma_append_keeps_u32(was, le_bytes4(offset), 0);
                assert forall|j: int| 0 <= j < i implies #[trigger] spec_u32_at(block@, 4 + 4 * j)
                    == Some((size - (4 + 4 * j) + used - targets@[j]) as u32) by {
                    lemma_append_keeps_u32(was, le_bytes4(offset), 4 + 4 * j);
                }
            }
            i += 1;
        }
        let ghost filled = block@;
        let pad: usize = size - (4 + 4 * n);
        push_zeros(&mut block, pad);
        self.prepend(&block);
        proof {
            lemma_offsets_block(block@, filled, pad as nat, before, targets@);
        }
        Some(self.len())
    }

    /// Writes a table of `cells@.len()` slots. What a cell refers to is
    /// already written, and named by its distance from the end of the
    /// buffer. `at` is the distance from the end of the buffer at which the
    /// table then starts; its vtable lies before it.
    #[verifier::rlimit(60)]
    pub fn put_table(&mut self, cells: &Vec<Cell>) -> (at: Option<usize>)
        requires
            old(self).wf(),
            cells@.len() <= MAX_SLOTS,
            forall|k: int|
                0 <= k < cells@.len() ==> (#[trigger] cells@[k] matches Cell::Ref(d) ==> d <= old(
                    self,
                )@.len()),
        ensures
            match at {
                Some(d) => {
                    let b = final(self)@;
                    let t = Table {
                        pos: (b.len() - d) as usize,
                        vtable: 0,
                        vtable_len: (4 + 2 * cells@.len()) as usize,
                    };
                    &&& final(self).wf()
                    &&& extends(b, old(self)@)
                    &&& b.len() == old(self)@.len() + table_size(cells@.len() as int)
                    &&& d == old(self)@.len() + 8 + 8 * cells@.len()
                    &&& spec_table_at(b, b.len() - d) == Some(t)
                    &&& forall|k: int|
                        0 <= k < cells@.len() ==> #[trigger] cell_holds(b, t, k, cells@[k])
                    &&& forall|k: int|
                        cells@.len() <= k ==> #[trigger] spec_field(b, t, k) == Some(None::<int>)
                },
                None => {
                    &&& final(self)@ == old(self)@
                    &&& old(self)@.len() + table_size(cells@.len() as int) > MAX_ENVELOPE_SIZE
                },
            },
    {
        let used: usize = self.len();
        let n: usize = cells.len();
        let vt_len: usize = 4 + 2 * n;
        let vt_size: usize = (vt_len + 7) / 8 * 8;
        let body: usize = 8 + 8 * n;
        let size: usize = vt_size + body;
        if size > MAX_ENVELOPE_SIZE - used {
            return None;
        }
        let ghost before = self@;
        let mut block: Vec<u8> = Vec::new();
        push_u16(&mut block, vt_len as u16);
        proof {
            lemma_read_appended_u16(Seq::<u8>::empty(), vt_len as u16, Seq::<u8>::empty());
            assert(block@ =~= Seq::<u8>::empty() + le_bytes2(vt_len as u16) + Seq::<u8>::empty());
        }
        let ghost was = block@;
        push_u16(&mut block, body as u16);
        proof {
            lemma_append_keeps_u16(was, le_bytes2(body as u16), 0);
        }
        let mut k: usize = 0;
        while k < n
            invariant
                n == cells@.len(),
                n <= MAX_SLOTS,
                vt_len == 4 + 2 * n,
                k <= n,
                block@.len() == 4 + 2 * k,
                spec_u16_at(block@, 0) == Some(vt_len as u16),
                forall|j: int|
                    0 <= j < k ==> #[trigger] spec_u16_at(block@, 4 + 2 * j) == Some(
                        cell_entry(cells@[j], j) as u16,
                    ),
            decreases n - k,
        {
            let ghost was = block@;
            let entry: u16 = match cells[k] {
                Cell::Absent => 0,
                _ => (8 + 8 * k) as u16,
            };
            push_u16(&mut block, entry);
            proof {
                lemma_read_appended_u16(was, entry, Seq::<u8>::empty());
                assert(block@ =~= was + le_bytes2(entry) + Seq::<u8>::empty());
                lemma_append_keeps_u16(was, le_bytes2(entry), 0);
                assert forall|j: int| 0 <= j < k implies #[trigger] spec_u16_at(block@, 4 + 2 * j)
                    == Some(cell_entry(cells@[j], j) as u16) by {
                    lemma_append_keeps_u16(was, le_bytes2(entry), 4 + 2 * j);
                }
            }
            k += 1;
        }
        let ghost listed = block@;
        push_zeros(&mut block, vt_size - vt_len);
        let ghost padded = block@;
        push_u32(&mut block, vt_size as u32);
        let ghost linked = block@;
        push_zeros(&mut block, 4);
        proof {
            lemma_read_appended_u32(padded, vt_size as u32, zeros(4));
            assert(block@ =~= padded + le_bytes4(vt_size as u32) + zeros(4));
            let more = zeros((vt_size - vt_len) as nat) + le_bytes4(vt_size as u32) + zeros(4);
            assert(block@ =~= listed + more);
            lemma_append_keeps_u16(listed, more, 0);
            assert forall|j: int| 0 <= j < n implies #[trigger] spec_u16_at(block@, 4 + 2 * j)
                == Some(cell_entry(cells@[j], j) as u16) by {
                lemma_append_keeps_u16(listed, more, 4 + 2 * j);
            }
        }
        let mut k: usize = 0;
        while k < n
            invariant
                n == cells@.len(),
                n <= MAX_SLOTS,
                vt_len == 4 + 2 * n,
                vt_size == round8(vt_len as int),
                body == 8 + 8 * n,
                size == vt_size + body,
                used + size <= MAX_ENVELOPE_SIZE,
                forall|j: int|
                    0 <= j < n ==> (#[trigger] cells@[j] matches Cell::Ref(d) ==> d <= used),
                k <= n,
                block@.len() == vt_size + 8 + 8 * k,
                spec_u16_at(block@, 0) == Some(vt_len as u16),
                spec_u32_at(block@, vt_size as int) == Some(vt_size as u32),
                forall|j: int|
                    0 <= j < n ==> #[trigger] spec_u16_at(block@, 4 + 2 * j) == Some(
                        cell_entry(cells@[j], j) as u16,
                    ),
                forall|j: int|
                    0 <= j < k ==> #[trigger] spec_u64_at(block@, vt_size + 8 + 8 * j) == Some(
                        cell_value(cells@[j], used + size - (vt_size + 8 + 8 * j)) as u64,
                    ),
            decreases n - k,
        {
            let ghost was = block@;
            let value: u64 = match cells[k] {
                Cell::Absent => 0,
                Cell::Byte(x) => x as u64,
                Cell::Short(x) => x as u64,
                Cell::Long(x) => x,
                Cell::Ref(d) => (size - (vt_size + 8 + 8 * k) + (used - d)) as u64,
            };
            push_u64(&mut block, value);
            proof {
                lemma_read_appended_u64(was, value, Seq::<u8>::empty());
                assert(block@ =~= was + le_bytes8(value) + Seq::<u8>::empty());
                lemma_append_keeps_u16(was, le_bytes8(value), 0);
                lemma_append_keeps_u32(was, le_bytes8(value), vt_size as int);
                assert forall|j: int| 0 <= j < n implies #[trigger] spec_u16_at(block@, 4 + 2 * j)
                    == Some(cell_entry(cells@[j], j) as u16) by {
                    lemma_append_keeps_u16(was, le_bytes8(value), 4 + 2 * j);
                }
                assert forall|j: int| 0 <= j < k implies #[trigger] spec_u64_at(
                    block@,
                    vt_size + 8 + 8 * j,
                ) == Some(cell_value(cells@[j], used + size - (vt_size + 8 + 8 * j)) as u64) by {
                    lemma_append_keeps_u64(was, le_bytes8(value), vt_size + 8 + 8 * j);
                }
            }
            k += 1;
        }
        self.prepend(&block);
        proof {
            lemma_table_block(block@, before, cells@, vt_size as int);
        }
        Some(used + body)
    }
}

} // verus!
