//! Texts and vectors of texts in an envelope.
//!
//! A text is a string whose bytes are UTF-8. A vector of texts is a vector
//! of offsets, each to one text.

use vstd::prelude::*;
use vstd::slice::slice_subrange;
use vstd::utf8::{
    decode_utf8, encode_utf8, encode_utf8_decode_utf8, encode_utf8_valid_utf8, valid_utf8,
};
use crate::envelope::read::{
    ref_field, spec_ref_field, spec_string_at, spec_target, spec_vector_at, string_at, target,
    vector_at, ByteRange, Table, MAX_ENVELOPE_SIZE,
};
use crate::envelope::shift::{
    extends, lemma_extends_trans, lemma_shift_range, lemma_shift_ref_field, lemma_shift_string,
    lemma_shift_target, lemma_shift_vector, moved_range, moved_table,
};
use crate::envelope::write::{offsets_size, string_size, Writer};

verus! {

/// The text of the string that starts at `pos`.
pub open spec fn spec_text_at(b: Seq<u8>, pos: int) -> Option<Seq<char>> {
    match spec_string_at(b, pos) {
        None => None,
        Some(range) => if valid_utf8(range.of(b)) {
            Some(decode_utf8(range.of(b)))
        } else {
            None
        },
    }
}

/// The text of a string field: `Some(None)` where the table leaves the
/// field out.
pub open spec fn spec_text_field(b: Seq<u8>, t: Table, slot: int) -> Option<Option<Seq<char>>> {
    match spec_ref_field(b, t, slot) {
        None => None,
        Some(None) => Some(None),
        Some(Some(target)) => match spec_text_at(b, target) {
            None => None,
            Some(text) => Some(Some(text)),
        },
    }
}

/// The text that element `i` of a vector of texts refers to.
pub open spec fn spec_text_element(b: Seq<u8>, elements: ByteRange, i: int) -> Option<Seq<char>> {
    match spec_target(b, elements.start + 4 * i) {
        None => None,
        Some(pos) => spec_text_at(b, pos),
    }
}

/// The texts that a vector refers to, in its order; `None` if one of them
/// is malformed.
pub open spec fn spec_texts(b: Seq<u8>, elements: ByteRange) -> Option<Seq<Seq<char>>> {
    if forall|i: int|
        0 <= i < elements.len ==> (#[trigger] spec_text_element(b, elements, i)) is Some {
        Some(Seq::new(elements.len as nat, |i: int| spec_text_element(b, elements, i).unwrap()))
    } else {
        None
    }
}

/// The vector of texts that starts at `pos`.
pub open spec fn spec_texts_at(b: Seq<u8>, pos: int) -> Option<Seq<Seq<char>>> {
    match spec_vector_at(b, pos, 4) {
        None => None,
        Some(elements) => spec_texts(b, elements),
    }
}

/// The texts of a field that holds a vector of texts.
pub open spec fn spec_texts_field(b: Seq<u8>, t: Table, slot: int) -> Option<
    Option<Seq<Seq<char>>>,
> {
    match spec_ref_field(b, t, slot) {
        None => None,
        Some(None) => Some(None),
        Some(Some(target)) => match spec_texts_at(b, target) {
            None => None,
            Some(texts) => Some(Some(texts)),
        },
    }
}

/// The texts of a sequence of strings, one for one.
pub open spec fn text_views(texts: Seq<String>) -> Seq<Seq<char>> {
    Seq::new(texts.len(), |i: int| texts[i]@)
}

/// The bytes that the blocks of the first `n` texts take.
pub open spec fn texts_size_upto(texts: Seq<Seq<char>>, n: int) -> int
    decreases n,
{
    if n <= 0 {
        0
    } else {
        texts_size_upto(texts, n - 1) + string_size(encode_utf8(texts[n - 1]).len() as int)
    }
}

/// The bytes that a vector of texts takes: the blocks of its texts, then
/// the block of its offsets.
pub open spec fn texts_size(texts: Seq<Seq<char>>) -> int {
    texts_size_upto(texts, texts.len() as int) + offsets_size(texts.len() as int)
}

pub proof fn lemma_texts_size_grows(texts: Seq<Seq<char>>, i: int, n: int)
    requires
        0 <= i <= n,
    ensures
        0 <= texts_size_upto(texts, i) <= texts_size_upto(texts, n),
    decreases n,
{
    if n > 0 {
        if i < n {
            lemma_texts_size_grows(texts, i, n - 1);
        } else {
            lemma_texts_size_grows(texts, i - 1, n - 1);
        }
    }
}

/// A text of `n` characters takes at most `4 n` bytes.
pub proof fn lemma_encoding_is_short(text: Seq<char>)
    ensures
        encode_utf8(text).len() <= 4 * text.len(),
    decreases text.len(),
{
    if text.len() > 0 {
        lemma_encoding_is_short(text.drop_first());
    }
}

/// Texts of at most `n` characters each take at most `4 n + 12` bytes
/// each.
pub proof fn lemma_short_texts_are_small(texts: Seq<Seq<char>>, count: int, n: int)
    requires
        0 <= count <= texts.len(),
        forall|i: int| 0 <= i < texts.len() ==> (#[trigger] texts[i]).len() <= n,
    ensures
        0 <= texts_size_upto(texts, count) <= count * (4 * n + 12),
    decreases count,
{
    let per = 4 * n + 12;
    if count > 0 {
        lemma_short_texts_are_small(texts, count - 1, n);
        let text = texts[count - 1];
        lemma_encoding_is_short(text);
        assert(text.len() <= n);
        let bytes = encode_utf8(text).len() as int;
        assert(string_size(bytes) <= bytes + 12);
        assert(texts_size_upto(texts, count) == texts_size_upto(texts, count - 1) + string_size(
            bytes,
        ));
        assert(count * per == (count - 1) * per + per) by (nonlinear_arith);
    } else {
        assert(count * per == 0) by (nonlinear_arith)
            requires
                count == 0,
        ;
    }
}

pub proof fn lemma_shift_text(new: Seq<u8>, old: Seq<u8>, pos: int)
    requires
        extends(new, old),
        new.len() <= usize::MAX,
        spec_text_at(old, pos) is Some,
    ensures
        spec_text_at(new, pos + (new.len() - old.len())) == spec_text_at(old, pos),
{
    lemma_shift_string(new, old, pos);
    lemma_shift_range(new, old, spec_string_at(old, pos).unwrap());
}

pub proof fn lemma_shift_text_field(new: Seq<u8>, old: Seq<u8>, t: Table, slot: int)
    requires
        extends(new, old),
        new.len() <= usize::MAX,
        spec_text_field(old, t, slot) is Some,
        0 <= slot,
        t.pos <= old.len(),
        t.vtable + t.vtable_len <= old.len(),
    ensures
        spec_text_field(new, moved_table(t, new.len() - old.len()), slot) == spec_text_field(
            old,
            t,
            slot,
        ),
{
    lemma_shift_ref_field(new, old, t, slot);
    match spec_ref_field(old, t, slot).unwrap() {
        None => {},
        Some(target) => {
            lemma_shift_text(new, old, target);
        },
    }
}

pub proof fn lemma_shift_texts(new: Seq<u8>, old: Seq<u8>, elements: ByteRange)
    requires
        extends(new, old),
        new.len() <= usize::MAX,
        spec_texts(old, elements) is Some,
    ensures
        spec_texts(new, moved_range(elements, new.len() - old.len())) == spec_texts(old, elements),
{
    let k = new.len() - old.len();
    let moved = moved_range(elements, k);
    assert forall|i: int| 0 <= i < elements.len implies #[trigger] spec_text_element(new, moved, i)
        == spec_text_element(old, elements, i) by {
        assert(spec_text_element(old, elements, i) is Some);
        lemma_shift_target(new, old, elements.start + 4 * i);
        lemma_shift_text(new, old, spec_target(old, elements.start + 4 * i).unwrap());
    }
    assert(spec_texts(new, moved).unwrap() =~= spec_texts(old, elements).unwrap());
}

pub proof fn lemma_shift_texts_at(new: Seq<u8>, old: Seq<u8>, pos: int)
    requires
        extends(new, old),
        new.len() <= usize::MAX,
        spec_texts_at(old, pos) is Some,
    ensures
        spec_texts_at(new, pos + (new.len() - old.len())) == spec_texts_at(old, pos),
{
    lemma_shift_vector(new, old, pos, 4);
    lemma_shift_texts(new, old, spec_vector_at(old, pos, 4).unwrap());
}

pub proof fn lemma_shift_texts_field(new: Seq<u8>, old: Seq<u8>, t: Table, slot: int)
    requires
        extends(new, old),
        new.len() <= usize::MAX,
        spec_texts_field(old, t, slot) is Some,
        0 <= slot,
        t.pos <= old.len(),
        t.vtable + t.vtable_len <= old.len(),
    ensures
        spec_texts_field(new, moved_table(t, new.len() - old.len()), slot) == spec_texts_field(
            old,
            t,
            slot,
        ),
{
    lemma_shift_ref_field(new, old, t, slot);
    match spec_ref_field(old, t, slot).unwrap() {
        None => {},
        Some(target) => {
            lemma_shift_texts_at(new, old, target);
        },
    }
}

/// Calls `std::str::from_utf8`, which answers with the text whose UTF-8
/// encoding the bytes are, and with an error exactly where the bytes are no
/// UTF-8 encoding.
#[verifier::external_body]
pub(crate) fn text_of(bytes: &[u8]) -> (text: Option<&str>)
    ensures
        text is Some <==> valid_utf8(bytes@),
        text matches Some(t) ==> encode_utf8(t@) == bytes@,
{
    std::str::from_utf8(bytes).ok()
}

pub fn text_at(b: &[u8], pos: u64) -> (text: Option<String>)
    requires
        b.len() <= MAX_ENVELOPE_SIZE,
    ensures
        spec_text_at(b@, pos as int) == match text {
            None => None::<Seq<char>>,
            Some(s) => Some(s@),
        },
{
    match string_at(b, pos) {
        None => None,
        Some(range) => {
            let bytes = slice_subrange(b, range.start, range.start + range.len);
            assert(bytes@ == range.of(b@));
            match text_of(bytes) {
                None => None,
                Some(text) => {
                    proof {
                        encode_utf8_decode_utf8(text@);
                    }
                    Some(text.to_owned())
                },
            }
        },
    }
}

pub fn text_field(b: &[u8], t: Table, slot: usize) -> (text: Option<Option<String>>)
    requires
        b.len() <= MAX_ENVELOPE_SIZE,
        t.pos <= b.len(),
        t.vtable + t.vtable_len <= b.len(),
        slot < 0x1000,
    ensures
        spec_text_field(b@, t, slot as int) == match text {
            None => None::<Option<Seq<char>>>,
            Some(None) => Some(None),
            Some(Some(s)) => Some(Some(s@)),
        },
{
    match ref_field(b, t, slot) {
        None => None,
        Some(None) => Some(None),
        Some(Some(at)) => match text_at(b, at) {
            None => None,
            Some(text) => Some(Some(text)),
        },
    }
}

fn text_element(b: &[u8], elements: ByteRange, i: usize) -> (text: Option<String>)
    requires
        b.len() <= MAX_ENVELOPE_SIZE,
        elements.start + 4 * elements.len <= b.len(),
        i < elements.len,
    ensures
        spec_text_element(b@, elements, i as int) == match text {
            None => None::<Seq<char>>,
            Some(s) => Some(s@),
        },
{
    match target(b, elements.start + 4 * i) {
        None => None,
        Some(pos) => text_at(b, pos),
    }
}

pub fn texts_at(b: &[u8], pos: u64) -> (texts: Option<Vec<String>>)
    requires
        b.len() <= MAX_ENVELOPE_SIZE,
    ensures
        spec_texts_at(b@, pos as int) == match texts {
            None => None::<Seq<Seq<char>>>,
            Some(v) => Some(text_views(v@)),
        },
{
    let elements = match vector_at(b, pos, 4) {
        None => { return None; },
        Some(elements) => elements,
    };
    let mut texts: Vec<String> = Vec::new();
    let mut i: usize = 0;
    while i < elements.len
        invariant
            b.len() <= MAX_ENVELOPE_SIZE,
            elements.start + 4 * elements.len <= b.len(),
            i <= elements.len,
            texts.len() == i,
            spec_vector_at(b@, pos as int, 4) == Some(elements),
            forall|k: int|
                0 <= k < i ==> (#[trigger] spec_text_element(b@, elements, k)) == Some(texts@[k]@),
        decreases elements.len - i,
    {
        match text_element(b, elements, i) {
            None => {
                assert(spec_text_element(b@, elements, i as int) is None);
                return None;
            },
            Some(text) => {
                texts.push(text);
            },
        }
        i += 1;
    }
    assert(text_views(texts@) =~= Seq::new(
        elements.len as nat,
        |i: int| spec_text_element(b@, elements, i).unwrap(),
    ));
    Some(texts)
}

pub fn texts_field(b: &[u8], t: Table, slot: usize) -> (texts: Option<Option<Vec<String>>>)
    requires
        b.len() <= MAX_ENVELOPE_SIZE,
        t.pos <= b.len(),
        t.vtable + t.vtable_len <= b.len(),
        slot < 0x1000,
    ensures
        spec_texts_field(b@, t, slot as int) == match texts {
            None => None::<Option<Seq<Seq<char>>>>,
            Some(None) => Some(None),
            Some(Some(v)) => Some(Some(text_views(v@))),
        },
{
    match ref_field(b, t, slot) {
        None => None,
        Some(None) => Some(None),
        Some(Some(at)) => match texts_at(b, at) {
            None => None,
            Some(texts) => Some(Some(texts)),
        },
    }
}

/// Writes a text. `at` is the distance from the end of the buffer at which
/// it then starts; the answer is `None` where the envelope would pass its
/// limit.
pub fn put_text(w: &mut Writer, text: &str) -> (at: Option<usize>)
    requires
        old(w).wf(),
    ensures
        match at {
            Some(d) => {
                &&& final(w).wf()
                &&& extends(final(w)@, old(w)@)
                &&& final(w)@.len() == old(w)@.len() + string_size(encode_utf8(text@).len() as int)
                &&& d == final(w)@.len()
                &&& spec_text_at(final(w)@, final(w)@.len() - d) == Some(text@)
            },
            None => old(w)@.len() + string_size(encode_utf8(text@).len() as int)
                > MAX_ENVELOPE_SIZE,
        },
{
    let at = w.put_string(text.as_bytes());
    proof {
        encode_utf8_valid_utf8(text@);
        encode_utf8_decode_utf8(text@);
    }
    at
}

/// Writes a vector of texts: first each text, then the vector of their
/// offsets. `at` is the distance from the end of the buffer at which the
/// vector then starts.
pub fn put_texts(w: &mut Writer, texts: &Vec<String>) -> (at: Option<usize>)
    requires
        old(w).wf(),
    ensures
        match at {
            Some(d) => {
                &&& final(w).wf()
                &&& extends(final(w)@, old(w)@)
                &&& final(w)@.len() == old(w)@.len() + texts_size(text_views(texts@))
                &&& d == final(w)@.len()
                &&& spec_texts_at(final(w)@, final(w)@.len() - d) == Some(text_views(texts@))
            },
            None => old(w)@.len() + texts_size(text_views(texts@)) > MAX_ENVELOPE_SIZE,
        },
{
    let ghost start = w@;
    let ghost views = text_views(texts@);
    let mut places: Vec<usize> = Vec::new();
    let mut i: usize = 0;
    while i < texts.len()
        invariant
            views == text_views(texts@),
            start == old(w)@,
            w.wf(),
            extends(w@, start),
            i <= texts.len(),
            places.len() == i,
            w@.len() == start.len() + texts_size_upto(views, i as int),
            forall|k: int| 0 <= k < i ==> #[trigger] places@[k] <= w@.len(),
            forall|k: int|
                0 <= k < i ==> spec_text_at(w@, w@.len() - #[trigger] places@[k]) == Some(views[k]),
        decreases texts.len() - i,
    {
        let ghost was = w@;
        match put_text(w, texts[i].as_str()) {
            None => {
                proof {
                    lemma_texts_size_grows(views, i as int + 1, texts.len() as int);
                    assert(views[i as int] == texts@[i as int]@);
                    assert(texts_size_upto(views, i as int + 1) == texts_size_upto(views, i as int)
                        + string_size(encode_utf8(views[i as int]).len() as int));
                }
                return None;
            },
            Some(d) => {
                proof {
                    lemma_extends_trans(w@, was, start);
                    assert(views[i as int] == texts@[i as int]@);
                    assert(texts_size_upto(views, i as int + 1) == texts_size_upto(views, i as int)
                        + string_size(encode_utf8(views[i as int]).len() as int));
                    assert forall|k: int| 0 <= k < i implies spec_text_at(
                        w@,
                        w@.len() - #[trigger] places@[k],
                    ) == Some(views[k]) by {
                        lemma_shift_text(w@, was, was.len() - places@[k]);
                    }
                }
                places.push(d);
            },
        }
        i += 1;
    }
    let ghost was = w@;
    match w.put_offsets(&places) {
        None => None,
        Some(d) => {
            proof {
                lemma_extends_trans(w@, was, start);
                let b = w@;
                let elements = ByteRange { start: 4, len: texts@.len() as usize };
                assert forall|k: int| 0 <= k < elements.len implies #[trigger] spec_text_element(
                    b,
                    elements,
                    k,
                ) == Some(views[k]) by {
                    assert(spec_target(b, 4 + 4 * k) == Some(b.len() - places@[k]));
                    lemma_shift_text(b, was, was.len() - places@[k]);
                }
                assert(spec_texts(b, elements).unwrap() =~= views);
            }
            Some(d)
        },
    }
}

} // verus!
