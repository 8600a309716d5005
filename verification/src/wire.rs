//! The framed binary wire format, at the byte level: little-endian words,
//! the single-segment frame header, and the two pointer shapes (struct and
//! list) that the messages are assembled from.
//!
//! A frame is a four-byte segment count (always one segment here), a
//! four-byte segment size in eight-byte words, and the segment itself.
//! Word zero of the segment holds the root struct pointer.  A struct
//! pointer carries a signed word offset to its body and the body's data and
//! pointer section sizes; a list pointer carries an offset, an element size
//! code, and an element count.  Text is a byte list whose count includes a
//! terminating zero byte; binary data is a byte list without one.

use vstd::prelude::*;

verus! {

/// Why a frame was rejected.
#[derive(Clone, Copy, PartialEq, Eq, Structural, Debug)]
pub enum DecodeError {
    /// The frame or an object inside it is truncated or ill-shaped.
    MalformedFrame,
    /// An envelope names a type no decoder here handles.
    UnknownTypeName,
    /// A reason or medium ordinal outside the defined sets.
    OutOfRangeEnum,
}

/// The little-endian integer held by `n` bytes starting at `i`.
pub open spec fn le_int(b: Seq<u8>, i: int, n: nat) -> int
    decreases n,
{
    if n == 0 {
        0
    } else {
        b[i] + 0x100 * le_int(b, i + 1, (n - 1) as nat)
    }
}

/// The 64-bit word at word index `w`.
pub open spec fn word_at(b: Seq<u8>, w: int) -> int {
    le_int(b, 8 * w, 8)
}

/// How many whole words the segment holds.
pub open spec fn num_words(b: Seq<u8>) -> int {
    b.len() as int / 8
}

/// The four little-endian bytes of `x`.
pub open spec fn le_bytes4(x: int) -> Seq<u8> {
    seq![
        (x % 0x100) as u8,
        ((x / 0x100) % 0x100) as u8,
        ((x / 0x10000) % 0x100) as u8,
        ((x / 0x1000000) % 0x100) as u8,
    ]
}

/// The eight little-endian bytes of `x`.
pub open spec fn le_bytes8(x: int) -> Seq<u8> {
    seq![
        (x % 0x100) as u8,
        ((x / 0x100) % 0x100) as u8,
        ((x / 0x10000) % 0x100) as u8,
        ((x / 0x1000000) % 0x100) as u8,
        ((x / 0x100000000) % 0x100) as u8,
        ((x / 0x10000000000) % 0x100) as u8,
        ((x / 0x1000000000000) % 0x100) as u8,
        ((x / 0x100000000000000) % 0x100) as u8,
    ]
}

/// `n` zero bytes.
pub open spec fn zeros(n: int) -> Seq<u8> {
    Seq::new(n as nat, |i: int| 0u8)
}

/// `n` rounded up to a whole number of words.
pub open spec fn padded_len(n: int) -> int {
    ((n + 7) / 8) * 8
}

// --- pointer words, decoded ---

/// The low two tag bits: zero for a struct pointer, one for a list pointer.
pub open spec fn ptr_kind(w: int) -> int {
    w % 4
}

/// The signed 30-bit word offset from the word after the pointer to the
/// pointed-to body.
pub open spec fn ptr_off(w: int) -> int {
    let raw = (w / 4) % 0x40000000;
    if raw < 0x20000000 {
        raw
    } else {
        raw - 0x40000000
    }
}

/// A struct pointer's data section size in words.
pub open spec fn struct_data_words(w: int) -> int {
    (w / 0x100000000) % 0x10000
}

/// A struct pointer's pointer section size in words.
pub open spec fn struct_ptr_words(w: int) -> int {
    (w / 0x1000000000000) % 0x10000
}

/// A list pointer's element size code.
pub open spec fn list_elem_kind(w: int) -> int {
    (w / 0x100000000) % 8
}

/// A list pointer's element count (or word count for composite lists).
pub open spec fn list_count(w: int) -> int {
    (w / 0x800000000) % 0x20000000
}

// --- pointer words, encoded ---

/// A struct pointer with a non-negative offset.
pub open spec fn mk_struct_ptr(off: int, data: int, ptrs: int) -> int {
    4 * off + 0x100000000 * data + 0x1000000000000 * ptrs
}

/// A list pointer with a non-negative offset.
pub open spec fn mk_list_ptr(off: int, elem_kind: int, count: int) -> int {
    1 + 4 * off + 0x100000000 * elem_kind + 0x800000000 * count
}

pub proof fn lemma_struct_ptr_fields(off: int, data: int, ptrs: int)
    requires
        0 <= off < 0x20000000,
        0 <= data < 0x10000,
        0 <= ptrs < 0x10000,
    ensures
        0 <= mk_struct_ptr(off, data, ptrs) < 0x10000000000000000,
        ptr_kind(mk_struct_ptr(off, data, ptrs)) == 0,
        ptr_off(mk_struct_ptr(off, data, ptrs)) == off,
        struct_data_words(mk_struct_ptr(off, data, ptrs)) == data,
        struct_ptr_words(mk_struct_ptr(off, data, ptrs)) == ptrs,
        mk_struct_ptr(off, data, ptrs) == 0 <==> off == 0 && data == 0 && ptrs == 0,
{
    let w = mk_struct_ptr(off, data, ptrs);
    assert(w == 4 * off + 0x100000000 * data + 0x1000000000000 * ptrs);
    assert(w == 0 + 4 * (off + 0x40000000 * data + 0x400000000000 * ptrs));
    lemma_place(0, off + 0x40000000 * data + 0x400000000000 * ptrs, 4);
    assert(w % 4 == 0 && w / 4 == off + 0x40000000 * (data + 0x10000 * ptrs));
    lemma_place(off, data + 0x10000 * ptrs, 0x40000000);
    assert((w / 4) % 0x40000000 == off && (w / 4) / 0x40000000 == data + 0x10000 * ptrs);
    lemma_place(data, ptrs, 0x10000);
    assert(w / 0x100000000 == (w / 4) / 0x40000000) by {
        vstd::arithmetic::div_mod::lemma_div_denominator(w, 4, 0x40000000);
    }
    assert(w / 0x1000000000000 == (w / 0x100000000) / 0x10000) by {
        vstd::arithmetic::div_mod::lemma_div_denominator(w, 0x100000000, 0x10000);
    }
    assert((data + 0x10000 * ptrs) % 0x10000 == data && (data + 0x10000 * ptrs) / 0x10000 == ptrs);
}

pub proof fn lemma_list_ptr_fields(off: int, elem_kind: int, count: int)
    requires
        0 <= off < 0x20000000,
        0 <= elem_kind < 8,
        0 <= count < 0x20000000,
    ensures
        0 < mk_list_ptr(off, elem_kind, count) < 0x10000000000000000,
        ptr_kind(mk_list_ptr(off, elem_kind, count)) == 1,
        ptr_off(mk_list_ptr(off, elem_kind, count)) == off,
        list_elem_kind(mk_list_ptr(off, elem_kind, count)) == elem_kind,
        list_count(mk_list_ptr(off, elem_kind, count)) == count,
{
    let w = mk_list_ptr(off, elem_kind, count);
    assert(w == 1 + 4 * off + 0x100000000 * elem_kind + 0x800000000 * count);
    assert(w == 1 + 4 * (off + 0x40000000 * (elem_kind + 8 * count)));
    lemma_place(1, off + 0x40000000 * (elem_kind + 8 * count), 4);
    assert(w % 4 == 1 && w / 4 == off + 0x40000000 * (elem_kind + 8 * count));
    lemma_place(off, elem_kind + 8 * count, 0x40000000);
    lemma_place(elem_kind, count, 8);
    assert(w / 0x100000000 == (w / 4) / 0x40000000) by {
        vstd::arithmetic::div_mod::lemma_div_denominator(w, 4, 0x40000000);
    }
    assert(w / 0x800000000 == (w / 0x100000000) / 8) by {
        vstd::arithmetic::div_mod::lemma_div_denominator(w, 0x100000000, 8);
    }
    assert((elem_kind + 8 * count) % 8 == elem_kind && (elem_kind + 8 * count) / 8 == count);
    assert(count % 0x20000000 == count);
}

/// Division with remainder is unique: placing `a` below multiples of `m`
/// recovers both parts.
pub proof fn lemma_place(a: int, b: int, m: int)
    requires
        0 <= a < m,
        0 <= b,
    ensures
        (a + m * b) % m == a,
        (a + m * b) / m == b,
{
    assert(m * b == b * m) by (nonlinear_arith);
    vstd::arithmetic::div_mod::lemma_fundamental_div_mod_converse(a + m * b, m, b, a);
}

// --- locating values through bytes ---

pub proof fn lemma_le_int_prefix(a: Seq<u8>, b: Seq<u8>, i: int, n: nat)
    requires
        0 <= i,
        i + n <= a.len(),
    ensures
        le_int(a + b, i, n) == le_int(a, i, n),
    decreases n,
{
    if n > 0 {
        lemma_le_int_prefix(a, b, i + 1, (n - 1) as nat);
    }
}

pub proof fn lemma_le_int_skip(a: Seq<u8>, b: Seq<u8>, i: int, n: nat)
    requires
        a.len() <= i,
        i + n <= a.len() + b.len(),
    ensures
        le_int(a + b, i, n) == le_int(b, i - a.len(), n),
    decreases n,
{
    if n > 0 {
        lemma_le_int_skip(a, b, i + 1, (n - 1) as nat);
    }
}

/// Where the parts of a three-word header followed by two bodies land in
/// the assembled segment.
pub proof fn lemma_seg5(a: Seq<u8>, b: Seq<u8>, c: Seq<u8>, d: Seq<u8>, e: Seq<u8>)
    requires
        a.len() == 8,
        b.len() == 8,
        c.len() == 8,
    ensures
        (a + b + c + d + e).len() == 24 + d.len() + e.len(),
        le_int(a + b + c + d + e, 0, 8) == le_int(a, 0, 8),
        le_int(a + b + c + d + e, 8, 8) == le_int(b, 0, 8),
        le_int(a + b + c + d + e, 16, 8) == le_int(c, 0, 8),
        le_int(a + b + c + d + e, 8, 2) == le_int(b, 0, 2),
        le_int(a + b + c + d + e, 10, 2) == le_int(b, 2, 2),
        forall|j: int|
            0 <= j < d.len() + e.len() ==> #[trigger] (a + b + c + d + e)[24 + j] == (d + e)[j],
{
    let s = a + b + c + d + e;
    lemma_le_int_prefix(a + b + c + d, e, 0, 8);
    lemma_le_int_prefix(a + b + c, d, 0, 8);
    lemma_le_int_prefix(a + b, c, 0, 8);
    lemma_le_int_prefix(a, b, 0, 8);
    lemma_le_int_prefix(a + b + c + d, e, 8, 8);
    lemma_le_int_prefix(a + b + c, d, 8, 8);
    lemma_le_int_prefix(a + b, c, 8, 8);
    lemma_le_int_skip(a, b, 8, 8);
    lemma_le_int_prefix(a + b + c + d, e, 16, 8);
    lemma_le_int_prefix(a + b + c, d, 16, 8);
    lemma_le_int_skip(a + b, c, 16, 8);
    lemma_le_int_prefix(a + b + c + d, e, 8, 2);
    lemma_le_int_prefix(a + b + c, d, 8, 2);
    lemma_le_int_prefix(a + b, c, 8, 2);
    lemma_le_int_skip(a, b, 8, 2);
    lemma_le_int_prefix(a + b + c + d, e, 10, 2);
    lemma_le_int_prefix(a + b + c, d, 10, 2);
    lemma_le_int_prefix(a + b, c, 10, 2);
    lemma_le_int_skip(a, b, 10, 2);
}

/// Little-endian reads recover what `le_bytes8` wrote.
pub proof fn lemma_le_bytes8_round_trip(x: int)
    requires
        0 <= x < 0x10000000000000000,
    ensures
        le_int(le_bytes8(x), 0, 8) == x,
        le_bytes8(x).len() == 8,
{
    reveal_with_fuel(le_int, 9);
    assert(x / 0x100000000000000 < 0x100) by (nonlinear_arith)
        requires
            0 <= x < 0x10000000000000000,
    ;
    assert((x / 0x100000000000000) % 0x100 == x / 0x100000000000000);
    assert(x % 0x100 + 0x100 * ((x / 0x100) % 0x100 + 0x100 * ((x / 0x10000) % 0x100 + 0x100 * ((x
        / 0x1000000) % 0x100 + 0x100 * ((x / 0x100000000) % 0x100 + 0x100 * ((x / 0x10000000000)
        % 0x100 + 0x100 * ((x / 0x1000000000000) % 0x100 + 0x100 * (x / 0x100000000000000)))))))
        == x) by {
        lemma_halves(x, 0x100);
        lemma_halves(x / 0x100, 0x100);
        lemma_halves(x / 0x10000, 0x100);
        lemma_halves(x / 0x1000000, 0x100);
        lemma_halves(x / 0x100000000, 0x100);
        lemma_halves(x / 0x10000000000, 0x100);
        lemma_halves(x / 0x1000000000000, 0x100);
        lemma_div_chain(x);
    }
}

/// Equal bytes read as equal integers.
pub proof fn lemma_le_int_eq(b1: Seq<u8>, i1: int, b2: Seq<u8>, i2: int, n: nat)
    requires
        forall|j: int| 0 <= j < n ==> #[trigger] b1[i1 + j] == b2[i2 + j],
    ensures
        le_int(b1, i1, n) == le_int(b2, i2, n),
    decreases n,
{
    if n > 0 {
        assert(b1[i1 + 0] == b2[i2 + 0]);
        assert forall|j: int| 0 <= j < n - 1 implies #[trigger] b1[i1 + 1 + j] == b2[i2 + 1
            + j] by {
            assert(b1[i1 + (j + 1)] == b2[i2 + (j + 1)]);
        }
        lemma_le_int_eq(b1, i1 + 1, b2, i2 + 1, (n - 1) as nat);
    }
}

/// `y` splits into its low digit and the rest.
pub proof fn lemma_halves(y: int, m: int)
    requires
        0 <= y,
        0 < m,
    ensures
        y == y % m + m * (y / m),
        0 <= y % m < m,
        0 <= y / m,
{
    vstd::arithmetic::div_mod::lemma_fundamental_div_mod(y, m);
    assert(y == m * (y / m) + y % m);
}

/// Repeated division by 256 composes.
proof fn lemma_div_chain(x: int)
    requires
        0 <= x,
    ensures
        (x / 0x100) / 0x100 == x / 0x10000,
        (x / 0x10000) / 0x100 == x / 0x1000000,
        (x / 0x1000000) / 0x100 == x / 0x100000000,
        (x / 0x100000000) / 0x100 == x / 0x10000000000,
        (x / 0x10000000000) / 0x100 == x / 0x1000000000000,
        (x / 0x1000000000000) / 0x100 == x / 0x100000000000000,
{
    vstd::arithmetic::div_mod::lemma_div_denominator(x, 0x100, 0x100);
    vstd::arithmetic::div_mod::lemma_div_denominator(x, 0x10000, 0x100);
    vstd::arithmetic::div_mod::lemma_div_denominator(x, 0x1000000, 0x100);
    vstd::arithmetic::div_mod::lemma_div_denominator(x, 0x100000000, 0x100);
    vstd::arithmetic::div_mod::lemma_div_denominator(x, 0x10000000000, 0x100);
    vstd::arithmetic::div_mod::lemma_div_denominator(x, 0x1000000000000, 0x100);
}

// --- the frame around one segment ---

/// A frame holding one segment: segment count one, the size in words, the
/// segment.
pub open spec fn spec_frame(seg: Seq<u8>) -> Seq<u8> {
    le_bytes4(0) + le_bytes4(seg.len() as int / 8) + seg
}

/// The segment inside a frame, or why the frame is rejected.  Only frames
/// holding exactly one segment, sized exactly as the header says, are
/// accepted.
pub open spec fn spec_frame_seg(bytes: Seq<u8>) -> Result<Seq<u8>, DecodeError> {
    if bytes.len() < 8 {
        Err(DecodeError::MalformedFrame)
    } else if le_int(bytes, 0, 4) != 0 {
        Err(DecodeError::MalformedFrame)
    } else if bytes.len() != 8 + 8 * le_int(bytes, 4, 4) {
        Err(DecodeError::MalformedFrame)
    } else {
        Ok(bytes.skip(8))
    }
}

/// Framing a whole segment and opening the frame return the segment.
pub proof fn lemma_frame_round_trip(seg: Seq<u8>)
    requires
        seg.len() % 8 == 0,
        seg.len() < 0x800000000,
    ensures
        spec_frame_seg(spec_frame(seg)) == Ok::<Seq<u8>, DecodeError>(seg),
        spec_frame(seg).len() == 8 + seg.len(),
{
    let words = seg.len() as int / 8;
    let f = spec_frame(seg);
    lemma_le_bytes4_round_trip(0);
    lemma_le_bytes4_round_trip(words);
    assert(f =~= le_bytes4(0) + (le_bytes4(words) + seg));
    lemma_le_int_prefix(le_bytes4(0), le_bytes4(words) + seg, 0, 4);
    lemma_le_int_skip(le_bytes4(0), le_bytes4(words) + seg, 4, 4);
    lemma_le_int_prefix(le_bytes4(words), seg, 0, 4);
    assert(le_int(f, 0, 4) == 0);
    assert(le_int(f, 4, 4) == words);
    assert(8 * words == seg.len()) by {
        lemma_halves(seg.len() as int, 8);
    }
    assert(f.skip(8) =~= seg);
}

// --- object resolution inside a segment ---

/// Where a struct body lies: its data section and pointer section, as word
/// indices into the segment.
pub ghost struct StructLoc {
    pub data_at: int,
    pub data_words: int,
    pub ptrs_at: int,
    pub ptr_words: int,
}

/// Whether the located struct lies inside the segment.
pub open spec fn struct_loc_in(seg: Seq<u8>, loc: StructLoc) -> bool {
    0 <= loc.data_at && 0 <= loc.data_words && 0 <= loc.ptr_words && loc.ptrs_at == loc.data_at
        + loc.data_words && loc.ptrs_at + loc.ptr_words <= num_words(seg)
}

/// Follows the struct pointer in word `p`: a null word is an absent struct;
/// otherwise the body must lie inside the segment.
pub open spec fn resolve_struct(seg: Seq<u8>, p: int) -> Result<Option<StructLoc>, DecodeError> {
    let w = word_at(seg, p);
    if w == 0 {
        Ok(None)
    } else if ptr_kind(w) != 0 {
        Err(DecodeError::MalformedFrame)
    } else {
        let s = p + 1 + ptr_off(w);
        let d = struct_data_words(w);
        let pt = struct_ptr_words(w);
        if 0 <= s && s + d + pt <= num_words(seg) {
            Ok(Some(StructLoc { data_at: s, data_words: d, ptrs_at: s + d, ptr_words: pt }))
        } else {
            Err(DecodeError::MalformedFrame)
        }
    }
}

/// Follows the text pointer in word `p` and returns the text bytes, without
/// the terminating zero byte.  A null word is empty text.
pub open spec fn resolve_text(seg: Seq<u8>, p: int) -> Result<Seq<u8>, DecodeError> {
    let w = word_at(seg, p);
    if w == 0 {
        Ok(Seq::empty())
    } else if ptr_kind(w) != 1 || list_elem_kind(w) != 2 {
        Err(DecodeError::MalformedFrame)
    } else {
        let s = p + 1 + ptr_off(w);
        let count = list_count(w);
        if count >= 1 && 0 <= s && 8 * s + count <= seg.len() {
            if seg[8 * s + count - 1] == 0 {
                Ok(seg.subrange(8 * s, 8 * s + count - 1))
            } else {
                Err(DecodeError::MalformedFrame)
            }
        } else {
            Err(DecodeError::MalformedFrame)
        }
    }
}

/// Follows the data pointer in word `p` and returns the raw bytes.  A null
/// word is empty data.
pub open spec fn resolve_data(seg: Seq<u8>, p: int) -> Result<Seq<u8>, DecodeError> {
    let w = word_at(seg, p);
    if w == 0 {
        Ok(Seq::empty())
    } else if ptr_kind(w) != 1 || list_elem_kind(w) != 2 {
        Err(DecodeError::MalformedFrame)
    } else {
        let s = p + 1 + ptr_off(w);
        let count = list_count(w);
        if 0 <= s && 8 * s + count <= seg.len() {
            Ok(seg.subrange(8 * s, 8 * s + count))
        } else {
            Err(DecodeError::MalformedFrame)
        }
    }
}

/// Where a list of pointers lies: its first word and how many pointers it
/// holds.
pub ghost struct PtrListLoc {
    pub at: int,
    pub count: int,
}

/// Follows the pointer-list pointer in word `p`.  A null word is an empty
/// list.
pub open spec fn resolve_ptr_list(seg: Seq<u8>, p: int) -> Result<PtrListLoc, DecodeError> {
    let w = word_at(seg, p);
    if w == 0 {
        Ok(PtrListLoc { at: 0, count: 0 })
    } else if ptr_kind(w) != 1 || list_elem_kind(w) != 6 {
        Err(DecodeError::MalformedFrame)
    } else {
        let s = p + 1 + ptr_off(w);
        let count = list_count(w);
        if 0 <= s && s + count <= num_words(seg) {
            Ok(PtrListLoc { at: s, count: count })
        } else {
            Err(DecodeError::MalformedFrame)
        }
    }
}

/// Where a composite list lies: its first element body, the element count,
/// and each element's section sizes.
pub ghost struct CompLoc {
    pub elems_at: int,
    pub count: int,
    pub data_words: int,
    pub ptr_words: int,
}

/// Follows the composite-list pointer in word `p`.  The word count on the
/// pointer must match the tag word's element count and sizes.  A null word
/// is an empty list.
pub open spec fn resolve_composite(seg: Seq<u8>, p: int) -> Result<CompLoc, DecodeError> {
    let w = word_at(seg, p);
    if w == 0 {
        Ok(CompLoc { elems_at: 0, count: 0, data_words: 0, ptr_words: 0 })
    } else if ptr_kind(w) != 1 || list_elem_kind(w) != 7 {
        Err(DecodeError::MalformedFrame)
    } else {
        let s = p + 1 + ptr_off(w);
        let wc = list_count(w);
        if 0 <= s && s + 1 + wc <= num_words(seg) {
            let tag = word_at(seg, s);
            let n = ptr_off(tag);
            let ed = struct_data_words(tag);
            let ep = struct_ptr_words(tag);
            if ptr_kind(tag) == 0 && n >= 0 && n * (ed + ep) == wc {
                Ok(CompLoc { elems_at: s + 1, count: n, data_words: ed, ptr_words: ep })
            } else {
                Err(DecodeError::MalformedFrame)
            }
        } else {
            Err(DecodeError::MalformedFrame)
        }
    }
}

/// The struct body of element `i` of a composite list.
pub open spec fn comp_elem(c: CompLoc, i: int) -> StructLoc {
    StructLoc {
        data_at: c.elems_at + i * (c.data_words + c.ptr_words),
        data_words: c.data_words,
        ptrs_at: c.elems_at + i * (c.data_words + c.ptr_words) + c.data_words,
        ptr_words: c.ptr_words,
    }
}

// --- struct fields ---

/// The sixteen-bit field at data byte `off`, zero when the data section is
/// too short to hold it.
pub open spec fn read_u16_field(seg: Seq<u8>, loc: StructLoc, off: int) -> int {
    if off + 2 <= 8 * loc.data_words {
        le_int(seg, 8 * loc.data_at + off, 2)
    } else {
        0
    }
}

/// The sixty-four-bit field in the first data word, zero when the data
/// section is empty.
pub open spec fn read_u64_field(seg: Seq<u8>, loc: StructLoc) -> int {
    if loc.data_words >= 1 {
        word_at(seg, loc.data_at)
    } else {
        0
    }
}

/// The text behind pointer slot `k`, empty when the pointer section is too
/// short to hold the slot.
pub open spec fn text_field(seg: Seq<u8>, loc: StructLoc, k: int) -> Result<Seq<u8>, DecodeError> {
    if k < loc.ptr_words {
        resolve_text(seg, loc.ptrs_at + k)
    } else {
        Ok(Seq::empty())
    }
}

/// The data behind pointer slot `k`, empty when the slot is missing.
pub open spec fn data_field(seg: Seq<u8>, loc: StructLoc, k: int) -> Result<Seq<u8>, DecodeError> {
    if k < loc.ptr_words {
        resolve_data(seg, loc.ptrs_at + k)
    } else {
        Ok(Seq::empty())
    }
}

/// The struct behind pointer slot `k`, absent when the slot is missing.
pub open spec fn struct_field(seg: Seq<u8>, loc: StructLoc, k: int) -> Result<
    Option<StructLoc>,
    DecodeError,
> {
    if k < loc.ptr_words {
        resolve_struct(seg, loc.ptrs_at + k)
    } else {
        Ok(None)
    }
}

/// The composite list behind pointer slot `k`, empty when the slot is
/// missing.
pub open spec fn composite_field(seg: Seq<u8>, loc: StructLoc, k: int) -> Result<
    CompLoc,
    DecodeError,
> {
    if k < loc.ptr_words {
        resolve_composite(seg, loc.ptrs_at + k)
    } else {
        Ok(CompLoc { elems_at: 0, count: 0, data_words: 0, ptr_words: 0 })
    }
}

/// The pointer list behind pointer slot `k`, empty when the slot is
/// missing.
pub open spec fn ptr_list_field(seg: Seq<u8>, loc: StructLoc, k: int) -> Result<
    PtrListLoc,
    DecodeError,
> {
    if k < loc.ptr_words {
        resolve_ptr_list(seg, loc.ptrs_at + k)
    } else {
        Ok(PtrListLoc { at: 0, count: 0 })
    }
}

// --- text and data bodies, padded to words ---

/// The stored bytes of a text value: its character bytes and the
/// terminating zero.
pub open spec fn text_body(s: Seq<char>) -> Seq<u8> {
    vstd::utf8::encode_utf8(s) + seq![0u8]
}

/// A text body padded with zeros to a whole number of words.
pub open spec fn text_chunk(s: Seq<char>) -> Seq<u8> {
    text_body(s) + zeros(padded_len(text_body(s).len() as int) - text_body(s).len())
}

/// A data body padded with zeros to a whole number of words.
pub open spec fn data_chunk(d: Seq<u8>) -> Seq<u8> {
    d + zeros(padded_len(d.len() as int) - d.len())
}

/// Rounding up to words adds less than one word, and lands on one.
pub proof fn lemma_padded(m: int)
    requires
        0 <= m,
    ensures
        m <= padded_len(m) < m + 8,
        padded_len(m) % 8 == 0,
        padded_len(m) - m == (8 - (m % 8)) % 8,
{
    let q = m / 8;
    let r = m % 8;
    lemma_halves(m, 8);
    if r == 0 {
        lemma_place(7, q, 8);
        assert(m + 7 == 7 + 8 * q);
        lemma_place(0, q, 8);
    } else {
        lemma_place(r - 1, q + 1, 8);
        assert(m + 7 == (r - 1) + 8 * (q + 1));
        lemma_place(0, q + 1, 8);
        assert((8 - r) % 8 == 8 - r) by {
            lemma_place(8 - r, 0, 8);
        }
    }
}

/// Four-byte reads recover what `le_bytes4` wrote.
pub proof fn lemma_le_bytes4_round_trip(x: int)
    requires
        0 <= x < 0x100000000,
    ensures
        le_int(le_bytes4(x), 0, 4) == x,
        le_bytes4(x).len() == 4,
{
    reveal_with_fuel(le_int, 5);
    assert(x / 0x1000000 < 0x100) by (nonlinear_arith)
        requires
            0 <= x < 0x100000000,
    ;
    assert((x / 0x1000000) % 0x100 == x / 0x1000000);
    assert(x % 0x100 + 0x100 * ((x / 0x100) % 0x100 + 0x100 * ((x / 0x10000) % 0x100 + 0x100 * (x
        / 0x1000000))) == x) by {
        lemma_halves(x, 0x100);
        lemma_halves(x / 0x100, 0x100);
        lemma_halves(x / 0x10000, 0x100);
        lemma_div_chain(x);
    }
}

/// The two-byte field at byte `k` of an eight-byte word.
pub proof fn lemma_le_bytes8_u16(x: int)
    requires
        0 <= x < 0x10000000000000000,
    ensures
        le_int(le_bytes8(x), 0, 2) == x % 0x10000,
        le_int(le_bytes8(x), 2, 2) == (x / 0x10000) % 0x10000,
{
    reveal_with_fuel(le_int, 3);
    lemma_halves(x, 0x100);
    lemma_halves(x / 0x100, 0x100);
    lemma_halves(x / 0x10000, 0x100);
    lemma_halves(x / 0x1000000, 0x100);
    lemma_div_chain(x);
    assert(x % 0x100 + 0x100 * ((x / 0x100) % 0x100) == x % 0x10000) by {
        lemma_mod_compose(x, 0x100, 0x100);
    }
    assert((x / 0x10000) % 0x100 + 0x100 * ((x / 0x1000000) % 0x100) == (x / 0x10000) % 0x10000)
        by {
        lemma_mod_compose(x / 0x10000, 0x100, 0x100);
    }
}

/// The low `a*b` digits split into low `a` digits and the next `b` digits.
proof fn lemma_mod_compose(y: int, a: int, b: int)
    requires
        0 <= y,
        0 < a,
        0 < b,
    ensures
        y % a + a * ((y / a) % b) == y % (a * b),
{
    vstd::arithmetic::div_mod::lemma_mod_breakdown(y, a, b);
}

// --- executable reading ---

/// Reads the word at word index `w`.
pub fn read_word(seg: &Vec<u8>, w: usize) -> (r: u64)
    requires
        8 * (w as int) + 8 <= seg@.len(),
    ensures
        r as int == word_at(seg@, w as int),
{
    let n = seg.len();
    let base = 8 * w;
    let r = (seg[base] as u64) + (seg[base + 1] as u64) * 0x100 + (seg[base + 2] as u64) * 0x10000
        + (seg[base + 3] as u64) * 0x1000000 + (seg[base + 4] as u64) * 0x100000000 + (seg[base
        + 5] as u64) * 0x10000000000 + (seg[base + 6] as u64) * 0x1000000000000 + (seg[base
        + 7] as u64) * 0x100000000000000;
    proof {
        reveal_with_fuel(le_int, 9);
    }
    r
}

/// Reads the four-byte little-endian integer at byte index `i`.
pub fn read_u32_at(b: &Vec<u8>, i: usize) -> (r: u32)
    requires
        i + 4 <= b@.len(),
    ensures
        r as int == le_int(b@, i as int, 4),
{
    let n = b.len();
    let r = (b[i] as u32) + (b[i + 1] as u32) * 0x100 + (b[i + 2] as u32) * 0x10000 + (b[i
        + 3] as u32) * 0x1000000;
    proof {
        reveal_with_fuel(le_int, 5);
    }
    r
}

/// Reads the two-byte little-endian integer at byte index `i`.
pub fn read_u16_at(b: &Vec<u8>, i: usize) -> (r: u16)
    requires
        i + 2 <= b@.len(),
    ensures
        r as int == le_int(b@, i as int, 2),
{
    let n = b.len();
    let r = (b[i] as u16) + (b[i + 1] as u16) * 0x100;
    proof {
        reveal_with_fuel(le_int, 3);
    }
    r
}

// --- executable writing ---

/// Appends the eight little-endian bytes of `x`.
pub fn push_word(out: &mut Vec<u8>, x: u64)
    ensures
        final(out)@ == old(out)@ + le_bytes8(x as int),
{
    out.push((x % 0x100) as u8);
    out.push(((x / 0x100) % 0x100) as u8);
    out.push(((x / 0x10000) % 0x100) as u8);
    out.push(((x / 0x1000000) % 0x100) as u8);
    out.push(((x / 0x100000000) % 0x100) as u8);
    out.push(((x / 0x10000000000) % 0x100) as u8);
    out.push(((x / 0x1000000000000) % 0x100) as u8);
    out.push(((x / 0x100000000000000) % 0x100) as u8);
    proof {
        assert(out@ =~= old(out)@ + le_bytes8(x as int));
    }
}

/// Appends the four little-endian bytes of `x`.
pub fn push_u32(out: &mut Vec<u8>, x: u32)
    ensures
        final(out)@ == old(out)@ + le_bytes4(x as int),
{
    out.push((x % 0x100) as u8);
    out.push(((x / 0x100) % 0x100) as u8);
    out.push(((x / 0x10000) % 0x100) as u8);
    out.push(((x / 0x1000000) % 0x100) as u8);
    proof {
        assert(out@ =~= old(out)@ + le_bytes4(x as int));
    }
}

/// Appends a text body and its padding.
pub fn push_text_chunk(out: &mut Vec<u8>, s: &str)
    requires
        vstd::utf8::encode_utf8(s@).len() < 0x20000000,
    ensures
        final(out)@ == old(out)@ + text_chunk(s@),
{
    let ghost pre = out@;
    let b = s.as_bytes();
    let blen = b.len();
    out.extend_from_slice(b);
    out.push(0);
    proof {
        assert(out@ =~= pre + text_body(s@));
    }
    let pad = (8 - ((blen + 1) % 8)) % 8;
    let ghost body = text_body(s@);
    for k in 0..pad
        invariant
            out@ =~= pre + body + zeros(k as int),
            pad < 8,
        decreases pad - k,
    {
        out.push(0);
        proof {
            assert(zeros(k as int + 1) =~= zeros(k as int).push(0u8));
            assert(out@ =~= pre + body + zeros(k as int + 1));
        }
    }
    proof {
        lemma_padded(body.len() as int);
        assert(pad == padded_len(body.len() as int) - body.len());
        assert(out@ =~= pre + text_chunk(s@));
    }
}

/// Appends a data body and its padding.
pub fn push_data_chunk(out: &mut Vec<u8>, d: &Vec<u8>)
    requires
        d@.len() < 0x20000000,
    ensures
        final(out)@ == old(out)@ + data_chunk(d@),
{
    let ghost pre = out@;
    let dlen = d.len();
    out.extend_from_slice(d.as_slice());
    let pad = (8 - (dlen % 8)) % 8;
    for k in 0..pad
        invariant
            out@ =~= pre + d@ + zeros(k as int),
            pad < 8,
        decreases pad - k,
    {
        out.push(0);
        proof {
            assert(zeros(k as int + 1) =~= zeros(k as int).push(0u8));
            assert(out@ =~= pre + d@ + zeros(k as int + 1));
        }
    }
    proof {
        lemma_padded(d@.len() as int);
        assert(pad == padded_len(d@.len() as int) - d@.len());
        assert(out@ =~= pre + data_chunk(d@));
    }
}

/// Wraps a whole segment in its frame.
pub fn finish_frame(seg: Vec<u8>) -> (r: Vec<u8>)
    requires
        seg@.len() % 8 == 0,
        seg@.len() < 0x800000000,
    ensures
        r@ == spec_frame(seg@),
{
    let ghost gseg = seg@;
    let mut out: Vec<u8> = Vec::new();
    push_u32(&mut out, 0);
    let words = (seg.len() / 8) as u32;
    push_u32(&mut out, words);
    let mut body = seg;
    out.append(&mut body);
    proof {
        assert(out@ =~= spec_frame(gseg));
    }
    out
}

/// Opens a frame and copies its segment out.
pub fn frame_seg(bytes: &Vec<u8>) -> (r: Result<Vec<u8>, DecodeError>)
    ensures
        match r {
            Ok(seg) => spec_frame_seg(bytes@) == Ok::<Seq<u8>, DecodeError>(seg@),
            Err(e) => spec_frame_seg(bytes@) == Err::<Seq<u8>, DecodeError>(e),
        },
{
    let n = bytes.len();
    if n < 8 {
        return Err(DecodeError::MalformedFrame);
    }
    if read_u32_at(bytes, 0) != 0 {
        return Err(DecodeError::MalformedFrame);
    }
    let words = read_u32_at(bytes, 4);
    if (n as u64) != 8 + 8 * (words as u64) {
        return Err(DecodeError::MalformedFrame);
    }
    let mut seg: Vec<u8> = Vec::new();
    for i in 8..n
        invariant
            n == bytes@.len(),
            seg@ =~= bytes@.subrange(8, i as int),
    {
        seg.push(bytes[i]);
        proof {
            assert(seg@ =~= bytes@.subrange(8, i as int + 1));
        }
    }
    proof {
        assert(bytes@.subrange(8, n as int) =~= bytes@.skip(8));
    }
    Ok(seg)
}

// --- executable resolution ---

/// `StructLoc` as executable values.
pub struct Loc {
    pub data_at: usize,
    pub data_words: usize,
    pub ptrs_at: usize,
    pub ptr_words: usize,
}

impl View for Loc {
    type V = StructLoc;

    open spec fn view(&self) -> StructLoc {
        StructLoc {
            data_at: self.data_at as int,
            data_words: self.data_words as int,
            ptrs_at: self.ptrs_at as int,
            ptr_words: self.ptr_words as int,
        }
    }
}

/// Follows the struct pointer in word `p`.
pub fn resolve_struct_exec(seg: &Vec<u8>, p: usize) -> (r: Result<Option<Loc>, DecodeError>)
    requires
        8 * (p as int) + 8 <= seg@.len(),
    ensures
        match r {
            Ok(None) => resolve_struct(seg@, p as int) == Ok::<Option<StructLoc>, DecodeError>(
                None,
            ),
            Ok(Some(loc)) => resolve_struct(seg@, p as int) == Ok::<
                Option<StructLoc>,
                DecodeError,
            >(Some(loc@)) && struct_loc_in(seg@, loc@),
            Err(e) => resolve_struct(seg@, p as int) == Err::<Option<StructLoc>, DecodeError>(e),
        },
{
    let n = seg.len();
    let w = read_word(seg, p);
    if w == 0 {
        return Ok(None);
    }
    if w % 4 != 0 {
        return Err(DecodeError::MalformedFrame);
    }
    let raw = (w / 4) % 0x40000000;
    let off: i64 = if raw < 0x20000000 {
        raw as i64
    } else {
        (raw as i64) - 0x40000000
    };
    let d = ((w / 0x100000000) % 0x10000) as usize;
    let pt = ((w / 0x1000000000000) % 0x10000) as usize;
    let s_i: i64 = (p as i64) + 1 + off;
    let nw = n / 8;
    if s_i >= 0 && (s_i as u64) + (d as u64) + (pt as u64) <= (nw as u64) {
        let s = s_i as usize;
        Ok(Some(Loc { data_at: s, data_words: d, ptrs_at: s + d, ptr_words: pt }))
    } else {
        Err(DecodeError::MalformedFrame)
    }
}

/// Follows the text pointer in word `p` and copies the text bytes out,
/// without the terminating zero byte.
pub fn resolve_text_exec(seg: &Vec<u8>, p: usize) -> (r: Result<Vec<u8>, DecodeError>)
    requires
        8 * (p as int) + 8 <= seg@.len(),
    ensures
        match r {
            Ok(b) => resolve_text(seg@, p as int) == Ok::<Seq<u8>, DecodeError>(b@),
            Err(e) => resolve_text(seg@, p as int) == Err::<Seq<u8>, DecodeError>(e),
        },
{
    let n = seg.len();
    let w = read_word(seg, p);
    if w == 0 {
        let r: Vec<u8> = Vec::new();
        proof {
            assert(r@ =~= Seq::<u8>::empty());
        }
        return Ok(r);
    }
    if w % 4 != 1 || (w / 0x100000000) % 8 != 2 {
        return Err(DecodeError::MalformedFrame);
    }
    let raw = (w / 4) % 0x40000000;
    let off: i64 = if raw < 0x20000000 {
        raw as i64
    } else {
        (raw as i64) - 0x40000000
    };
    let count = (w / 0x800000000) % 0x20000000;
    let s_i: i64 = (p as i64) + 1 + off;
    let nw = n / 8;
    proof {
        lemma_halves(n as int, 8);
    }
    if count >= 1 && s_i >= 0 && (s_i as u64) <= nw as u64 && count <= (n as u64) - 8 * (
    s_i as u64) {
        let base = 8 * (s_i as usize);
        let cnt = count as usize;
        if seg[base + cnt - 1] == 0 {
            let mut b: Vec<u8> = Vec::new();
            for i in 0..cnt - 1
                invariant
                    n == seg@.len(),
                    base + cnt <= n,
                    cnt >= 1,
                    b@ =~= seg@.subrange(base as int, base as int + i as int),
            {
                b.push(seg[base + i]);
                proof {
                    assert(b@ =~= seg@.subrange(base as int, base as int + i as int + 1));
                }
            }
            Ok(b)
        } else {
            Err(DecodeError::MalformedFrame)
        }
    } else {
        Err(DecodeError::MalformedFrame)
    }
}

/// Follows the data pointer in word `p` and copies the bytes out.
pub fn resolve_data_exec(seg: &Vec<u8>, p: usize) -> (r: Result<Vec<u8>, DecodeError>)
    requires
        8 * (p as int) + 8 <= seg@.len(),
    ensures
        match r {
            Ok(b) => resolve_data(seg@, p as int) == Ok::<Seq<u8>, DecodeError>(b@),
            Err(e) => resolve_data(seg@, p as int) == Err::<Seq<u8>, DecodeError>(e),
        },
{
    let n = seg.len();
    let w = read_word(seg, p);
    if w == 0 {
        let r: Vec<u8> = Vec::new();
        proof {
            assert(r@ =~= Seq::<u8>::empty());
        }
        return Ok(r);
    }
    if w % 4 != 1 || (w / 0x100000000) % 8 != 2 {
        return Err(DecodeError::MalformedFrame);
    }
    let raw = (w / 4) % 0x40000000;
    let off: i64 = if raw < 0x20000000 {
        raw as i64
    } else {
        (raw as i64) - 0x40000000
    };
    let count = (w / 0x800000000) % 0x20000000;
    let s_i: i64 = (p as i64) + 1 + off;
    let nw = n / 8;
    proof {
        lemma_halves(n as int, 8);
    }
    if s_i >= 0 && (s_i as u64) <= nw as u64 && count <= (n as u64) - 8 * (s_i as u64) {
        let base = 8 * (s_i as usize);
        let cnt = count as usize;
        let mut b: Vec<u8> = Vec::new();
        for i in 0..cnt
            invariant
                n == seg@.len(),
                base + cnt <= n,
                b@ =~= seg@.subrange(base as int, base as int + i as int),
        {
            b.push(seg[base + i]);
            proof {
                assert(b@ =~= seg@.subrange(base as int, base as int + i as int + 1));
            }
        }
        Ok(b)
    } else {
        Err(DecodeError::MalformedFrame)
    }
}

/// `PtrListLoc` as executable values.
pub struct PtrList {
    pub at: usize,
    pub count: usize,
}

impl View for PtrList {
    type V = PtrListLoc;

    open spec fn view(&self) -> PtrListLoc {
        PtrListLoc { at: self.at as int, count: self.count as int }
    }
}

/// Follows the pointer-list pointer in word `p`.
pub fn resolve_ptr_list_exec(seg: &Vec<u8>, p: usize) -> (r: Result<PtrList, DecodeError>)
    requires
        8 * (p as int) + 8 <= seg@.len(),
    ensures
        match r {
            Ok(l) => resolve_ptr_list(seg@, p as int) == Ok::<PtrListLoc, DecodeError>(l@) && l@.at
                + l@.count <= num_words(seg@) && l@.at >= 0,
            Err(e) => resolve_ptr_list(seg@, p as int) == Err::<PtrListLoc, DecodeError>(e),
        },
{
    let n = seg.len();
    let w = read_word(seg, p);
    if w == 0 {
        return Ok(PtrList { at: 0, count: 0 });
    }
    if w % 4 != 1 || (w / 0x100000000) % 8 != 6 {
        return Err(DecodeError::MalformedFrame);
    }
    let raw = (w / 4) % 0x40000000;
    let off: i64 = if raw < 0x20000000 {
        raw as i64
    } else {
        (raw as i64) - 0x40000000
    };
    let count = (w / 0x800000000) % 0x20000000;
    let s_i: i64 = (p as i64) + 1 + off;
    let nw = n / 8;
    if s_i >= 0 && (s_i as u64) + count <= nw as u64 {
        Ok(PtrList { at: s_i as usize, count: count as usize })
    } else {
        Err(DecodeError::MalformedFrame)
    }
}

/// `CompLoc` as executable values.
pub struct Comp {
    pub elems_at: usize,
    pub count: usize,
    pub data_words: usize,
    pub ptr_words: usize,
}

impl View for Comp {
    type V = CompLoc;

    open spec fn view(&self) -> CompLoc {
        CompLoc {
            elems_at: self.elems_at as int,
            count: self.count as int,
            data_words: self.data_words as int,
            ptr_words: self.ptr_words as int,
        }
    }
}

/// Follows the composite-list pointer in word `p`.
pub fn resolve_composite_exec(seg: &Vec<u8>, p: usize) -> (r: Result<Comp, DecodeError>)
    requires
        8 * (p as int) + 8 <= seg@.len(),
    ensures
        match r {
            Ok(c) => resolve_composite(seg@, p as int) == Ok::<CompLoc, DecodeError>(c@)
                && c@.elems_at >= 0 && c@.count >= 0 && 0 <= c@.data_words < 0x10000 && 0
                <= c@.ptr_words < 0x10000 && c@.elems_at + c@.count * (c@.data_words
                + c@.ptr_words) <= num_words(seg@),
            Err(e) => resolve_composite(seg@, p as int) == Err::<CompLoc, DecodeError>(e),
        },
{
    let n = seg.len();
    let w = read_word(seg, p);
    if w == 0 {
        return Ok(Comp { elems_at: 0, count: 0, data_words: 0, ptr_words: 0 });
    }
    if w % 4 != 1 || (w / 0x100000000) % 8 != 7 {
        return Err(DecodeError::MalformedFrame);
    }
    let raw = (w / 4) % 0x40000000;
    let off: i64 = if raw < 0x20000000 {
        raw as i64
    } else {
        (raw as i64) - 0x40000000
    };
    let wc = (w / 0x800000000) % 0x20000000;
    let s_i: i64 = (p as i64) + 1 + off;
    let nw = n / 8;
    if !(s_i >= 0 && (s_i as u64) + 1 + wc <= nw as u64) {
        return Err(DecodeError::MalformedFrame);
    }
    let s = s_i as usize;
    let tag = read_word(seg, s);
    if tag % 4 != 0 {
        return Err(DecodeError::MalformedFrame);
    }
    let traw = (tag / 4) % 0x40000000;
    let n_i: i64 = if traw < 0x20000000 {
        traw as i64
    } else {
        (traw as i64) - 0x40000000
    };
    let ed = (tag / 0x100000000) % 0x10000;
    let ep = (tag / 0x1000000000000) % 0x10000;
    let size = ed + ep;
    if n_i >= 0 {
        let nn = n_i as u64;
        proof {
            assert(nn * size <= 0x40000000 * 0x20000) by (nonlinear_arith)
                requires
                    nn <= 0x40000000,
                    size <= 0x20000,
            ;
        }
        if nn * size == wc {
            return Ok(
                Comp {
                    elems_at: s + 1,
                    count: n_i as usize,
                    data_words: ed as usize,
                    ptr_words: ep as usize,
                },
            );
        }
    }
    Err(DecodeError::MalformedFrame)
}

/// Reads the text behind pointer slot `k` of a located struct.
pub fn text_field_exec(seg: &Vec<u8>, loc: &Loc, k: usize) -> (r: Result<Vec<u8>, DecodeError>)
    requires
        struct_loc_in(seg@, loc@),
    ensures
        match r {
            Ok(b) => text_field(seg@, loc@, k as int) == Ok::<Seq<u8>, DecodeError>(b@),
            Err(e) => text_field(seg@, loc@, k as int) == Err::<Seq<u8>, DecodeError>(e),
        },
{
    let n = seg.len();
    proof {
        lemma_halves(n as int, 8);
    }
    if k < loc.ptr_words {
        resolve_text_exec(seg, loc.ptrs_at + k)
    } else {
        let b: Vec<u8> = Vec::new();
        proof {
            assert(b@ =~= Seq::<u8>::empty());
        }
        Ok(b)
    }
}

/// Reads the data behind pointer slot `k` of a located struct.
pub fn data_field_exec(seg: &Vec<u8>, loc: &Loc, k: usize) -> (r: Result<Vec<u8>, DecodeError>)
    requires
        struct_loc_in(seg@, loc@),
    ensures
        match r {
            Ok(b) => data_field(seg@, loc@, k as int) == Ok::<Seq<u8>, DecodeError>(b@),
            Err(e) => data_field(seg@, loc@, k as int) == Err::<Seq<u8>, DecodeError>(e),
        },
{
    let n = seg.len();
    proof {
        lemma_halves(n as int, 8);
    }
    if k < loc.ptr_words {
        resolve_data_exec(seg, loc.ptrs_at + k)
    } else {
        let b: Vec<u8> = Vec::new();
        proof {
            assert(b@ =~= Seq::<u8>::empty());
        }
        Ok(b)
    }
}

/// Follows the struct behind pointer slot `k` of a located struct.
pub fn struct_field_exec(seg: &Vec<u8>, loc: &Loc, k: usize) -> (r: Result<
    Option<Loc>,
    DecodeError,
>)
    requires
        struct_loc_in(seg@, loc@),
    ensures
        match r {
            Ok(None) => struct_field(seg@, loc@, k as int) == Ok::<Option<StructLoc>, DecodeError>(
                None,
            ),
            Ok(Some(l)) => struct_field(seg@, loc@, k as int) == Ok::<
                Option<StructLoc>,
                DecodeError,
            >(Some(l@)) && struct_loc_in(seg@, l@),
            Err(e) => struct_field(seg@, loc@, k as int) == Err::<Option<StructLoc>, DecodeError>(
                e,
            ),
        },
{
    let n = seg.len();
    proof {
        lemma_halves(n as int, 8);
    }
    if k < loc.ptr_words {
        resolve_struct_exec(seg, loc.ptrs_at + k)
    } else {
        Ok(None)
    }
}

/// Follows the composite list behind pointer slot `k` of a located struct.
pub fn composite_field_exec(seg: &Vec<u8>, loc: &Loc, k: usize) -> (r: Result<Comp, DecodeError>)
    requires
        struct_loc_in(seg@, loc@),
    ensures
        match r {
            Ok(c) => composite_field(seg@, loc@, k as int) == Ok::<CompLoc, DecodeError>(c@)
                && c@.elems_at >= 0 && c@.count >= 0 && 0 <= c@.data_words < 0x10000 && 0
                <= c@.ptr_words < 0x10000 && c@.elems_at + c@.count * (c@.data_words
                + c@.ptr_words) <= num_words(seg@),
            Err(e) => composite_field(seg@, loc@, k as int) == Err::<CompLoc, DecodeError>(e),
        },
{
    let n = seg.len();
    proof {
        lemma_halves(n as int, 8);
    }
    if k < loc.ptr_words {
        resolve_composite_exec(seg, loc.ptrs_at + k)
    } else {
        Ok(Comp { elems_at: 0, count: 0, data_words: 0, ptr_words: 0 })
    }
}

/// Follows the pointer list behind pointer slot `k` of a located struct.
pub fn ptr_list_field_exec(seg: &Vec<u8>, loc: &Loc, k: usize) -> (r: Result<PtrList, DecodeError>)
    requires
        struct_loc_in(seg@, loc@),
    ensures
        match r {
            Ok(l) => ptr_list_field(seg@, loc@, k as int) == Ok::<PtrListLoc, DecodeError>(l@)
                && l@.at >= 0 && l@.at + l@.count <= num_words(seg@),
            Err(e) => ptr_list_field(seg@, loc@, k as int) == Err::<PtrListLoc, DecodeError>(e),
        },
{
    let n = seg.len();
    proof {
        lemma_halves(n as int, 8);
    }
    if k < loc.ptr_words {
        resolve_ptr_list_exec(seg, loc.ptrs_at + k)
    } else {
        Ok(PtrList { at: 0, count: 0 })
    }
}

/// Relies on `String::from_utf8`: it accepts exactly the valid UTF-8 byte
/// sequences and returns the string those bytes spell.
#[verifier::external_body]
pub(crate) fn bytes_to_string(v: Vec<u8>) -> (r: Option<String>)
    ensures
        (vstd::utf8::valid_utf8(v@) <==> r is Some),
        r matches Some(s) ==> s@ == vstd::utf8::decode_utf8(v@),
{
    match String::from_utf8(v) {
        Ok(s) => Some(s),
        Err(_) => None,
    }
}

/// Reads the sixteen-bit field at data byte `off` of a located struct.
pub fn read_u16_field_exec(seg: &Vec<u8>, loc: &Loc, off: usize) -> (r: u16)
    requires
        struct_loc_in(seg@, loc@),
        off + 2 <= 8,
    ensures
        r as int == read_u16_field(seg@, loc@, off as int),
{
    let n = seg.len();
    proof {
        lemma_halves(n as int, 8);
    }
    if off + 2 <= 8 * loc.data_words {
        read_u16_at(seg, 8 * loc.data_at + off)
    } else {
        0
    }
}

/// Reads the first data word of a located struct.
pub fn read_u64_field_exec(seg: &Vec<u8>, loc: &Loc) -> (r: u64)
    requires
        struct_loc_in(seg@, loc@),
    ensures
        r as int == read_u64_field(seg@, loc@),
{
    if loc.data_words >= 1 {
        read_word(seg, loc.data_at)
    } else {
        0
    }
}

} // verus!
