//! The outbound write request: the feed IRI being announced, with its
//! reason and medium as wire ordinals.
//!
//! On the wire it is a struct of one data word — the reason in its low
//! sixteen bits, the medium in the next sixteen — and one pointer, the IRI
//! text.

use vstd::prelude::*;
use vstd::utf8::{decode_utf8, encode_utf8, encode_utf8_decode_utf8, encode_utf8_valid_utf8,
    valid_utf8};
use crate::msg::{Medium, Reason, spec_medium_from_u16, spec_reason_from_u16};
use crate::wire::{DecodeError, Loc, StructLoc, bytes_to_string, finish_frame, frame_seg,
    le_bytes8, lemma_frame_round_trip, lemma_le_bytes8_round_trip, lemma_le_bytes8_u16,
    lemma_le_int_prefix, lemma_le_int_skip, lemma_list_ptr_fields, lemma_padded, lemma_place,
    lemma_struct_ptr_fields, mk_list_ptr, mk_struct_ptr, num_words, push_text_chunk, push_word,
    read_u16_field, read_u16_field_exec, resolve_struct, resolve_struct_exec, spec_frame,
    spec_frame_seg, text_body, text_chunk, text_field, text_field_exec, word_at};

verus! {

/// One write request for the remote writer.
pub struct WriteRequest {
    pub iri: String,
    pub reason: Reason,
    pub medium: Medium,
}

/// The mathematical shape of a write request.
pub ghost struct WriteRequestModel {
    pub iri: Seq<char>,
    pub reason: Reason,
    pub medium: Medium,
}

impl View for WriteRequest {
    type V = WriteRequestModel;

    open spec fn view(&self) -> WriteRequestModel {
        WriteRequestModel { iri: self.iri@, reason: self.reason, medium: self.medium }
    }
}

/// Whether the request fits on the wire: a text list's element count is
/// twenty-nine bits and counts the terminating zero byte.
pub open spec fn write_wf(m: WriteRequestModel) -> bool {
    encode_utf8(m.iri).len() + 1 < 0x20000000
}

/// The request's segment: root pointer, data word, IRI pointer, IRI text.
pub open spec fn spec_write_seg(m: WriteRequestModel) -> Seq<u8> {
    le_bytes8(mk_struct_ptr(0, 1, 1)) + le_bytes8(
        m.reason.spec_ordinal() + 0x10000 * m.medium.spec_ordinal(),
    ) + le_bytes8(mk_list_ptr(0, 2, encode_utf8(m.iri).len() as int + 1)) + text_chunk(m.iri)
}

/// The request's whole frame.
pub open spec fn spec_encode_write(m: WriteRequestModel) -> Seq<u8> {
    spec_frame(spec_write_seg(m))
}

/// What a frame decodes to as a write request, or why it is rejected.
pub open spec fn spec_decode_write(bytes: Seq<u8>) -> Result<WriteRequestModel, DecodeError> {
    match spec_frame_seg(bytes) {
        Err(e) => Err(e),
        Ok(seg) => {
            if num_words(seg) < 1 {
                Err(DecodeError::MalformedFrame)
            } else {
                match resolve_struct(seg, 0) {
                    Err(e) => Err(e),
                    Ok(None) => Ok(
                        WriteRequestModel {
                            iri: Seq::empty(),
                            reason: Reason::Update,
                            medium: Medium::Podcast,
                        },
                    ),
                    Ok(Some(loc)) => spec_decode_write_body(seg, loc),
                }
            }
        },
    }
}

/// The fields of a located write request struct.
pub open spec fn spec_decode_write_body(seg: Seq<u8>, loc: StructLoc) -> Result<
    WriteRequestModel,
    DecodeError,
> {
    match text_field(seg, loc, 0) {
        Err(e) => Err(e),
        Ok(tb) => {
            if !valid_utf8(tb) {
                Err(DecodeError::MalformedFrame)
            } else {
                match spec_reason_from_u16(read_u16_field(seg, loc, 0) as u16) {
                    None => Err(DecodeError::OutOfRangeEnum),
                    Some(rs) => match spec_medium_from_u16(read_u16_field(seg, loc, 2) as u16) {
                        None => Err(DecodeError::OutOfRangeEnum),
                        Some(md) => Ok(
                            WriteRequestModel { iri: decode_utf8(tb), reason: rs, medium: md },
                        ),
                    },
                }
            }
        },
    }
}

/// Encodes one write request as a frame.  Returns nothing only when the IRI
/// is too long for the wire format.
pub fn encode_write_request(m: &WriteRequest) -> (r: Option<Vec<u8>>)
    ensures
        write_wf(m@) ==> (r matches Some(b) && b@ == spec_encode_write(m@)),
        !write_wf(m@) ==> r is None,
{
    let blen = m.iri.as_str().as_bytes().len();
    if blen >= 0x1FFFFFFF {
        return None;
    }
    let mut seg: Vec<u8> = Vec::new();
    push_word(&mut seg, 0x1000100000000);
    proof {
        assert(0x1000100000000 == mk_struct_ptr(0, 1, 1));
    }
    let data: u64 = (m.reason.to_u16() as u64) + 0x10000 * (m.medium.to_u16() as u64);
    push_word(&mut seg, data);
    let iri_ptr: u64 = 1 + 0x100000000 * 2 + 0x800000000 * ((blen as u64) + 1);
    push_word(&mut seg, iri_ptr);
    proof {
        assert(iri_ptr as int == mk_list_ptr(0, 2, encode_utf8(m.iri@).len() as int + 1));
    }
    push_text_chunk(&mut seg, m.iri.as_str());
    proof {
        assert(seg@ =~= spec_write_seg(m@));
        lemma_padded(text_body(m.iri@).len() as int);
    }
    Some(finish_frame(seg))
}

/// The fields a write request decomposes into when placed at known
/// positions by `spec_write_seg`.
#[verifier::rlimit(100)]
#[verifier::spinoff_prover]
pub proof fn lemma_write_seg_decode(m: WriteRequestModel)
    requires
        write_wf(m),
    ensures
        spec_write_seg(m).len() % 8 == 0,
        spec_write_seg(m).len() < 0x800000000,
        spec_decode_write(spec_encode_write(m)) == Ok::<WriteRequestModel, DecodeError>(m),
{
    let seg = spec_write_seg(m);
    let a = le_bytes8(mk_struct_ptr(0, 1, 1));
    let x = m.reason.spec_ordinal() + 0x10000 * m.medium.spec_ordinal();
    let b = le_bytes8(x);
    let blen = encode_utf8(m.iri).len() as int;
    let cw = mk_list_ptr(0, 2, blen + 1);
    let c = le_bytes8(cw);
    let d = text_chunk(m.iri);
    lemma_padded(text_body(m.iri).len() as int);
    assert(seg.len() == 24 + d.len());
    assert(seg.len() % 8 == 0);
    lemma_frame_round_trip(seg);
    // word 0: the root pointer
    lemma_struct_ptr_fields(0, 1, 1);
    assert(seg =~= a + (b + (c + d)));
    lemma_le_int_prefix(a, b + (c + d), 0, 8);
    lemma_le_bytes8_round_trip(mk_struct_ptr(0, 1, 1));
    assert(word_at(seg, 0) == mk_struct_ptr(0, 1, 1));
    let loc = StructLoc { data_at: 1, data_words: 1, ptrs_at: 2, ptr_words: 1 };
    assert(resolve_struct(seg, 0) == Ok::<Option<StructLoc>, DecodeError>(Some(loc)));
    // word 1: the data word holding both ordinals
    lemma_le_int_skip(a, b + (c + d), 8, 2);
    lemma_le_int_prefix(b, c + d, 0, 2);
    lemma_le_int_skip(a, b + (c + d), 10, 2);
    lemma_le_int_prefix(b, c + d, 2, 2);
    assert(x < 0x10000000000000000);
    lemma_le_bytes8_u16(x);
    lemma_place(m.reason.spec_ordinal() as int, m.medium.spec_ordinal() as int, 0x10000);
    assert(read_u16_field(seg, loc, 0) == m.reason.spec_ordinal());
    assert(read_u16_field(seg, loc, 2) == m.medium.spec_ordinal());
    assert(spec_reason_from_u16(m.reason.spec_ordinal()) == Some(m.reason));
    assert(spec_medium_from_u16(m.medium.spec_ordinal()) == Some(m.medium));
    // word 2: the IRI pointer, text at word 3
    lemma_le_int_skip(a, b + (c + d), 16, 8);
    lemma_le_int_skip(b, c + d, 8, 8);
    lemma_le_int_prefix(c, d, 0, 8);
    lemma_le_bytes8_round_trip(cw);
    assert(word_at(seg, 2) == cw);
    lemma_list_ptr_fields(0, 2, blen + 1);
    assert(seg[24 + blen] == 0) by {
        assert(d[blen] == text_body(m.iri)[blen]);
        assert(text_body(m.iri)[blen] == 0);
    }
    assert(seg.subrange(24, 24 + blen) =~= encode_utf8(m.iri)) by {
        assert forall|j: int| 0 <= j < blen implies seg[24 + j] == encode_utf8(m.iri)[j] by {
            assert(d[j] == text_body(m.iri)[j]);
        }
    }
    assert(text_field(seg, loc, 0) == Ok::<Seq<u8>, DecodeError>(encode_utf8(m.iri)));
    encode_utf8_valid_utf8(m.iri);
    encode_utf8_decode_utf8(m.iri);
}

/// Decodes a frame as a write request.
pub fn decode_write_request(bytes: &Vec<u8>) -> (r: Result<WriteRequest, DecodeError>)
    ensures
        match r {
            Ok(m) => spec_decode_write(bytes@) == Ok::<WriteRequestModel, DecodeError>(m@),
            Err(e) => spec_decode_write(bytes@) == Err::<WriteRequestModel, DecodeError>(e),
        },
{
    let seg = match frame_seg(bytes) {
        Ok(s) => s,
        Err(e) => {
            return Err(e);
        },
    };
    if seg.len() < 8 {
        return Err(DecodeError::MalformedFrame);
    }
    let loc: Loc = match resolve_struct_exec(&seg, 0) {
        Ok(Some(l)) => l,
        Ok(None) => {
            return Ok(
                WriteRequest {
                    iri: String::new(),
                    reason: Reason::Update,
                    medium: Medium::Podcast,
                },
            );
        },
        Err(e) => {
            return Err(e);
        },
    };
    decode_write_body(&seg, &loc)
}

/// Decodes the fields of a located write request struct.
pub(crate) fn decode_write_body(seg: &Vec<u8>, loc: &Loc) -> (r: Result<WriteRequest, DecodeError>)
    requires
        crate::wire::struct_loc_in(seg@, loc@),
    ensures
        match r {
            Ok(m) => spec_decode_write_body(seg@, loc@) == Ok::<WriteRequestModel, DecodeError>(
                m@,
            ),
            Err(e) => spec_decode_write_body(seg@, loc@) == Err::<WriteRequestModel, DecodeError>(
                e,
            ),
        },
{
    let tb = match text_field_exec(seg, loc, 0) {
        Ok(b) => b,
        Err(e) => {
            return Err(e);
        },
    };
    let iri = match bytes_to_string(tb) {
        Some(s) => s,
        None => {
            return Err(DecodeError::MalformedFrame);
        },
    };
    let reason = match Reason::from_u16(read_u16_field_exec(seg, loc, 0)) {
        Some(rs) => rs,
        None => {
            return Err(DecodeError::OutOfRangeEnum);
        },
    };
    let medium = match Medium::from_u16(read_u16_field_exec(seg, loc, 2)) {
        Some(md) => md,
        None => {
            return Err(DecodeError::OutOfRangeEnum);
        },
    };
    Ok(WriteRequest { iri, reason, medium })
}

} // verus!
