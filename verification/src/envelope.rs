//! The outer envelope every wire message travels in: a type name that
//! routes the message, and a payload holding the fully framed inner
//! message.  Endpoints may dispatch on the type name without touching the
//! payload.
//!
//! On the wire it is a struct of two pointers: the type name text and the
//! payload bytes.

use vstd::prelude::*;
use vstd::string::StrSliceExecFns;
use vstd::utf8::{decode_utf8, encode_utf8, encode_utf8_decode_utf8, encode_utf8_valid_utf8,
    valid_utf8};
use crate::wire::{DecodeError, Loc, StructLoc, bytes_to_string, data_chunk, data_field,
    data_field_exec, finish_frame, frame_seg, le_bytes8, lemma_frame_round_trip,
    lemma_le_bytes8_round_trip, lemma_le_int_prefix, lemma_le_int_skip, lemma_list_ptr_fields,
    lemma_padded, lemma_seg5, lemma_struct_ptr_fields, mk_list_ptr, mk_struct_ptr, num_words,
    padded_len,
    push_data_chunk, push_text_chunk, push_word, resolve_struct, resolve_struct_exec, spec_frame,
    spec_frame_seg, text_body, text_chunk, text_field, text_field_exec, word_at};

verus! {

/// The mathematical shape of an envelope.
pub ghost struct EnvelopeModel {
    pub name: Seq<char>,
    pub payload: Seq<u8>,
}

/// An envelope being put together before encoding.
pub struct Builder {
    name: String,
    payload: Vec<u8>,
}

/// An envelope read back out of a frame.
pub struct Reader {
    name: String,
    payload: Vec<u8>,
}

impl View for Builder {
    type V = EnvelopeModel;

    closed spec fn view(&self) -> EnvelopeModel {
        EnvelopeModel { name: self.name@, payload: self.payload@ }
    }
}

impl View for Reader {
    type V = EnvelopeModel;

    closed spec fn view(&self) -> EnvelopeModel {
        EnvelopeModel { name: self.name@, payload: self.payload@ }
    }
}

impl Builder {
    /// An envelope with empty type name and payload.
    pub fn new() -> (b: Builder)
        ensures
            b@.name == Seq::<char>::empty(),
            b@.payload == Seq::<u8>::empty(),
    {
        Builder { name: String::new(), payload: Vec::new() }
    }

    /// Sets the type name.
    pub fn set_type_name(&mut self, v: String)
        ensures
            final(self)@.name == v@,
            final(self)@.payload == old(self)@.payload,
    {
        self.name = v;
    }

    /// Sets the payload bytes.
    pub fn set_payload(&mut self, v: Vec<u8>)
        ensures
            final(self)@.payload == v@,
            final(self)@.name == old(self)@.name,
    {
        self.payload = v;
    }

    /// The type name as set so far.
    pub fn get_type_name(&self) -> (r: &String)
        ensures
            r@ == self@.name,
    {
        &self.name
    }

    /// The payload as set so far.
    pub fn get_payload(&self) -> (r: &Vec<u8>)
        ensures
            r@ == self@.payload,
    {
        &self.payload
    }

    /// Whether a non-empty type name has been set.
    pub fn has_type_name(&self) -> (r: bool)
        ensures
            r == (self@.name.len() > 0),
    {
        self.name.as_str().unicode_len() > 0
    }

    /// Whether a non-empty payload has been set.
    pub fn has_payload(&self) -> (r: bool)
        ensures
            r == (self@.payload.len() > 0),
    {
        self.payload.len() > 0
    }

    /// Freezes the builder into a reader over the same values.
    pub fn into_reader(self) -> (r: Reader)
        ensures
            r@ == self@,
    {
        Reader { name: self.name, payload: self.payload }
    }
}

impl Reader {
    /// The envelope's type name.
    pub fn get_type_name(&self) -> (r: &String)
        ensures
            r@ == self@.name,
    {
        &self.name
    }

    /// The envelope's payload bytes.
    pub fn get_payload(&self) -> (r: &Vec<u8>)
        ensures
            r@ == self@.payload,
    {
        &self.payload
    }

    /// Whether the envelope carries a non-empty type name.
    pub fn has_type_name(&self) -> (r: bool)
        ensures
            r == (self@.name.len() > 0),
    {
        self.name.as_str().unicode_len() > 0
    }

    /// Whether the envelope carries a non-empty payload.
    pub fn has_payload(&self) -> (r: bool)
        ensures
            r == (self@.payload.len() > 0),
    {
        self.payload.len() > 0
    }
}

/// Whether the envelope fits on the wire: both byte lists stay under the
/// twenty-nine-bit element count.
pub open spec fn envelope_wf(m: EnvelopeModel) -> bool {
    encode_utf8(m.name).len() + 1 < 0x20000000 && m.payload.len() < 0x20000000
}

/// How many words the type name text occupies.
pub open spec fn tn_words(m: EnvelopeModel) -> int {
    padded_len(encode_utf8(m.name).len() as int + 1) / 8
}

/// The envelope's segment: root pointer, the two pointers, the type name
/// text, the payload bytes.
pub open spec fn spec_envelope_seg(m: EnvelopeModel) -> Seq<u8> {
    le_bytes8(mk_struct_ptr(0, 0, 2)) + le_bytes8(
        mk_list_ptr(1, 2, encode_utf8(m.name).len() as int + 1),
    ) + le_bytes8(mk_list_ptr(tn_words(m), 2, m.payload.len() as int)) + text_chunk(m.name)
        + data_chunk(m.payload)
}

/// The envelope's whole frame.
pub open spec fn spec_encode_envelope(m: EnvelopeModel) -> Seq<u8> {
    spec_frame(spec_envelope_seg(m))
}

/// What a frame decodes to as an envelope, or why it is rejected.
pub open spec fn spec_decode_envelope(bytes: Seq<u8>) -> Result<EnvelopeModel, DecodeError> {
    match spec_frame_seg(bytes) {
        Err(e) => Err(e),
        Ok(seg) => {
            if num_words(seg) < 1 {
                Err(DecodeError::MalformedFrame)
            } else {
                match resolve_struct(seg, 0) {
                    Err(e) => Err(e),
                    Ok(None) => Ok(
                        EnvelopeModel { name: Seq::empty(), payload: Seq::empty() },
                    ),
                    Ok(Some(loc)) => match text_field(seg, loc, 0) {
                        Err(e) => Err(e),
                        Ok(tb) => {
                            if !valid_utf8(tb) {
                                Err(DecodeError::MalformedFrame)
                            } else {
                                match data_field(seg, loc, 1) {
                                    Err(e) => Err(e),
                                    Ok(pb) => Ok(
                                        EnvelopeModel { name: decode_utf8(tb), payload: pb },
                                    ),
                                }
                            }
                        },
                    },
                }
            }
        },
    }
}

/// Encodes one envelope as a frame.  Returns nothing only when the type
/// name or payload is too long for the wire format.
#[verifier::rlimit(100)]
#[verifier::spinoff_prover]
pub fn encode_envelope(b: &Builder) -> (r: Option<Vec<u8>>)
    ensures
        envelope_wf(b@) ==> (r matches Some(f) && f@ == spec_encode_envelope(b@)),
        !envelope_wf(b@) ==> r is None,
{
    let tlen = b.name.as_str().as_bytes().len();
    let plen = b.payload.len();
    if tlen >= 0x1FFFFFFF || plen >= 0x20000000 {
        return None;
    }
    let tw = (tlen + 8) / 8;
    proof {
        lemma_padded(tlen as int + 1);
        assert(tw as int == tn_words(b@));
    }
    let mut seg: Vec<u8> = Vec::new();
    push_word(&mut seg, 0x2000000000000);
    proof {
        assert(0x2000000000000 == mk_struct_ptr(0, 0, 2));
        assert(seg@ =~= le_bytes8(mk_struct_ptr(0, 0, 2)));
    }
    let tn_ptr: u64 = 1 + 4 + 0x100000000 * 2 + 0x800000000 * ((tlen as u64) + 1);
    push_word(&mut seg, tn_ptr);
    proof {
        assert(tn_ptr as int == mk_list_ptr(1, 2, encode_utf8(b@.name).len() as int + 1));
        assert(seg@ == le_bytes8(mk_struct_ptr(0, 0, 2)) + le_bytes8(
            mk_list_ptr(1, 2, encode_utf8(b@.name).len() as int + 1),
        ));
    }
    let pl_ptr: u64 = 1 + 4 * (tw as u64) + 0x100000000 * 2 + 0x800000000 * (plen as u64);
    push_word(&mut seg, pl_ptr);
    proof {
        assert(pl_ptr as int == mk_list_ptr(tn_words(b@), 2, b@.payload.len() as int));
    }
    push_text_chunk(&mut seg, b.name.as_str());
    push_data_chunk(&mut seg, &b.payload);
    proof {
        assert(seg@ == spec_envelope_seg(b@));
        lemma_padded(text_body(b@.name).len() as int);
        lemma_padded(b@.payload.len() as int);
    }
    Some(finish_frame(seg))
}

/// An encoded envelope decodes to the envelope it was built from.
#[verifier::rlimit(100)]
#[verifier::spinoff_prover]
pub proof fn lemma_envelope_round_trip(m: EnvelopeModel)
    requires
        envelope_wf(m),
    ensures
        spec_decode_envelope(spec_encode_envelope(m)) == Ok::<EnvelopeModel, DecodeError>(m),
{
    let seg = spec_envelope_seg(m);
    let a = le_bytes8(mk_struct_ptr(0, 0, 2));
    let tlen = encode_utf8(m.name).len() as int;
    let plen = m.payload.len() as int;
    let tw = tn_words(m);
    let bw = mk_list_ptr(1, 2, tlen + 1);
    let b = le_bytes8(bw);
    let cw = mk_list_ptr(tw, 2, plen);
    let c = le_bytes8(cw);
    let d = text_chunk(m.name);
    let e = data_chunk(m.payload);
    lemma_padded(text_body(m.name).len() as int);
    lemma_padded(plen);
    assert(d.len() == 8 * tw);
    lemma_seg5(a, b, c, d, e);
    assert(seg.len() == 24 + d.len() + e.len());
    assert(seg.len() % 8 == 0);
    lemma_frame_round_trip(seg);
    // word 0: the root pointer
    lemma_struct_ptr_fields(0, 0, 2);
    lemma_le_bytes8_round_trip(mk_struct_ptr(0, 0, 2));
    assert(word_at(seg, 0) == mk_struct_ptr(0, 0, 2));
    let loc = StructLoc { data_at: 1, data_words: 0, ptrs_at: 1, ptr_words: 2 };
    assert(resolve_struct(seg, 0) == Ok::<Option<StructLoc>, DecodeError>(Some(loc)));
    // word 1: the type name pointer, text at word 3
    lemma_le_bytes8_round_trip(bw);
    assert(word_at(seg, 1) == bw);
    lemma_list_ptr_fields(1, 2, tlen + 1);
    assert(seg[24 + tlen] == 0) by {
        assert((d + e)[tlen] == d[tlen]);
        assert(d[tlen] == text_body(m.name)[tlen]);
        assert(text_body(m.name)[tlen] == 0);
    }
    assert(seg.subrange(24, 24 + tlen) =~= encode_utf8(m.name)) by {
        assert forall|j: int| 0 <= j < tlen implies seg[24 + j] == encode_utf8(m.name)[j] by {
            assert((d + e)[j] == d[j]);
            assert(d[j] == text_body(m.name)[j]);
        }
    }
    assert(text_field(seg, loc, 0) == Ok::<Seq<u8>, DecodeError>(encode_utf8(m.name)));
    encode_utf8_valid_utf8(m.name);
    encode_utf8_decode_utf8(m.name);
    // word 2: the payload pointer, bytes at word 3 + tw
    lemma_le_bytes8_round_trip(cw);
    assert(word_at(seg, 2) == cw);
    lemma_list_ptr_fields(tw, 2, plen);
    assert(seg.subrange(24 + 8 * tw, 24 + 8 * tw + plen) =~= m.payload) by {
        assert forall|j: int| 0 <= j < plen implies seg[24 + 8 * tw + j] == m.payload[j] by {
            assert((d + e)[8 * tw + j] == e[j]);
            assert(e[j] == m.payload[j]);
        }
    }
    assert(data_field(seg, loc, 1) == Ok::<Seq<u8>, DecodeError>(m.payload));
}

/// Decodes a frame as an envelope.
pub fn decode_envelope(bytes: &Vec<u8>) -> (r: Result<Reader, DecodeError>)
    ensures
        match r {
            Ok(env) => spec_decode_envelope(bytes@) == Ok::<EnvelopeModel, DecodeError>(env@),
            Err(e) => spec_decode_envelope(bytes@) == Err::<EnvelopeModel, DecodeError>(e),
        },
{
    let seg = match frame_seg(bytes) {
        Ok(s) => s,
        Err(e) => {
            return Err(e);
        },
    };
    if seg.len() < 8 {
        return Err(DecodeError::MalformedFrame);
    }
    let loc: Loc = match resolve_struct_exec(&seg, 0) {
        Ok(Some(l)) => l,
        Ok(None) => {
            return Ok(Reader { name: String::new(), payload: Vec::new() });
        },
        Err(e) => {
            return Err(e);
        },
    };
    let tb = match text_field_exec(&seg, &loc, 0) {
        Ok(v) => v,
        Err(e) => {
            return Err(e);
        },
    };
    let name = match bytes_to_string(tb) {
        Some(s) => s,
        None => {
            return Err(DecodeError::MalformedFrame);
        },
    };
    let payload = match data_field_exec(&seg, &loc, 1) {
        Ok(v) => v,
        Err(e) => {
            return Err(e);
        },
    };
    Ok(Reader { name, payload })
}

} // verus!
