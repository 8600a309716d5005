//! The wire shape shared by two messages: a struct of two pointers, an
//! optional embedded write request and one text field.
//!
//! The embedded request, when present, is a nested struct placed right
//! after the pointer section; the text follows it.

use vstd::prelude::*;
use vstd::utf8::{decode_utf8, encode_utf8, encode_utf8_decode_utf8, encode_utf8_valid_utf8,
    valid_utf8};
use crate::wire::{DecodeError, Loc, StructLoc, bytes_to_string, finish_frame, frame_seg,
    le_bytes8, lemma_frame_round_trip, lemma_le_bytes8_round_trip, lemma_le_bytes8_u16,
    lemma_le_int_eq, lemma_le_int_prefix, lemma_le_int_skip, lemma_list_ptr_fields, lemma_padded,
    lemma_place, lemma_seg5, lemma_struct_ptr_fields, mk_list_ptr, mk_struct_ptr, num_words,
    push_text_chunk, push_word, read_u16_field, resolve_struct, resolve_struct_exec, resolve_text,
    spec_frame, spec_frame_seg, struct_field, text_body, text_chunk, text_field, text_field_exec,
    word_at};
use crate::write_msg::{WriteRequest, WriteRequestModel, decode_write_body, spec_decode_write_body,
    write_wf};

verus! {

/// The mathematical shape of the pair: an optional write request and a
/// text.
pub ghost struct ReqTextModel {
    pub req: Option<WriteRequestModel>,
    pub text: Seq<char>,
}

/// Whether the pair fits on the wire.
pub open spec fn req_text_wf(m: ReqTextModel) -> bool {
    &&& encode_utf8(m.text).len() + 1 < 0x20000000
    &&& match m.req {
        None => true,
        Some(w) => write_wf(w),
    }
}

/// The nested request's bytes: its data word, its text pointer, its text.
pub open spec fn spec_nested(m: ReqTextModel) -> Seq<u8> {
    match m.req {
        None => Seq::empty(),
        Some(w) => le_bytes8(w.reason.spec_ordinal() + 0x10000 * w.medium.spec_ordinal())
            + le_bytes8(mk_list_ptr(0, 2, encode_utf8(w.iri).len() as int + 1)) + text_chunk(
            w.iri,
        ),
    }
}

/// How many words the nested request occupies.
pub open spec fn nested_words(m: ReqTextModel) -> int {
    spec_nested(m).len() as int / 8
}

/// The pointer to the nested request: null when absent.
pub open spec fn spec_req_ptr(m: ReqTextModel) -> int {
    match m.req {
        None => 0,
        Some(w) => mk_struct_ptr(1, 1, 1),
    }
}

/// The pair's segment.
pub open spec fn spec_req_text_seg(m: ReqTextModel) -> Seq<u8> {
    le_bytes8(mk_struct_ptr(0, 0, 2)) + le_bytes8(spec_req_ptr(m)) + le_bytes8(
        mk_list_ptr(nested_words(m), 2, encode_utf8(m.text).len() as int + 1),
    ) + spec_nested(m) + text_chunk(m.text)
}

/// The pair's whole frame.
pub open spec fn spec_encode_req_text(m: ReqTextModel) -> Seq<u8> {
    spec_frame(spec_req_text_seg(m))
}

/// What a frame decodes to as such a pair, or why it is rejected.
pub open spec fn spec_decode_req_text(bytes: Seq<u8>) -> Result<ReqTextModel, DecodeError> {
    match spec_frame_seg(bytes) {
        Err(e) => Err(e),
        Ok(seg) => {
            if num_words(seg) < 1 {
                Err(DecodeError::MalformedFrame)
            } else {
                match resolve_struct(seg, 0) {
                    Err(e) => Err(e),
                    Ok(None) => Ok(ReqTextModel { req: None, text: Seq::empty() }),
                    Ok(Some(loc)) => match struct_field(seg, loc, 0) {
                        Err(e) => Err(e),
                        Ok(None) => spec_decode_text_part(seg, loc, None),
                        Ok(Some(nl)) => match spec_decode_write_body(seg, nl) {
                            Err(e) => Err(e),
                            Ok(w) => spec_decode_text_part(seg, loc, Some(w)),
                        },
                    },
                }
            }
        },
    }
}

/// The text half of the pair, joined with an already decoded request.
pub open spec fn spec_decode_text_part(
    seg: Seq<u8>,
    loc: StructLoc,
    req: Option<WriteRequestModel>,
) -> Result<ReqTextModel, DecodeError> {
    match text_field(seg, loc, 1) {
        Err(e) => Err(e),
        Ok(tb) => {
            if !valid_utf8(tb) {
                Err(DecodeError::MalformedFrame)
            } else {
                Ok(ReqTextModel { req: req, text: decode_utf8(tb) })
            }
        },
    }
}

/// Encodes one pair as a frame.  Returns nothing only when a text is too
/// long for the wire format.
#[verifier::rlimit(100)]
#[verifier::spinoff_prover]
pub fn encode_req_text(req: &Option<WriteRequest>, text: &String) -> (r: Option<Vec<u8>>)
    ensures
        ({
            let m = ReqTextModel {
                req: match req {
                    None => None,
                    Some(w) => Some(w@),
                },
                text: text@,
            };
            &&& req_text_wf(m) ==> (r matches Some(f) && f@ == spec_encode_req_text(m))
            &&& !req_text_wf(m) ==> r is None
        }),
{
    let ghost m = ReqTextModel {
        req: match req {
            None => None,
            Some(w) => Some(w@),
        },
        text: text@,
    };
    let tlen = text.as_str().as_bytes().len();
    if tlen >= 0x1FFFFFFF {
        return None;
    }
    let mut nested: Vec<u8> = Vec::new();
    let mut req_ptr: u64 = 0;
    match req {
        None => {
            proof {
                assert(nested@ =~= spec_nested(m));
            }
        },
        Some(w) => {
            let ilen = w.iri.as_str().as_bytes().len();
            if ilen >= 0x1FFFFFFF {
                return None;
            }
            req_ptr = 0x1000100000004;
            proof {
                assert(req_ptr as int == mk_struct_ptr(1, 1, 1));
            }
            let data: u64 = (w.reason.to_u16() as u64) + 0x10000 * (w.medium.to_u16() as u64);
            push_word(&mut nested, data);
            proof {
                assert(nested@ =~= le_bytes8(
                    w@.reason.spec_ordinal() + 0x10000 * w@.medium.spec_ordinal(),
                ));
            }
            let iri_ptr: u64 = 1 + 0x100000000 * 2 + 0x800000000 * ((ilen as u64) + 1);
            push_word(&mut nested, iri_ptr);
            proof {
                assert(iri_ptr as int == mk_list_ptr(0, 2, encode_utf8(w@.iri).len() as int + 1));
            }
            push_text_chunk(&mut nested, w.iri.as_str());
            proof {
                assert(nested@ == spec_nested(m));
                lemma_padded(text_body(w@.iri).len() as int);
            }
        },
    }
    let nw = nested.len() / 8;
    proof {
        assert(nested@.len() % 8 == 0);
        assert(nw as int == nested_words(m));
        assert(nw < 0x10000000);
    }
    let mut seg: Vec<u8> = Vec::new();
    push_word(&mut seg, 0x2000000000000);
    proof {
        assert(0x2000000000000 == mk_struct_ptr(0, 0, 2));
        assert(seg@ =~= le_bytes8(mk_struct_ptr(0, 0, 2)));
    }
    push_word(&mut seg, req_ptr);
    proof {
        assert(req_ptr as int == spec_req_ptr(m));
        assert(seg@ == le_bytes8(mk_struct_ptr(0, 0, 2)) + le_bytes8(spec_req_ptr(m)));
    }
    let txt_ptr: u64 = 1 + 4 * (nw as u64) + 0x100000000 * 2 + 0x800000000 * ((tlen as u64) + 1);
    push_word(&mut seg, txt_ptr);
    proof {
        assert(txt_ptr as int == mk_list_ptr(nested_words(m), 2, encode_utf8(m.text).len() as int
            + 1));
    }
    let mut nbody = nested;
    seg.append(&mut nbody);
    push_text_chunk(&mut seg, text.as_str());
    proof {
        assert(seg@ == spec_req_text_seg(m));
        lemma_padded(text_body(m.text).len() as int);
    }
    Some(finish_frame(seg))
}

/// An encoded pair decodes to the pair it was built from.
#[verifier::rlimit(100)]
#[verifier::spinoff_prover]
pub proof fn lemma_req_text_round_trip(m: ReqTextModel)
    requires
        req_text_wf(m),
    ensures
        spec_decode_req_text(spec_encode_req_text(m)) == Ok::<ReqTextModel, DecodeError>(m),
{
    let seg = spec_req_text_seg(m);
    let a = le_bytes8(mk_struct_ptr(0, 0, 2));
    let b = le_bytes8(spec_req_ptr(m));
    let tlen = encode_utf8(m.text).len() as int;
    let nw = nested_words(m);
    let cw = mk_list_ptr(nw, 2, tlen + 1);
    let c = le_bytes8(cw);
    let d = spec_nested(m);
    let e = text_chunk(m.text);
    lemma_padded(text_body(m.text).len() as int);
    lemma_nested_len(m);
    assert(d.len() == 8 * nw);
    lemma_seg5(a, b, c, d, e);
    assert(seg.len() % 8 == 0);
    lemma_frame_round_trip(seg);
    // word 0: the root pointer
    lemma_struct_ptr_fields(0, 0, 2);
    lemma_le_bytes8_round_trip(mk_struct_ptr(0, 0, 2));
    assert(word_at(seg, 0) == mk_struct_ptr(0, 0, 2));
    let loc = StructLoc { data_at: 1, data_words: 0, ptrs_at: 1, ptr_words: 2 };
    assert(resolve_struct(seg, 0) == Ok::<Option<StructLoc>, DecodeError>(Some(loc)));
    // word 2: the text pointer, text at word 3 + nw
    lemma_le_bytes8_round_trip(cw);
    assert(word_at(seg, 2) == cw);
    lemma_list_ptr_fields(nw, 2, tlen + 1);
    assert(seg[24 + 8 * nw + tlen] == 0) by {
        assert((d + e)[8 * nw + tlen] == e[tlen]);
        assert(e[tlen] == text_body(m.text)[tlen]);
    }
    assert(seg.subrange(24 + 8 * nw, 24 + 8 * nw + tlen) =~= encode_utf8(m.text)) by {
        assert forall|j: int|
            0 <= j < tlen implies seg[24 + 8 * nw + j] == encode_utf8(m.text)[j] by {
            assert((d + e)[8 * nw + j] == e[j]);
            assert(e[j] == text_body(m.text)[j]);
        }
    }
    assert(resolve_text(seg, loc.ptrs_at + 1) == Ok::<Seq<u8>, DecodeError>(encode_utf8(m.text)));
    encode_utf8_valid_utf8(m.text);
    encode_utf8_decode_utf8(m.text);
    // word 1: the nested request, when present
    lemma_le_bytes8_round_trip(spec_req_ptr(m));
    assert(word_at(seg, 1) == spec_req_ptr(m));
    match m.req {
        None => {
            assert(struct_field(seg, loc, 0) == Ok::<Option<StructLoc>, DecodeError>(None));
        },
        Some(w) => {
            lemma_nested_decodes(m, w, seg, a, b, c, d, e);
        },
    }
}

/// The nested request's length, by case.
proof fn lemma_nested_len(m: ReqTextModel)
    requires
        req_text_wf(m),
    ensures
        spec_nested(m).len() % 8 == 0,
        spec_nested(m).len() == 8 * nested_words(m),
        0 <= nested_words(m) < 0x10000000,
{
    match m.req {
        None => {
        },
        Some(w) => {
            lemma_padded(text_body(w.iri).len() as int);
        },
    }
    crate::wire::lemma_halves(spec_nested(m).len() as int, 8);
}

/// The nested request struct decodes to the request that was embedded.
#[verifier::rlimit(100)]
#[verifier::spinoff_prover]
proof fn lemma_nested_decodes(
    m: ReqTextModel,
    w: WriteRequestModel,
    seg: Seq<u8>,
    a: Seq<u8>,
    b: Seq<u8>,
    c: Seq<u8>,
    d: Seq<u8>,
    e: Seq<u8>,
)
    requires
        req_text_wf(m),
        m.req == Some(w),
        a == le_bytes8(mk_struct_ptr(0, 0, 2)),
        b == le_bytes8(spec_req_ptr(m)),
        c == le_bytes8(
            mk_list_ptr(nested_words(m), 2, encode_utf8(m.text).len() as int + 1),
        ),
        d == spec_nested(m),
        e == text_chunk(m.text),
        seg == a + b + c + d + e,
    ensures
        ({
            let loc = StructLoc { data_at: 1, data_words: 0, ptrs_at: 1, ptr_words: 2 };
            &&& struct_field(seg, loc, 0) matches Ok(nlo) && nlo matches Some(nl)
                && spec_decode_write_body(seg, nl) == Ok::<WriteRequestModel, DecodeError>(w)
        }),
{
    let loc = StructLoc { data_at: 1, data_words: 0, ptrs_at: 1, ptr_words: 2 };
    let ilen = encode_utf8(w.iri).len() as int;
    let x = w.reason.spec_ordinal() + 0x10000 * w.medium.spec_ordinal();
    let nd = le_bytes8(x);
    let np = le_bytes8(mk_list_ptr(0, 2, ilen + 1));
    let nt = text_chunk(w.iri);
    lemma_padded(text_body(w.iri).len() as int);
    lemma_nested_len(m);
    lemma_seg5(a, b, c, d, e);
    assert(d == nd + np + nt);
    // the pointer to the nested struct
    lemma_le_bytes8_round_trip(spec_req_ptr(m));
    assert(word_at(seg, 1) == mk_struct_ptr(1, 1, 1));
    lemma_struct_ptr_fields(1, 1, 1);
    let nl = StructLoc { data_at: 3, data_words: 1, ptrs_at: 4, ptr_words: 1 };
    assert(num_words(seg) == 3 + nested_words(m) + e.len() / 8) by {
        lemma_padded(text_body(m.text).len() as int);
        lemma_place(0, 3 + nested_words(m) + e.len() / 8, 8);
    }
    assert(resolve_struct(seg, 1) == Ok::<Option<StructLoc>, DecodeError>(Some(nl)));
    // the nested data word
    assert forall|j: int| 0 <= j < 8 implies seg[24 + j] == nd[j] by {
        assert((d + e)[j] == d[j]);
    }
    lemma_le_int_eq(seg, 24, nd, 0, 2);
    lemma_le_int_eq(seg, 26, nd, 2, 2);
    lemma_le_int_prefix(nd, np + nt, 0, 2);
    lemma_le_int_prefix(nd, np + nt, 2, 2);
    lemma_le_bytes8_u16(x);
    lemma_place(w.reason.spec_ordinal() as int, w.medium.spec_ordinal() as int, 0x10000);
    assert(read_u16_field(seg, nl, 0) == w.reason.spec_ordinal());
    assert(read_u16_field(seg, nl, 2) == w.medium.spec_ordinal());
    // the nested text pointer and text
    assert forall|j: int| 0 <= j < 8 implies seg[32 + j] == np[j] by {
        assert((d + e)[8 + j] == d[8 + j]);
        assert(d[8 + j] == np[j]);
    }
    lemma_le_int_eq(seg, 32, np, 0, 8);
    lemma_le_int_prefix(np, nt, 0, 8);
    lemma_le_bytes8_round_trip(mk_list_ptr(0, 2, ilen + 1));
    assert(word_at(seg, 4) == mk_list_ptr(0, 2, ilen + 1));
    lemma_list_ptr_fields(0, 2, ilen + 1);
    assert(seg[40 + ilen] == 0) by {
        assert((d + e)[16 + ilen] == d[16 + ilen]);
        assert(d[16 + ilen] == nt[ilen]);
        assert(nt[ilen] == text_body(w.iri)[ilen]);
    }
    assert(seg.subrange(40, 40 + ilen) =~= encode_utf8(w.iri)) by {
        assert forall|j: int| 0 <= j < ilen implies seg[40 + j] == encode_utf8(w.iri)[j] by {
            assert((d + e)[16 + j] == d[16 + j]);
            assert(d[16 + j] == nt[j]);
            assert(nt[j] == text_body(w.iri)[j]);
        }
    }
    assert(resolve_text(seg, 4) == Ok::<Seq<u8>, DecodeError>(encode_utf8(w.iri)));
    assert(text_field(seg, nl, 0) == Ok::<Seq<u8>, DecodeError>(encode_utf8(w.iri)));
    encode_utf8_valid_utf8(w.iri);
    encode_utf8_decode_utf8(w.iri);
    assert(crate::msg::spec_reason_from_u16(w.reason.spec_ordinal()) == Some(w.reason));
    assert(crate::msg::spec_medium_from_u16(w.medium.spec_ordinal()) == Some(w.medium));
}

/// Decodes a frame as such a pair.
pub fn decode_req_text(bytes: &Vec<u8>) -> (r: Result<(Option<WriteRequest>, String), DecodeError>)
    ensures
        match r {
            Ok(p) => spec_decode_req_text(bytes@) == Ok::<ReqTextModel, DecodeError>(
                ReqTextModel {
                    req: match p.0 {
                        None => None,
                        Some(w) => Some(w@),
                    },
                    text: p.1@,
                },
            ),
            Err(e) => spec_decode_req_text(bytes@) == Err::<ReqTextModel, DecodeError>(e),
        },
{
    let seg = match frame_seg(bytes) {
        Ok(s) => s,
        Err(e) => {
            return Err(e);
        },
    };
    if seg.len() < 8 {
        return Err(DecodeError::MalformedFrame);
    }
    let loc: Loc = match resolve_struct_exec(&seg, 0) {
        Ok(Some(l)) => l,
        Ok(None) => {
            return Ok((None, String::new()));
        },
        Err(e) => {
            return Err(e);
        },
    };
    let req: Option<WriteRequest> = match crate::wire::struct_field_exec(&seg, &loc, 0) {
        Ok(None) => None,
        Ok(Some(nl)) => match decode_write_body(&seg, &nl) {
            Ok(w) => Some(w),
            Err(e) => {
                return Err(e);
            },
        },
        Err(e) => {
            return Err(e);
        },
    };
    let tb = match text_field_exec(&seg, &loc, 1) {
        Ok(v) => v,
        Err(e) => {
            return Err(e);
        },
    };
    let text = match bytes_to_string(tb) {
        Some(s) => s,
        None => {
            return Err(DecodeError::MalformedFrame);
        },
    };
    Ok((req, text))
}

} // verus!
