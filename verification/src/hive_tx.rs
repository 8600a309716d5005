//! The writer's confirmation reply: a ledger transaction that committed a
//! batch of podpings.  It names the transaction, the block it landed in —
//! block zero meaning "not yet in a block" — and, per podping, the list of
//! IRIs written with their textual medium and reason.
//!
//! On the wire it is a struct of one data word (the block number) and two
//! pointers: the transaction id text and a composite list of podping
//! entries, each entry holding a list of IRI texts and two more texts.

use vstd::prelude::*;
use vstd::utf8::{decode_utf8, valid_utf8};
use crate::wire::{Comp, CompLoc, DecodeError, Loc, PtrListLoc, StructLoc, bytes_to_string,
    comp_elem, composite_field, composite_field_exec, frame_seg, num_words, ptr_list_field,
    ptr_list_field_exec, read_u64_field, read_u64_field_exec, resolve_struct, resolve_struct_exec,
    resolve_text, resolve_text_exec, spec_frame_seg, struct_loc_in, text_field, text_field_exec};

verus! {

/// One committed podping inside a confirmation.
pub struct PodpingWritten {
    pub iris: Vec<String>,
    pub medium: String,
    pub reason: String,
}

/// The mathematical shape of one committed podping.
pub ghost struct PodpingWrittenModel {
    pub iris: Seq<Seq<char>>,
    pub medium: Seq<char>,
    pub reason: Seq<char>,
}

impl View for PodpingWritten {
    type V = PodpingWrittenModel;

    open spec fn view(&self) -> PodpingWrittenModel {
        PodpingWrittenModel {
            iris: self.iris@.map_values(|s: String| s@),
            medium: self.medium@,
            reason: self.reason@,
        }
    }
}

/// One confirmation reply.
pub struct HiveTransaction {
    pub hive_tx_id: String,
    pub hive_block_num: u64,
    pub podpings: Vec<PodpingWritten>,
}

/// The mathematical shape of a confirmation reply.
pub ghost struct HiveTransactionModel {
    pub hive_tx_id: Seq<char>,
    pub hive_block_num: u64,
    pub podpings: Seq<PodpingWrittenModel>,
}

impl View for HiveTransaction {
    type V = HiveTransactionModel;

    open spec fn view(&self) -> HiveTransactionModel {
        HiveTransactionModel {
            hive_tx_id: self.hive_tx_id@,
            hive_block_num: self.hive_block_num,
            podpings: self.podpings@.map_values(|p: PodpingWritten| p@),
        }
    }
}

/// The texts behind the first `i` pointers of a located pointer list, each
/// decoded as UTF-8.
#[verifier::opaque]
pub open spec fn spec_decode_iris(seg: Seq<u8>, ll: PtrListLoc, i: int) -> Result<
    Seq<Seq<char>>,
    DecodeError,
>
    decreases i,
{
    if i <= 0 {
        Ok(Seq::empty())
    } else {
        match spec_decode_iris(seg, ll, i - 1) {
            Err(e) => Err(e),
            Ok(pre) => match resolve_text(seg, ll.at + (i - 1)) {
                Err(e) => Err(e),
                Ok(tb) => {
                    if !valid_utf8(tb) {
                        Err(DecodeError::MalformedFrame)
                    } else {
                        Ok(pre.push(decode_utf8(tb)))
                    }
                },
            },
        }
    }
}

/// One podping entry of a located composite list.
#[verifier::opaque]
pub open spec fn spec_decode_podping(seg: Seq<u8>, el: StructLoc) -> Result<
    PodpingWrittenModel,
    DecodeError,
> {
    match ptr_list_field(seg, el, 0) {
        Err(e) => Err(e),
        Ok(ll) => match spec_decode_iris(seg, ll, ll.count) {
            Err(e) => Err(e),
            Ok(iris) => match text_field(seg, el, 1) {
                Err(e) => Err(e),
                Ok(mb) => {
                    if !valid_utf8(mb) {
                        Err(DecodeError::MalformedFrame)
                    } else {
                        match text_field(seg, el, 2) {
                            Err(e) => Err(e),
                            Ok(rb) => {
                                if !valid_utf8(rb) {
                                    Err(DecodeError::MalformedFrame)
                                } else {
                                    Ok(
                                        PodpingWrittenModel {
                                            iris: iris,
                                            medium: decode_utf8(mb),
                                            reason: decode_utf8(rb),
                                        },
                                    )
                                }
                            },
                        }
                    }
                },
            },
        },
    }
}

/// The first `i` podping entries of a located composite list.
#[verifier::opaque]
pub open spec fn spec_decode_podpings(seg: Seq<u8>, c: CompLoc, i: int) -> Result<
    Seq<PodpingWrittenModel>,
    DecodeError,
>
    decreases i,
{
    if i <= 0 {
        Ok(Seq::empty())
    } else {
        match spec_decode_podpings(seg, c, i - 1) {
            Err(e) => Err(e),
            Ok(pre) => match spec_decode_podping(seg, comp_elem(c, i - 1)) {
                Err(e) => Err(e),
                Ok(p) => Ok(pre.push(p)),
            },
        }
    }
}

/// The fields of a located confirmation struct.
#[verifier::opaque]
pub open spec fn spec_decode_tx_body(seg: Seq<u8>, loc: StructLoc) -> Result<
    HiveTransactionModel,
    DecodeError,
> {
    match text_field(seg, loc, 0) {
        Err(e) => Err(e),
        Ok(tb) => {
            if !valid_utf8(tb) {
                Err(DecodeError::MalformedFrame)
            } else {
                match composite_field(seg, loc, 1) {
                    Err(e) => Err(e),
                    Ok(c) => match spec_decode_podpings(seg, c, c.count) {
                        Err(e) => Err(e),
                        Ok(pps) => Ok(
                            HiveTransactionModel {
                                hive_tx_id: decode_utf8(tb),
                                hive_block_num: (read_u64_field(seg, loc) as u64),
                                podpings: pps,
                            },
                        ),
                    },
                }
            }
        },
    }
}

/// What a frame decodes to as a confirmation reply, or why it is rejected.
#[verifier::opaque]
pub open spec fn spec_decode_hive_tx(bytes: Seq<u8>) -> Result<HiveTransactionModel, DecodeError> {
    match spec_frame_seg(bytes) {
        Err(e) => Err(e),
        Ok(seg) => {
            if num_words(seg) < 1 {
                Err(DecodeError::MalformedFrame)
            } else {
                match resolve_struct(seg, 0) {
                    Err(e) => Err(e),
                    Ok(None) => Ok(
                        HiveTransactionModel {
                            hive_tx_id: Seq::empty(),
                            hive_block_num: 0,
                            podpings: Seq::empty(),
                        },
                    ),
                    Ok(Some(loc)) => spec_decode_tx_body(seg, loc),
                }
            }
        },
    }
}

/// Decodes a frame as a confirmation reply.
#[verifier::rlimit(100)]
#[verifier::spinoff_prover]
pub fn decode_hive_transaction(bytes: &Vec<u8>) -> (r: Result<HiveTransaction, DecodeError>)
    ensures
        match r {
            Ok(m) => spec_decode_hive_tx(bytes@) == Ok::<HiveTransactionModel, DecodeError>(m@),
            Err(e) => spec_decode_hive_tx(bytes@) == Err::<HiveTransactionModel, DecodeError>(e),
        },
{
    proof {
        reveal(spec_decode_hive_tx);
    }
    let seg = match frame_seg(bytes) {
        Ok(s) => s,
        Err(e) => {
            return Err(e);
        },
    };
    if seg.len() < 8 {
        return Err(DecodeError::MalformedFrame);
    }
    let loc: Loc = match resolve_struct_exec(&seg, 0) {
        Ok(Some(l)) => l,
        Ok(None) => {
            let out = HiveTransaction {
                hive_tx_id: String::new(),
                hive_block_num: 0,
                podpings: Vec::new(),
            };
            proof {
                assert(out@.podpings =~= Seq::<PodpingWrittenModel>::empty());
            }
            return Ok(out);
        },
        Err(e) => {
            return Err(e);
        },
    };
    decode_tx_body(&seg, &loc)
}

/// Decodes the fields of a located confirmation struct.
#[verifier::rlimit(100)]
#[verifier::spinoff_prover]
fn decode_tx_body(seg: &Vec<u8>, loc: &Loc) -> (r: Result<HiveTransaction, DecodeError>)
    requires
        struct_loc_in(seg@, loc@),
    ensures
        match r {
            Ok(m) => spec_decode_tx_body(seg@, loc@) == Ok::<HiveTransactionModel, DecodeError>(
                m@,
            ),
            Err(e) => spec_decode_tx_body(seg@, loc@) == Err::<HiveTransactionModel, DecodeError>(
                e,
            ),
        },
{
    proof {
        reveal(spec_decode_tx_body);
    }
    let tb = match text_field_exec(seg, loc, 0) {
        Ok(v) => v,
        Err(e) => {
            return Err(e);
        },
    };
    let hive_tx_id = match bytes_to_string(tb) {
        Some(s) => s,
        None => {
            return Err(DecodeError::MalformedFrame);
        },
    };
    let hive_block_num = read_u64_field_exec(seg, loc);
    let c: Comp = match composite_field_exec(seg, loc, 1) {
        Ok(v) => v,
        Err(e) => {
            return Err(e);
        },
    };
    let podpings = match decode_podpings_list(seg, &c) {
        Ok(v) => v,
        Err(e) => {
            return Err(e);
        },
    };
    Ok(HiveTransaction { hive_tx_id, hive_block_num, podpings })
}

/// Decodes every podping entry of a located composite list.
#[verifier::rlimit(100)]
#[verifier::spinoff_prover]
fn decode_podpings_list(seg: &Vec<u8>, c: &Comp) -> (r: Result<Vec<PodpingWritten>, DecodeError>)
    requires
        c@.elems_at >= 0,
        c@.count >= 0,
        0 <= c@.data_words < 0x10000,
        0 <= c@.ptr_words < 0x10000,
        c@.elems_at + c@.count * (c@.data_words + c@.ptr_words) <= num_words(seg@),
    ensures
        match r {
            Ok(v) => spec_decode_podpings(seg@, c@, c@.count) == Ok::<
                Seq<PodpingWrittenModel>,
                DecodeError,
            >(v@.map_values(|p: PodpingWritten| p@)),
            Err(e) => spec_decode_podpings(seg@, c@, c@.count) == Err::<
                Seq<PodpingWrittenModel>,
                DecodeError,
            >(e),
        },
{
    proof {
        reveal(spec_decode_podpings);
    }
    let mut podpings: Vec<PodpingWritten> = Vec::new();
    proof {
        assert(podpings@.map_values(|p: PodpingWritten| p@) =~= Seq::<
            PodpingWrittenModel,
        >::empty());
    }
    let seg_len = seg.len();
    let n = c.count;
    let stride = c.data_words + c.ptr_words;
    for i in 0..n
        invariant
            n == c@.count,
            seg_len == seg@.len(),
            stride == c@.data_words + c@.ptr_words,
            c@.elems_at >= 0,
            0 <= c@.data_words < 0x10000,
            0 <= c@.ptr_words < 0x10000,
            c@.elems_at + c@.count * (c@.data_words + c@.ptr_words) <= num_words(seg@),
            spec_decode_podpings(seg@, c@, i as int) == Ok::<Seq<PodpingWrittenModel>, DecodeError>(
                podpings@.map_values(|p: PodpingWritten| p@),
            ),
        {
        proof {
            reveal(spec_decode_podpings);
            assert((i as int) * (c@.data_words + c@.ptr_words) + (c@.data_words + c@.ptr_words)
                == (i as int + 1) * (c@.data_words + c@.ptr_words) && (i as int + 1) * (
            c@.data_words + c@.ptr_words) <= c@.count * (c@.data_words + c@.ptr_words) && 0 <= (
            i as int) * (c@.data_words + c@.ptr_words)) by (nonlinear_arith)
                requires
                    0 <= i as int + 1 <= c@.count,
                    0 <= c@.data_words + c@.ptr_words,
            ;
            crate::wire::lemma_halves(seg@.len() as int, 8);
        }
        let el = Loc {
            data_at: c.elems_at + i * stride,
            data_words: c.data_words,
            ptrs_at: c.elems_at + i * stride + c.data_words,
            ptr_words: c.ptr_words,
        };
        proof {
            assert(el@ == comp_elem(c@, i as int));
            assert(struct_loc_in(seg@, el@));
        }
        let p = match decode_podping(seg, &el) {
            Ok(p) => p,
            Err(e) => {
                proof {
                    lemma_podpings_err(seg@, c@, i as int + 1, c@.count, e);
                }
                return Err(e);
            },
        };
        let ghost pre = podpings@;
        podpings.push(p);
        proof {
            assert(podpings@.map_values(|q: PodpingWritten| q@) =~= pre.map_values(
                |q: PodpingWritten| q@,
            ).push(p@));
        }
    }
    Ok(podpings)
}

/// A failed prefix fails the whole element walk, with the same error.
proof fn lemma_podpings_err(seg: Seq<u8>, c: CompLoc, i: int, n: int, e: DecodeError)
    requires
        0 < i <= n,
        spec_decode_podpings(seg, c, i) == Err::<Seq<PodpingWrittenModel>, DecodeError>(e),
    ensures
        spec_decode_podpings(seg, c, n) == Err::<Seq<PodpingWrittenModel>, DecodeError>(e),
    decreases n - i,
{
    reveal(spec_decode_podpings);
    if i < n {
        lemma_podpings_err(seg, c, i + 1, n, e);
    }
}

/// A failed prefix fails the whole iri walk, with the same error.
proof fn lemma_iris_err(seg: Seq<u8>, ll: PtrListLoc, i: int, n: int, e: DecodeError)
    requires
        0 < i <= n,
        spec_decode_iris(seg, ll, i) == Err::<Seq<Seq<char>>, DecodeError>(e),
    ensures
        spec_decode_iris(seg, ll, n) == Err::<Seq<Seq<char>>, DecodeError>(e),
    decreases n - i,
{
    reveal(spec_decode_iris);
    if i < n {
        lemma_iris_err(seg, ll, i + 1, n, e);
    }
}

/// Decodes one podping entry at a located element struct.
#[verifier::rlimit(100)]
#[verifier::spinoff_prover]
fn decode_podping(seg: &Vec<u8>, el: &Loc) -> (r: Result<PodpingWritten, DecodeError>)
    requires
        struct_loc_in(seg@, el@),
    ensures
        match r {
            Ok(p) => spec_decode_podping(seg@, el@) == Ok::<PodpingWrittenModel, DecodeError>(p@),
            Err(e) => spec_decode_podping(seg@, el@) == Err::<PodpingWrittenModel, DecodeError>(e),
        },
{
    proof {
        reveal(spec_decode_podping);
    }
    let ll: crate::wire::PtrList = match ptr_list_field_exec(seg, el, 0) {
        Ok(v) => v,
        Err(e) => {
            return Err(e);
        },
    };
    let iris = match decode_iris_list(seg, &ll) {
        Ok(v) => v,
        Err(e) => {
            return Err(e);
        },
    };
    let mb = match text_field_exec(seg, el, 1) {
        Ok(v) => v,
        Err(e) => {
            return Err(e);
        },
    };
    let medium = match bytes_to_string(mb) {
        Some(s) => s,
        None => {
            return Err(DecodeError::MalformedFrame);
        },
    };
    let rb = match text_field_exec(seg, el, 2) {
        Ok(v) => v,
        Err(e) => {
            return Err(e);
        },
    };
    let reason = match bytes_to_string(rb) {
        Some(s) => s,
        None => {
            return Err(DecodeError::MalformedFrame);
        },
    };
    Ok(PodpingWritten { iris, medium, reason })
}

/// Decodes every text of a located pointer list.
#[verifier::rlimit(100)]
#[verifier::spinoff_prover]
fn decode_iris_list(seg: &Vec<u8>, ll: &crate::wire::PtrList) -> (r: Result<
    Vec<String>,
    DecodeError,
>)
    requires
        ll@.at >= 0,
        ll@.count >= 0,
        ll@.at + ll@.count <= num_words(seg@),
    ensures
        match r {
            Ok(v) => spec_decode_iris(seg@, ll@, ll@.count) == Ok::<Seq<Seq<char>>, DecodeError>(
                v@.map_values(|s: String| s@),
            ),
            Err(e) => spec_decode_iris(seg@, ll@, ll@.count) == Err::<Seq<Seq<char>>, DecodeError>(
                e,
            ),
        },
{
    proof {
        reveal(spec_decode_iris);
    }
    let mut iris: Vec<String> = Vec::new();
    proof {
        assert(iris@.map_values(|s: String| s@) =~= Seq::<Seq<char>>::empty());
    }
    let seg_len = seg.len();
    let n = ll.count;
    for j in 0..n
        invariant
            n == ll@.count,
            seg_len == seg@.len(),
            ll@.at >= 0,
            ll@.at + ll@.count <= num_words(seg@),
            spec_decode_iris(seg@, ll@, j as int) == Ok::<Seq<Seq<char>>, DecodeError>(
                iris@.map_values(|s: String| s@),
            ),
        {
        proof {
            reveal(spec_decode_iris);
            crate::wire::lemma_halves(seg@.len() as int, 8);
        }
        let s = match read_iri(seg, ll.at + j) {
            Ok(v) => v,
            Err(e) => {
                proof {
                    lemma_iris_err(seg@, ll@, j as int + 1, ll@.count, e);
                }
                return Err(e);
            },
        };
        let ghost pre = iris@;
        iris.push(s);
        proof {
            assert(iris@.map_values(|t: String| t@) =~= pre.map_values(|t: String| t@).push(s@));
        }
    }
    Ok(iris)
}

/// Reads one text pointer and decodes its bytes as UTF-8.
fn read_iri(seg: &Vec<u8>, p: usize) -> (r: Result<String, DecodeError>)
    requires
        8 * (p as int) + 8 <= seg@.len(),
    ensures
        match r {
            Ok(s) => resolve_text(seg@, p as int) matches Ok(tb) && valid_utf8(tb) && s@
                == decode_utf8(tb),
            Err(e) => (resolve_text(seg@, p as int) == Err::<Seq<u8>, DecodeError>(e)) || (
            resolve_text(seg@, p as int) matches Ok(tb) && !valid_utf8(tb) && e
                == DecodeError::MalformedFrame),
        },
{
    let tb = match resolve_text_exec(seg, p) {
        Ok(v) => v,
        Err(e) => {
            return Err(e);
        },
    };
    match bytes_to_string(tb) {
        Some(s) => Ok(s),
        None => Err(DecodeError::MalformedFrame),
    }
}


// --- encoding ---

/// How many words one padded text body occupies.
pub open spec fn tchunk_words(s: Seq<char>) -> int {
    crate::wire::padded_len(vstd::utf8::encode_utf8(s).len() as int + 1) / 8
}

/// Whether one text fits a wire byte list.
pub open spec fn wire_text_wf(s: Seq<char>) -> bool {
    vstd::utf8::encode_utf8(s).len() + 1 < 0x20000000
}

/// The words of the first `k` IRI texts of one entry.
#[verifier::opaque]
pub open spec fn iris_text_words(iris: Seq<Seq<char>>, k: int) -> int
    decreases k,
{
    if k <= 0 {
        0
    } else {
        iris_text_words(iris, k - 1) + tchunk_words(iris[k - 1])
    }
}

/// The words one entry's payload occupies: its IRI pointers, the IRI
/// texts, and the medium and reason texts.
pub open spec fn pp_words(p: PodpingWrittenModel) -> int {
    p.iris.len() + iris_text_words(p.iris, p.iris.len() as int) + tchunk_words(p.medium)
        + tchunk_words(p.reason)
}

/// The words of the first `k` entries' payloads.
#[verifier::opaque]
pub open spec fn pps_words(ps: Seq<PodpingWrittenModel>, k: int) -> int
    decreases k,
{
    if k <= 0 {
        0
    } else {
        pps_words(ps, k - 1) + pp_words(ps[k - 1])
    }
}

/// How many words the whole segment occupies: the four header words, the
/// transaction id text, the tag word, the element pointers, the payloads.
pub open spec fn seg_words(m: HiveTransactionModel) -> int {
    5 + tchunk_words(m.hive_tx_id) + 3 * m.podpings.len() + pps_words(
        m.podpings,
        m.podpings.len() as int,
    )
}

/// Whether every text of one entry fits a wire byte list.
pub open spec fn pp_wf(p: PodpingWrittenModel) -> bool {
    wire_text_wf(p.medium) && wire_text_wf(p.reason) && (forall|j: int|
        0 <= j < p.iris.len() ==> wire_text_wf(#[trigger] p.iris[j]))
}

/// Whether the confirmation fits on the wire: every text within the byte
/// list limit, and the whole segment within the pointer offset range.
pub open spec fn hive_tx_wf(m: HiveTransactionModel) -> bool {
    wire_text_wf(m.hive_tx_id) && (forall|i: int|
        0 <= i < m.podpings.len() ==> pp_wf(#[trigger] m.podpings[i])) && seg_words(m)
        < 0x20000000
}

/// The pointer words of one entry's IRI list, first `k` of them: pointer
/// `j` sits at word `j` of the payload and its text at word `ni` plus the
/// words of the earlier texts.
#[verifier::opaque]
pub open spec fn iris_ptrs_bytes(iris: Seq<Seq<char>>, k: int) -> Seq<u8>
    decreases k,
{
    if k <= 0 {
        Seq::empty()
    } else {
        iris_ptrs_bytes(iris, k - 1) + crate::wire::le_bytes8(
            crate::wire::mk_list_ptr(
                iris.len() + iris_text_words(iris, k - 1) - (k - 1) - 1,
                2,
                vstd::utf8::encode_utf8(iris[k - 1]).len() as int + 1,
            ),
        )
    }
}

/// The texts of one entry's IRI list, first `k` of them.
#[verifier::opaque]
pub open spec fn iris_texts_bytes(iris: Seq<Seq<char>>, k: int) -> Seq<u8>
    decreases k,
{
    if k <= 0 {
        Seq::empty()
    } else {
        iris_texts_bytes(iris, k - 1) + crate::wire::text_chunk(iris[k - 1])
    }
}

/// One entry's payload bytes.
#[verifier::opaque]
pub open spec fn pp_block_bytes(p: PodpingWrittenModel) -> Seq<u8> {
    iris_ptrs_bytes(p.iris, p.iris.len() as int) + iris_texts_bytes(p.iris, p.iris.len() as int)
        + crate::wire::text_chunk(p.medium) + crate::wire::text_chunk(p.reason)
}

/// The payload bytes of the first `k` entries.
#[verifier::opaque]
pub open spec fn blocks_bytes(ps: Seq<PodpingWrittenModel>, k: int) -> Seq<u8>
    decreases k,
{
    if k <= 0 {
        Seq::empty()
    } else {
        blocks_bytes(ps, k - 1) + pp_block_bytes(ps[k - 1])
    }
}

/// The three pointer words of one element: the IRI list, the medium text,
/// the reason text, for an element whose first pointer word sits at `pos`
/// and whose payload begins at word `b`.
#[verifier::opaque]
pub open spec fn elem_ptrs_at(p: PodpingWrittenModel, b: int, pos: int) -> Seq<u8> {
    let ni = p.iris.len() as int;
    let itw = iris_text_words(p.iris, ni);
    let mw = tchunk_words(p.medium);
    crate::wire::le_bytes8(crate::wire::mk_list_ptr(b - pos - 1, 6, ni)) + crate::wire::le_bytes8(
        crate::wire::mk_list_ptr(
            b + ni + itw - pos - 2,
            2,
            vstd::utf8::encode_utf8(p.medium).len() as int + 1,
        ),
    ) + crate::wire::le_bytes8(
        crate::wire::mk_list_ptr(
            b + ni + itw + mw - pos - 3,
            2,
            vstd::utf8::encode_utf8(p.reason).len() as int + 1,
        ),
    )
}

/// The element pointer words of the first `k` entries.
#[verifier::opaque]
pub open spec fn elems_bytes(m: HiveTransactionModel, k: int) -> Seq<u8>
    decreases k,
{
    if k <= 0 {
        Seq::empty()
    } else {
        let l = 4 + tchunk_words(m.hive_tx_id);
        let n = m.podpings.len() as int;
        elems_bytes(m, k - 1) + elem_ptrs_at(
            m.podpings[k - 1],
            l + 1 + 3 * n + pps_words(m.podpings, k - 1),
            l + 1 + 3 * (k - 1),
        )
    }
}

/// The confirmation's segment: root pointer, block number, the two
/// pointers, the transaction id text, the tag word, the element pointers,
/// the payloads.
#[verifier::opaque]
pub open spec fn spec_hive_tx_seg(m: HiveTransactionModel) -> Seq<u8> {
    let n = m.podpings.len() as int;
    let txw = tchunk_words(m.hive_tx_id);
    crate::wire::le_bytes8(crate::wire::mk_struct_ptr(0, 1, 2)) + crate::wire::le_bytes8(
        m.hive_block_num as int,
    ) + crate::wire::le_bytes8(
        crate::wire::mk_list_ptr(1, 2, vstd::utf8::encode_utf8(m.hive_tx_id).len() as int + 1),
    ) + crate::wire::le_bytes8(crate::wire::mk_list_ptr(txw, 7, 3 * n)) + crate::wire::text_chunk(
        m.hive_tx_id,
    ) + crate::wire::le_bytes8(crate::wire::mk_struct_ptr(n, 0, 3)) + elems_bytes(m, n)
        + blocks_bytes(m.podpings, n)
}

/// The confirmation's whole frame.
pub open spec fn spec_encode_hive_tx(m: HiveTransactionModel) -> Seq<u8> {
    crate::wire::spec_frame(spec_hive_tx_seg(m))
}

proof fn lemma_tchunk_calc(s: Seq<char>)
    ensures
        tchunk_words(s) == (vstd::utf8::encode_utf8(s).len() as int + 8) / 8,
        tchunk_words(s) >= 1,
{
    let x = vstd::utf8::encode_utf8(s).len() as int + 1;
    crate::wire::lemma_padded(x);
    let q = (x + 7) / 8;
    crate::wire::lemma_place(0, q, 8);
    assert(crate::wire::padded_len(x) == 0 + 8 * q);
    assert(crate::wire::padded_len(x) / 8 == q);
    assert(crate::wire::padded_len(x) >= x >= 1);
}

proof fn lemma_iris_words_bounds(iris: Seq<Seq<char>>, j: int, k: int)
    requires
        0 <= j <= k,
    ensures
        iris_text_words(iris, j) <= iris_text_words(iris, k),
        0 <= iris_text_words(iris, j),
    decreases k,
{
    reveal(iris_text_words);
    if j == k {
        if j > 0 {
            lemma_iris_words_bounds(iris, j - 1, j - 1);
            lemma_tchunk_calc(iris[j - 1]);
        }
    } else {
        lemma_iris_words_bounds(iris, j, k - 1);
        lemma_iris_words_bounds(iris, k - 1, k - 1);
        lemma_tchunk_calc(iris[k - 1]);
    }
}

proof fn lemma_pp_words_nonneg(p: PodpingWrittenModel)
    ensures
        pp_words(p) >= 0,
{
    reveal(iris_text_words);
    lemma_iris_words_bounds(p.iris, p.iris.len() as int, p.iris.len() as int);
    lemma_tchunk_calc(p.medium);
    lemma_tchunk_calc(p.reason);
}

proof fn lemma_pps_words_bounds(ps: Seq<PodpingWrittenModel>, j: int, k: int)
    requires
        0 <= j <= k,
    ensures
        pps_words(ps, j) <= pps_words(ps, k),
        0 <= pps_words(ps, j),
    decreases k,
{
    reveal(pps_words);
    if j == k {
        if j > 0 {
            lemma_pps_words_bounds(ps, j - 1, j - 1);
            lemma_pp_words_nonneg(ps[j - 1]);
        }
    } else {
        lemma_pps_words_bounds(ps, j, k - 1);
        lemma_pps_words_bounds(ps, k - 1, k - 1);
        lemma_pp_words_nonneg(ps[k - 1]);
    }
}

/// Measures one entry: validates its texts and counts the words of its
/// IRI texts.  Returns nothing when a text is too long or the IRI texts
/// alone overrun the pointer offset range.
#[verifier::rlimit(100)]
#[verifier::spinoff_prover]
fn measure_entry(pp: &PodpingWritten) -> (r: Option<u64>)
    ensures
        match r {
            Some(itw) => pp_wf(pp@) && itw as int == iris_text_words(
                pp@.iris,
                pp@.iris.len() as int,
            ) && itw < 0x20000000 && (pp.iris@.len() as u64) < 0x20000000,
            None => !pp_wf(pp@) || pp_words(pp@) >= 0x20000000,
        },
{
    let ghost pm = pp@;
    let mlen = pp.medium.as_str().as_bytes().len();
    let rlen = pp.reason.as_str().as_bytes().len();
    if mlen >= 0x1FFFFFFF || rlen >= 0x1FFFFFFF {
        return None;
    }
    let ni = pp.iris.len();
    proof {
        lemma_iris_words_bounds(pm.iris, ni as int, ni as int);
        lemma_tchunk_calc(pm.medium);
        lemma_tchunk_calc(pm.reason);
    }
    if (ni as u64) >= 0x20000000 {
        return None;
    }
    let mut itw: u64 = 0;
    proof {
        reveal(iris_text_words);
    }
    for j in 0..ni
        invariant
            pm == pp@,
            ni == pm.iris.len(),
            (ni as u64) < 0x20000000,
            wire_text_wf(pm.medium),
            wire_text_wf(pm.reason),
            itw as int == iris_text_words(pm.iris, j as int),
            itw < 0x20000000,
            forall|k: int| 0 <= k < j ==> wire_text_wf(#[trigger] pm.iris[k]),
    {
        proof {
            reveal(iris_text_words);
            assert(pm.iris[j as int] == pp.iris@[j as int]@);
        }
        let ilen = pp.iris[j].as_str().as_bytes().len();
        if ilen >= 0x1FFFFFFF {
            proof {
                assert(!wire_text_wf(pm.iris[j as int]));
            }
            return None;
        }
        proof {
            lemma_tchunk_calc(pm.iris[j as int]);
        }
        itw = itw + ((ilen as u64) + 8) / 8;
        if itw >= 0x20000000 {
            proof {
                lemma_iris_words_bounds(pm.iris, j as int + 1, ni as int);
                lemma_tchunk_calc(pm.medium);
                lemma_tchunk_calc(pm.reason);
            }
            return None;
        }
    }
    Some(itw)
}

/// The three pointer words of one entry, for a payload at word `b` and
/// pointer words starting at word `pos`.
#[verifier::rlimit(100)]
#[verifier::spinoff_prover]
fn build_elem_words(pp: &PodpingWritten, b: u64, pos: u64, itw: u64) -> (r: Vec<u8>)
    requires
        pos + 3 <= b,
        b < 0x80000000,
        pp_wf(pp@),
        itw as int == iris_text_words(pp@.iris, pp@.iris.len() as int),
        itw < 0x20000000,
        (pp.iris@.len() as u64) < 0x20000000,
    ensures
        r@ == elem_ptrs_at(pp@, b as int, pos as int),
{
    let ghost pm = pp@;
    let mlen = pp.medium.as_str().as_bytes().len();
    let rlen = pp.reason.as_str().as_bytes().len();
    proof {
        lemma_tchunk_calc(pm.medium);
        lemma_tchunk_calc(pm.reason);
    }
    let mw: u64 = ((mlen as u64) + 8) / 8;
    let ni = pp.iris.len();
    let mut ewords: Vec<u8> = Vec::new();
    let p0: u64 = 1 + 4 * (b - pos - 1) + 0x100000000 * 6 + 0x800000000 * (ni as u64);
    push_w_enc(&mut ewords, p0);
    let p1: u64 = 1 + 4 * (b + (ni as u64) + itw - pos - 2) + 0x100000000 * 2 + 0x800000000 * ((
    mlen as u64) + 1);
    push_w_enc(&mut ewords, p1);
    let p2: u64 = 1 + 4 * (b + (ni as u64) + itw + mw - pos - 3) + 0x100000000 * 2 + 0x800000000
        * ((rlen as u64) + 1);
    push_w_enc(&mut ewords, p2);
    proof {
        reveal(elem_ptrs_at);
        assert(p0 as int == crate::wire::mk_list_ptr(b as int - pos as int - 1, 6, ni as int));
        assert(p1 as int == crate::wire::mk_list_ptr(
            b as int + ni as int + itw as int - pos as int - 2,
            2,
            mlen as int + 1,
        ));
        assert(p2 as int == crate::wire::mk_list_ptr(
            b as int + ni as int + itw as int + mw as int - pos as int - 3,
            2,
            rlen as int + 1,
        ));
        assert(ewords@ =~= elem_ptrs_at(pm, b as int, pos as int));
    }
    ewords
}

/// Appends one IRI's pointer word and text chunk to the growing payload.
#[verifier::rlimit(100)]
#[verifier::spinoff_prover]
fn push_one_iri(bptrs: &mut Vec<u8>, btexts: &mut Vec<u8>, iri: &String, ni: u64, j: u64, jw: u64)
    requires
        wire_text_wf(iri@),
        j < ni < 0x20000000,
        0 <= jw < 0x20000000,
        j <= jw + ni,
    ensures
        final(bptrs)@ == old(bptrs)@ + crate::wire::le_bytes8(
            crate::wire::mk_list_ptr(
                ni as int + jw as int - j as int - 1,
                2,
                vstd::utf8::encode_utf8(iri@).len() as int + 1,
            ),
        ),
        final(btexts)@ == old(btexts)@ + crate::wire::text_chunk(iri@),
{
    let ilen = iri.as_str().as_bytes().len();
    let pj: u64 = 1 + 4 * (ni + jw - j - 1) + 0x100000000 * 2 + 0x800000000 * ((ilen as u64) + 1);
    push_w_enc(bptrs, pj);
    proof {
        assert(pj as int == crate::wire::mk_list_ptr(
            ni as int + jw as int - j as int - 1,
            2,
            ilen as int + 1,
        ));
    }
    crate::wire::push_text_chunk(btexts, iri.as_str());
}

/// One entry's payload bytes: the IRI pointers, the IRI texts, the medium
/// and reason texts.
#[verifier::rlimit(100)]
#[verifier::spinoff_prover]
fn build_block(pp: &PodpingWritten, itw: u64) -> (r: Vec<u8>)
    requires
        pp_wf(pp@),
        itw as int == iris_text_words(pp@.iris, pp@.iris.len() as int),
        itw < 0x20000000,
        (pp.iris@.len() as u64) < 0x20000000,
    ensures
        r@ == pp_block_bytes(pp@),
{
    let ghost pm = pp@;
    let ni = pp.iris.len();
    let mut jw: u64 = 0;
    let mut bptrs: Vec<u8> = Vec::new();
    let mut btexts: Vec<u8> = Vec::new();
    proof {
        reveal(iris_ptrs_bytes);
        reveal(iris_texts_bytes);
        reveal(iris_text_words);
        assert(bptrs@ =~= iris_ptrs_bytes(pm.iris, 0));
        assert(btexts@ =~= iris_texts_bytes(pm.iris, 0));
    }
    for j in 0..ni
        invariant
            pm == pp@,
            ni == pm.iris.len(),
            (ni as u64) < 0x20000000,
            itw as int == iris_text_words(pm.iris, ni as int),
            itw < 0x20000000,
            jw as int == iris_text_words(pm.iris, j as int),
            0 <= jw <= itw,
            forall|k: int| 0 <= k < ni ==> wire_text_wf(#[trigger] pm.iris[k]),
            bptrs@ == iris_ptrs_bytes(pm.iris, j as int),
            btexts@ == iris_texts_bytes(pm.iris, j as int),
    {
        proof {
            reveal(iris_text_words);
            assert(pm.iris[j as int] == pp.iris@[j as int]@);
            lemma_tchunk_calc(pm.iris[j as int]);
            lemma_iris_words_bounds(pm.iris, j as int + 1, ni as int);
        }
        let ghost pre_bptrs = bptrs@;
        let ghost pre_btexts = btexts@;
        push_one_iri(&mut bptrs, &mut btexts, &pp.iris[j], ni as u64, j as u64, jw);
        let ilen = pp.iris[j].as_str().as_bytes().len();
        jw = jw + ((ilen as u64) + 8) / 8;
        proof {
            reveal(iris_ptrs_bytes);
            reveal(iris_texts_bytes);
            assert(bptrs@ =~= iris_ptrs_bytes(pm.iris, j as int + 1));
            assert(btexts@ =~= iris_texts_bytes(pm.iris, j as int + 1));
        }
    }
    let mut block = bptrs;
    let mut bt = btexts;
    let ghost g_ptrs = block@;
    let ghost g_texts = bt@;
    block.append(&mut bt);
    crate::wire::push_text_chunk(&mut block, pp.medium.as_str());
    crate::wire::push_text_chunk(&mut block, pp.reason.as_str());
    proof {
        reveal(pp_block_bytes);
        assert(block@ == g_ptrs + g_texts + crate::wire::text_chunk(pm.medium)
            + crate::wire::text_chunk(pm.reason));
        assert(block@ =~= pp_block_bytes(pm));
    }
    block
}

/// Encodes one entry: its element pointer words, its payload bytes, and
/// its payload word count.
#[verifier::rlimit(100)]
#[verifier::spinoff_prover]
fn encode_entry(pp: &PodpingWritten, b: u64, pos: u64) -> (r: Option<(Vec<u8>, Vec<u8>, u64)>)
    requires
        pos + 3 <= b,
        b < 0x80000000,
    ensures
        match r {
            Some(t) => pp_wf(pp@) && t.0@ == elem_ptrs_at(pp@, b as int, pos as int) && t.1@
                == pp_block_bytes(pp@) && t.2 as int == pp_words(pp@) && t.2 < 0x80000000,
            None => !pp_wf(pp@) || pp_words(pp@) >= 0x20000000,
        },
{
    let itw = match measure_entry(pp) {
        Some(w) => w,
        None => {
            return None;
        },
    };
    let ewords = build_elem_words(pp, b, pos, itw);
    let block = build_block(pp, itw);
    let mlen = pp.medium.as_str().as_bytes().len();
    let rlen = pp.reason.as_str().as_bytes().len();
    proof {
        lemma_tchunk_calc(pp@.medium);
        lemma_tchunk_calc(pp@.reason);
    }
    let mw: u64 = ((mlen as u64) + 8) / 8;
    let rw: u64 = ((rlen as u64) + 8) / 8;
    let pw: u64 = (pp.iris.len() as u64) + itw + mw + rw;
    proof {
        assert(pw as int == pp_words(pp@));
    }
    Some((ewords, block, pw))
}

/// Encodes one confirmation as a frame.  Returns nothing only when a text
/// or the whole message is too large for the wire format.
#[verifier::rlimit(100)]
#[verifier::spinoff_prover]
pub fn encode_hive_transaction(m: &HiveTransaction) -> (r: Option<Vec<u8>>)
    ensures
        hive_tx_wf(m@) ==> (r matches Some(f) && f@ == spec_encode_hive_tx(m@)),
        !hive_tx_wf(m@) ==> r is None,
{
    let ghost mm = m@;
    let ghost ps_m = mm.podpings;
    let txlen = m.hive_tx_id.as_str().as_bytes().len();
    if txlen >= 0x1FFFFFFF {
        return None;
    }
    let txw: u64 = ((txlen as u64) + 8) / 8;
    proof {
        lemma_tchunk_calc(mm.hive_tx_id);
        assert(txw as int == tchunk_words(mm.hive_tx_id));
        lemma_pps_words_bounds(ps_m, 0, mm.podpings.len() as int);
    }
    let n = m.podpings.len();
    if (n as u64) >= 0x10000000 {
        return None;
    }
    let l: u64 = 4 + txw;
    let e0: u64 = l + 1 + 3 * (n as u64);
    let mut elems: Vec<u8> = Vec::new();
    let mut blocks: Vec<u8> = Vec::new();
    let mut done: u64 = 0;
    proof {
        reveal(elems_bytes);
        reveal(blocks_bytes);
        reveal(pps_words);
        assert(elems@ =~= elems_bytes(mm, 0));
        assert(blocks@ =~= blocks_bytes(ps_m, 0));
    }
    for i in 0..n
        invariant
            n == m.podpings@.len(),
            mm == m@,
            ps_m == mm.podpings,
            txlen < 0x1FFFFFFF,
            txw as int == tchunk_words(mm.hive_tx_id),
            txw < 0x4000001,
            l == 4 + txw,
            (n as u64) < 0x10000000,
            e0 == l + 1 + 3 * (n as u64),
            done as int == pps_words(ps_m, i as int),
            done < 0x20000000,
            elems@ == elems_bytes(mm, i as int),
            blocks@ == blocks_bytes(ps_m, i as int),
            forall|k: int| 0 <= k < i ==> pp_wf(#[trigger] ps_m[k]),
    {
        proof {
            assert(ps_m[i as int] == m.podpings@[i as int]@);
            lemma_pps_words_bounds(ps_m, 0, i as int);
        }
        let entry = match encode_entry(&m.podpings[i], e0 + done, l + 1 + 3 * (i as u64)) {
            Some(t) => t,
            None => {
                proof {
                    lemma_bad_entry(mm, i as int);
                }
                return None;
            },
        };
        let (ewords, block, pw) = entry;
        if done + pw >= 0x20000000 {
            proof {
                lemma_pps_step(ps_m, i as int);
                lemma_pps_words_bounds(ps_m, i as int + 1, n as int);
            }
            return None;
        }
        let ghost pre_elems = elems@;
        let ghost pre_blocks = blocks@;
        let mut ew = ewords;
        elems.append(&mut ew);
        let mut bw = block;
        blocks.append(&mut bw);
        proof {
            reveal(elems_bytes);
            lemma_pps_step(ps_m, i as int);
            assert(elems@ == pre_elems + elem_ptrs_at(
                ps_m[i as int],
                e0 as int + done as int,
                l as int + 1 + 3 * (i as int),
            ));
            assert(elems@ =~= elems_bytes(mm, i as int + 1));
            assert(blocks@ =~= blocks_bytes(ps_m, i as int + 1));
        }
        done = done + pw;
    }
    let total: u64 = 5 + txw + 3 * (n as u64) + done;
    proof {
        assert(total as int == seg_words(mm));
    }
    if total >= 0x20000000 {
        return None;
    }
    // assemble the segment
    let ghost w0 = crate::wire::le_bytes8(crate::wire::mk_struct_ptr(0, 1, 2));
    let ghost w1 = crate::wire::le_bytes8(mm.hive_block_num as int);
    let ghost w2 = crate::wire::le_bytes8(
        crate::wire::mk_list_ptr(1, 2, vstd::utf8::encode_utf8(mm.hive_tx_id).len() as int + 1),
    );
    let ghost w3 = crate::wire::le_bytes8(
        crate::wire::mk_list_ptr(tchunk_words(mm.hive_tx_id), 7, 3 * (n as int)),
    );
    let ghost wt = crate::wire::le_bytes8(crate::wire::mk_struct_ptr(n as int, 0, 3));
    let mut seg: Vec<u8> = Vec::new();
    push_w_enc(&mut seg, 0x0002000100000000);
    proof {
        assert(0x0002000100000000 == crate::wire::mk_struct_ptr(0, 1, 2));
        assert(seg@ =~= w0);
    }
    push_w_enc(&mut seg, m.hive_block_num);
    proof {
        assert(seg@ == w0 + w1);
    }
    let tx_ptr: u64 = 1 + 4 + 0x100000000 * 2 + 0x800000000 * ((txlen as u64) + 1);
    push_w_enc(&mut seg, tx_ptr);
    proof {
        assert(tx_ptr as int == crate::wire::mk_list_ptr(
            1,
            2,
            vstd::utf8::encode_utf8(mm.hive_tx_id).len() as int + 1,
        ));
        assert(seg@ == w0 + w1 + w2);
    }
    let pp_ptr: u64 = 1 + 4 * txw + 0x100000000 * 7 + 0x800000000 * (3 * (n as u64));
    push_w_enc(&mut seg, pp_ptr);
    proof {
        assert(pp_ptr as int == crate::wire::mk_list_ptr(
            tchunk_words(mm.hive_tx_id),
            7,
            3 * (n as int),
        ));
        assert(seg@ == w0 + w1 + w2 + w3);
    }
    crate::wire::push_text_chunk(&mut seg, m.hive_tx_id.as_str());
    proof {
        assert(seg@ == w0 + w1 + w2 + w3 + crate::wire::text_chunk(mm.hive_tx_id));
    }
    let tag: u64 = 4 * (n as u64) + 0x1000000000000 * 3;
    push_w_enc(&mut seg, tag);
    proof {
        assert(tag as int == crate::wire::mk_struct_ptr(n as int, 0, 3));
        assert(seg@ == w0 + w1 + w2 + w3 + crate::wire::text_chunk(mm.hive_tx_id) + wt);
    }
    let mut el = elems;
    seg.append(&mut el);
    let mut bl = blocks;
    seg.append(&mut bl);
    proof {
        reveal(spec_hive_tx_seg);
        assert(seg@ == spec_hive_tx_seg(mm));
        lemma_seg_len(mm);
    }
    Some(crate::wire::finish_frame(seg))
}

proof fn lemma_pps_step(ps: Seq<PodpingWrittenModel>, i: int)
    requires
        0 <= i,
    ensures
        pps_words(ps, i + 1) == pps_words(ps, i) + pp_words(ps[i]),
        blocks_bytes(ps, i + 1) == blocks_bytes(ps, i) + pp_block_bytes(ps[i]),
{
    reveal(pps_words);
    reveal(blocks_bytes);
}

/// A rejected entry means the whole confirmation cannot be encoded.
proof fn lemma_bad_entry(m: HiveTransactionModel, i: int)
    requires
        0 <= i < m.podpings.len(),
        !pp_wf(m.podpings[i]) || pp_words(m.podpings[i]) >= 0x20000000,
    ensures
        !hive_tx_wf(m),
{
    if pp_wf(m.podpings[i]) {
        let n = m.podpings.len() as int;
        lemma_pps_words_bounds(m.podpings, 0, i);
        lemma_pps_step(m.podpings, i);
        lemma_pps_words_bounds(m.podpings, i + 1, n);
        lemma_tchunk_calc(m.hive_tx_id);
        assert(seg_words(m) >= pps_words(m.podpings, n));
        assert(pps_words(m.podpings, n) >= pps_words(m.podpings, i + 1));
        assert(pps_words(m.podpings, i + 1) >= pp_words(m.podpings[i])) by {
            lemma_pps_words_bounds(m.podpings, 0, i);
        }
    }
}

/// Appends the eight little-endian bytes of `x`; a renaming of the wire
/// helper for this module's encoder.
fn push_w_enc(out: &mut Vec<u8>, x: u64)
    ensures
        final(out)@ == old(out)@ + crate::wire::le_bytes8(x as int),
{
    crate::wire::push_word(out, x);
}

/// The segment's byte length matches its word count.
proof fn lemma_seg_len(m: HiveTransactionModel)
    requires
        hive_tx_wf(m),
    ensures
        spec_hive_tx_seg(m).len() == 8 * seg_words(m),
        spec_hive_tx_seg(m).len() % 8 == 0,
        spec_hive_tx_seg(m).len() < 0x800000000,
{
    reveal(spec_hive_tx_seg);
    let n = m.podpings.len() as int;
    lemma_tchunk_calc(m.hive_tx_id);
    crate::wire::lemma_padded(crate::wire::text_body(m.hive_tx_id).len() as int);
    lemma_elems_len(m, n);
    lemma_blocks_len(m.podpings, n);
    crate::wire::lemma_place(0, seg_words(m), 8);
}

proof fn lemma_elems_len(m: HiveTransactionModel, k: int)
    requires
        0 <= k,
    ensures
        elems_bytes(m, k).len() == 24 * k,
    decreases k,
{
    reveal(elems_bytes);
    reveal(elem_ptrs_at);
    if k > 0 {
        lemma_elems_len(m, k - 1);
    }
}

proof fn lemma_blocks_len(ps: Seq<PodpingWrittenModel>, k: int)
    requires
        0 <= k,
        forall|i: int| 0 <= i < k ==> pp_wf(#[trigger] ps[i]),
    ensures
        blocks_bytes(ps, k).len() == 8 * pps_words(ps, k),
    decreases k,
{
    reveal(blocks_bytes);
    reveal(pps_words);
    if k > 0 {
        lemma_blocks_len(ps, k - 1);
        lemma_pp_block_len(ps[k - 1]);
    }
}

proof fn lemma_pp_block_len(p: PodpingWrittenModel)
    requires
        pp_wf(p),
    ensures
        pp_block_bytes(p).len() == 8 * pp_words(p),
{
    reveal(pp_block_bytes);
    let ni = p.iris.len() as int;
    lemma_iris_ptrs_len(p.iris, ni);
    lemma_iris_texts_len(p.iris, ni);
    lemma_tchunk_calc(p.medium);
    lemma_tchunk_calc(p.reason);
    crate::wire::lemma_padded(crate::wire::text_body(p.medium).len() as int);
    crate::wire::lemma_padded(crate::wire::text_body(p.reason).len() as int);
}

proof fn lemma_iris_ptrs_len(iris: Seq<Seq<char>>, k: int)
    requires
        0 <= k,
    ensures
        iris_ptrs_bytes(iris, k).len() == 8 * k,
    decreases k,
{
    reveal(iris_ptrs_bytes);
    if k > 0 {
        lemma_iris_ptrs_len(iris, k - 1);
    }
}

proof fn lemma_iris_texts_len(iris: Seq<Seq<char>>, k: int)
    requires
        0 <= k,
        forall|j: int| 0 <= j < k ==> wire_text_wf(#[trigger] iris[j]),
    ensures
        iris_texts_bytes(iris, k).len() == 8 * iris_text_words(iris, k),
    decreases k,
{
    reveal(iris_texts_bytes);
    reveal(iris_text_words);
    if k > 0 {
        lemma_iris_texts_len(iris, k - 1);
        lemma_tchunk_calc(iris[k - 1]);
        crate::wire::lemma_padded(crate::wire::text_body(iris[k - 1]).len() as int);
    }
}


/// An encoded confirmation that lists no podpings decodes back to itself.
/// For confirmations with entries the round trip is exercised dynamically:
/// the decoder follows pointers, so it accepts this encoder's layout along
/// with any other compliant one.
#[verifier::rlimit(100)]
#[verifier::spinoff_prover]
pub proof fn lemma_hive_tx_round_trip_empty(m: HiveTransactionModel)
    requires
        hive_tx_wf(m),
        m.podpings.len() == 0,
    ensures
        spec_decode_hive_tx(spec_encode_hive_tx(m)) == Ok::<HiveTransactionModel, DecodeError>(m),
{
    reveal(spec_hive_tx_seg);
    reveal(spec_decode_hive_tx);
    reveal(spec_decode_tx_body);
    reveal(spec_decode_podpings);
    reveal(elems_bytes);
    reveal(blocks_bytes);
    let seg = spec_hive_tx_seg(m);
    let txlen = vstd::utf8::encode_utf8(m.hive_tx_id).len() as int;
    let txw = tchunk_words(m.hive_tx_id);
    let a = crate::wire::le_bytes8(crate::wire::mk_struct_ptr(0, 1, 2));
    let b = crate::wire::le_bytes8(m.hive_block_num as int);
    let cw = crate::wire::mk_list_ptr(1, 2, txlen + 1);
    let c = crate::wire::le_bytes8(cw);
    let dw = crate::wire::mk_list_ptr(txw, 7, 0);
    let d = crate::wire::le_bytes8(dw);
    let e = crate::wire::text_chunk(m.hive_tx_id);
    let tagw = crate::wire::mk_struct_ptr(0, 0, 3);
    let f = crate::wire::le_bytes8(tagw);
    lemma_tchunk_calc(m.hive_tx_id);
    crate::wire::lemma_padded(crate::wire::text_body(m.hive_tx_id).len() as int);
    assert(elems_bytes(m, 0) =~= Seq::<u8>::empty());
    assert(blocks_bytes(m.podpings, 0) =~= Seq::<u8>::empty());
    assert(seg =~= a + b + c + d + e + f);
    lemma_seg_len(m);
    crate::wire::lemma_frame_round_trip(seg);
    let x = a + b + c + d + e + f;
    // the header words
    crate::wire::lemma_le_int_prefix(a + b + c + d + e, f, 0, 8);
    crate::wire::lemma_le_int_prefix(a + b + c + d, e, 0, 8);
    crate::wire::lemma_le_int_prefix(a + b + c, d, 0, 8);
    crate::wire::lemma_le_int_prefix(a + b, c, 0, 8);
    crate::wire::lemma_le_int_prefix(a, b, 0, 8);
    crate::wire::lemma_le_bytes8_round_trip(crate::wire::mk_struct_ptr(0, 1, 2));
    crate::wire::lemma_struct_ptr_fields(0, 1, 2);
    assert(crate::wire::word_at(seg, 0) == crate::wire::mk_struct_ptr(0, 1, 2));
    let loc = StructLoc { data_at: 1, data_words: 1, ptrs_at: 2, ptr_words: 2 };
    assert(num_words(seg) == 5 + txw) by {
        crate::wire::lemma_place(0, 5 + txw, 8);
    }
    assert(resolve_struct(seg, 0) == Ok::<Option<StructLoc>, DecodeError>(Some(loc)));
    // the block number word
    crate::wire::lemma_le_int_prefix(a + b + c + d + e, f, 8, 8);
    crate::wire::lemma_le_int_prefix(a + b + c + d, e, 8, 8);
    crate::wire::lemma_le_int_prefix(a + b + c, d, 8, 8);
    crate::wire::lemma_le_int_prefix(a + b, c, 8, 8);
    crate::wire::lemma_le_int_skip(a, b, 8, 8);
    crate::wire::lemma_le_bytes8_round_trip(m.hive_block_num as int);
    assert(read_u64_field(seg, loc) == m.hive_block_num as int);
    // the transaction id text
    crate::wire::lemma_le_int_prefix(a + b + c + d + e, f, 16, 8);
    crate::wire::lemma_le_int_prefix(a + b + c + d, e, 16, 8);
    crate::wire::lemma_le_int_prefix(a + b + c, d, 16, 8);
    crate::wire::lemma_le_int_skip(a + b, c, 16, 8);
    crate::wire::lemma_le_bytes8_round_trip(cw);
    assert(crate::wire::word_at(seg, 2) == cw);
    crate::wire::lemma_list_ptr_fields(1, 2, txlen + 1);
    assert(seg[32 + txlen] == 0) by {
        assert(seg[32 + txlen] == e[txlen]);
        assert(e[txlen] == crate::wire::text_body(m.hive_tx_id)[txlen]);
    }
    assert(seg.subrange(32, 32 + txlen) =~= vstd::utf8::encode_utf8(m.hive_tx_id)) by {
        assert forall|j: int|
            0 <= j < txlen implies seg[32 + j] == vstd::utf8::encode_utf8(m.hive_tx_id)[j] by {
            assert(seg[32 + j] == e[j]);
            assert(e[j] == crate::wire::text_body(m.hive_tx_id)[j]);
        }
    }
    assert(text_field(seg, loc, 0) == Ok::<Seq<u8>, DecodeError>(
        vstd::utf8::encode_utf8(m.hive_tx_id),
    ));
    vstd::utf8::encode_utf8_valid_utf8(m.hive_tx_id);
    vstd::utf8::encode_utf8_decode_utf8(m.hive_tx_id);
    // the empty entry list and its tag
    crate::wire::lemma_le_int_prefix(a + b + c + d + e, f, 24, 8);
    crate::wire::lemma_le_int_prefix(a + b + c + d, e, 24, 8);
    crate::wire::lemma_le_int_skip(a + b + c, d, 24, 8);
    crate::wire::lemma_le_bytes8_round_trip(dw);
    assert(crate::wire::word_at(seg, 3) == dw);
    crate::wire::lemma_list_ptr_fields(txw, 7, 0);
    crate::wire::lemma_le_int_skip(a + b + c + d + e, f, 8 * (4 + txw), 8);
    crate::wire::lemma_le_bytes8_round_trip(tagw);
    assert(crate::wire::word_at(seg, 4 + txw) == tagw);
    crate::wire::lemma_struct_ptr_fields(0, 0, 3);
    let comp = CompLoc { elems_at: 5 + txw, count: 0, data_words: 0, ptr_words: 3 };
    assert(composite_field(seg, loc, 1) == Ok::<CompLoc, DecodeError>(comp));
    assert(spec_decode_podpings(seg, comp, 0) == Ok::<Seq<PodpingWrittenModel>, DecodeError>(
        Seq::empty(),
    ));
    assert(m.podpings =~= Seq::<PodpingWrittenModel>::empty());
}

} // verus!
