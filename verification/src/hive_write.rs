//! The announcement that a write is being committed under a ledger
//! account: the write request and the account name.

use vstd::prelude::*;
use vstd::string::StrSliceExecFns;
use crate::req_text::{ReqTextModel, decode_req_text, encode_req_text, lemma_req_text_round_trip,
    req_text_wf, spec_decode_req_text, spec_encode_req_text};
use crate::wire::DecodeError;
use crate::write_msg::{WriteRequest, WriteRequestModel};

verus! {

/// The mathematical shape of the announcement.
pub ghost struct HiveWriteModel {
    pub podping_write: Option<WriteRequestModel>,
    pub hive_account: Seq<char>,
}

/// The view of an optional write request.
pub open spec fn opt_req_view(o: Option<WriteRequest>) -> Option<WriteRequestModel> {
    match o {
        None => None,
        Some(w) => Some(w@),
    }
}

/// An announcement being put together before encoding.
pub struct Builder {
    podping_write: Option<WriteRequest>,
    hive_account: String,
}

/// An announcement read back out of a frame.
pub struct Reader {
    podping_write: Option<WriteRequest>,
    hive_account: String,
}

impl View for Builder {
    type V = HiveWriteModel;

    closed spec fn view(&self) -> HiveWriteModel {
        HiveWriteModel {
            podping_write: opt_req_view(self.podping_write),
            hive_account: self.hive_account@,
        }
    }
}

impl View for Reader {
    type V = HiveWriteModel;

    closed spec fn view(&self) -> HiveWriteModel {
        HiveWriteModel {
            podping_write: opt_req_view(self.podping_write),
            hive_account: self.hive_account@,
        }
    }
}

impl Builder {
    /// An announcement with no write request and an empty account.
    pub fn new() -> (b: Builder)
        ensures
            b@.podping_write is None,
            b@.hive_account == Seq::<char>::empty(),
    {
        Builder { podping_write: None, hive_account: String::new() }
    }

    /// Sets the embedded write request.
    pub fn set_podping_write(&mut self, w: WriteRequest)
        ensures
            final(self)@.podping_write == Some(w@),
            final(self)@.hive_account == old(self)@.hive_account,
    {
        self.podping_write = Some(w);
    }

    /// Sets the account name.
    pub fn set_hive_account(&mut self, v: String)
        ensures
            final(self)@.hive_account == v@,
            final(self)@.podping_write == old(self)@.podping_write,
    {
        self.hive_account = v;
    }

    /// The embedded write request, as set so far.
    pub fn get_podping_write(&self) -> (r: &Option<WriteRequest>)
        ensures
            opt_req_view(*r) == self@.podping_write,
    {
        &self.podping_write
    }

    /// The account name as set so far.
    pub fn get_hive_account(&self) -> (r: &String)
        ensures
            r@ == self@.hive_account,
    {
        &self.hive_account
    }

    /// Whether a write request has been set.
    pub fn has_podping_write(&self) -> (r: bool)
        ensures
            r == (self@.podping_write is Some),
    {
        self.podping_write.is_some()
    }

    /// Whether a non-empty account name has been set.
    pub fn has_hive_account(&self) -> (r: bool)
        ensures
            r == (self@.hive_account.len() > 0),
    {
        self.hive_account.as_str().unicode_len() > 0
    }

    /// Freezes the builder into a reader over the same values.
    pub fn into_reader(self) -> (r: Reader)
        ensures
            r@ == self@,
    {
        Reader { podping_write: self.podping_write, hive_account: self.hive_account }
    }
}

impl Reader {
    /// The embedded write request, when the announcement carries one.
    pub fn get_podping_write(&self) -> (r: &Option<WriteRequest>)
        ensures
            opt_req_view(*r) == self@.podping_write,
    {
        &self.podping_write
    }

    /// The account name.
    pub fn get_hive_account(&self) -> (r: &String)
        ensures
            r@ == self@.hive_account,
    {
        &self.hive_account
    }

    /// Whether the announcement carries a write request.
    pub fn has_podping_write(&self) -> (r: bool)
        ensures
            r == (self@.podping_write is Some),
    {
        self.podping_write.is_some()
    }

    /// Whether the announcement carries a non-empty account name.
    pub fn has_hive_account(&self) -> (r: bool)
        ensures
            r == (self@.hive_account.len() > 0),
    {
        self.hive_account.as_str().unicode_len() > 0
    }
}

/// The announcement as the shared pair shape.
pub open spec fn pair_of_hive_write(m: HiveWriteModel) -> ReqTextModel {
    ReqTextModel { req: m.podping_write, text: m.hive_account }
}

/// Whether the announcement fits on the wire.
pub open spec fn hive_write_wf(m: HiveWriteModel) -> bool {
    req_text_wf(pair_of_hive_write(m))
}

/// The announcement's whole frame.
pub open spec fn spec_encode_hive_write(m: HiveWriteModel) -> Seq<u8> {
    spec_encode_req_text(pair_of_hive_write(m))
}

/// What a frame decodes to as an announcement, or why it is rejected.
pub open spec fn spec_decode_hive_write(bytes: Seq<u8>) -> Result<HiveWriteModel, DecodeError> {
    match spec_decode_req_text(bytes) {
        Err(e) => Err(e),
        Ok(p) => Ok(HiveWriteModel { podping_write: p.req, hive_account: p.text }),
    }
}

/// Encodes one announcement as a frame.  Returns nothing only when a text
/// is too long for the wire format.
pub fn encode_hive_write(b: &Builder) -> (r: Option<Vec<u8>>)
    ensures
        hive_write_wf(b@) ==> (r matches Some(f) && f@ == spec_encode_hive_write(b@)),
        !hive_write_wf(b@) ==> r is None,
{
    encode_req_text(&b.podping_write, &b.hive_account)
}

/// Decodes a frame as an announcement.
pub fn decode_hive_write(bytes: &Vec<u8>) -> (r: Result<Reader, DecodeError>)
    ensures
        match r {
            Ok(m) => spec_decode_hive_write(bytes@) == Ok::<HiveWriteModel, DecodeError>(m@),
            Err(e) => spec_decode_hive_write(bytes@) == Err::<HiveWriteModel, DecodeError>(e),
        },
{
    match decode_req_text(bytes) {
        Ok(p) => Ok(Reader { podping_write: p.0, hive_account: p.1 }),
        Err(e) => Err(e),
    }
}

/// An encoded announcement decodes to the announcement it was built from.
pub proof fn lemma_hive_write_round_trip(m: HiveWriteModel)
    requires
        hive_write_wf(m),
    ensures
        spec_decode_hive_write(spec_encode_hive_write(m)) == Ok::<HiveWriteModel, DecodeError>(m),
{
    lemma_req_text_round_trip(pair_of_hive_write(m));
}

} // verus!
