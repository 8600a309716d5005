//! The writer's per-item failure reply: the write request it has given up
//! on, and a human-readable message.

use vstd::prelude::*;
use crate::req_text::{ReqTextModel, decode_req_text, encode_req_text, lemma_req_text_round_trip,
    req_text_wf, spec_decode_req_text, spec_encode_req_text};
use crate::wire::DecodeError;
use crate::write_msg::{WriteRequest, WriteRequestModel};

verus! {

/// A failure reply: the request that failed, when the writer attached it,
/// and its message.
pub struct WriteError {
    pub podping_write: Option<WriteRequest>,
    pub error_message: String,
}

/// The mathematical shape of a failure reply.
pub ghost struct WriteErrorModel {
    pub podping_write: Option<WriteRequestModel>,
    pub error_message: Seq<char>,
}

impl View for WriteError {
    type V = WriteErrorModel;

    open spec fn view(&self) -> WriteErrorModel {
        WriteErrorModel {
            podping_write: match self.podping_write {
                None => None,
                Some(w) => Some(w@),
            },
            error_message: self.error_message@,
        }
    }
}

/// The reply as the shared pair shape.
pub open spec fn pair_of_write_error(m: WriteErrorModel) -> ReqTextModel {
    ReqTextModel { req: m.podping_write, text: m.error_message }
}

/// Whether the reply fits on the wire.
pub open spec fn write_error_wf(m: WriteErrorModel) -> bool {
    req_text_wf(pair_of_write_error(m))
}

/// The reply's whole frame.
pub open spec fn spec_encode_write_error(m: WriteErrorModel) -> Seq<u8> {
    spec_encode_req_text(pair_of_write_error(m))
}

/// What a frame decodes to as a failure reply, or why it is rejected.
pub open spec fn spec_decode_write_error(bytes: Seq<u8>) -> Result<WriteErrorModel, DecodeError> {
    match spec_decode_req_text(bytes) {
        Err(e) => Err(e),
        Ok(p) => Ok(WriteErrorModel { podping_write: p.req, error_message: p.text }),
    }
}

/// Encodes one failure reply as a frame.  Returns nothing only when a text
/// is too long for the wire format.
pub fn encode_write_error(m: &WriteError) -> (r: Option<Vec<u8>>)
    ensures
        write_error_wf(m@) ==> (r matches Some(f) && f@ == spec_encode_write_error(m@)),
        !write_error_wf(m@) ==> r is None,
{
    encode_req_text(&m.podping_write, &m.error_message)
}

/// Decodes a frame as a failure reply.
pub fn decode_write_error(bytes: &Vec<u8>) -> (r: Result<WriteError, DecodeError>)
    ensures
        match r {
            Ok(m) => spec_decode_write_error(bytes@) == Ok::<WriteErrorModel, DecodeError>(m@),
            Err(e) => spec_decode_write_error(bytes@) == Err::<WriteErrorModel, DecodeError>(e),
        },
{
    match decode_req_text(bytes) {
        Ok(p) => Ok(WriteError { podping_write: p.0, error_message: p.1 }),
        Err(e) => Err(e),
    }
}

/// An encoded failure reply decodes to the reply it was built from.
pub proof fn lemma_write_error_round_trip(m: WriteErrorModel)
    requires
        write_error_wf(m),
    ensures
        spec_decode_write_error(spec_encode_write_error(m)) == Ok::<WriteErrorModel, DecodeError>(
            m,
        ),
{
    lemma_req_text_round_trip(pair_of_write_error(m));
}

} // verus!
