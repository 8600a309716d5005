//! The forwarder's decisions: framing one notification for the writer, and
//! reconciling one reply frame against the queue.
//!
//! The surrounding loop — reset stale rows, drain replies, select a batch,
//! send each notification and mark it inflight, pace itself — performs
//! socket work and sleeps, so it lives outside the library and calls in
//! here for every decision that touches data.

use vstd::prelude::*;
use vstd::string::StringExecFns;
use crate::envelope::{Builder, EnvelopeModel, decode_envelope, encode_envelope, envelope_wf,
    spec_decode_envelope, spec_encode_envelope};
use crate::hive_tx::{HiveTransactionModel, PodpingWrittenModel, decode_hive_transaction,
    spec_decode_hive_tx};
use crate::msg::{Ping, PingModel};
use crate::store::{QueueStore, RowModel, spec_delete_url, wf_rows};
use crate::text::str_eq;
use crate::wire::DecodeError;
use crate::write_error::{decode_write_error, spec_decode_write_error};
use crate::write_msg::{WriteRequest, WriteRequestModel, encode_write_request, spec_encode_write,
    write_wf};

verus! {

/// The envelope type name of an outbound write request.
pub fn write_type_name() -> (r: &'static str)
    ensures
        r@ == "org.podcastindex.podping.hivewriter.PodpingWrite.capnp"@,
{
    "org.podcastindex.podping.hivewriter.PodpingWrite.capnp"
}

/// The envelope type name of a per-item failure reply.
pub fn write_error_type_name() -> (r: &'static str)
    ensures
        r@ == "org.podcastindex.podping.hivewriter.PodpingWriteError.capnp"@,
{
    "org.podcastindex.podping.hivewriter.PodpingWriteError.capnp"
}

/// The envelope type name of a ledger confirmation reply.
pub fn hive_transaction_type_name() -> (r: &'static str)
    ensures
        r@ == "org.podcastindex.podping.hivewriter.PodpingHiveTransaction.capnp"@,
{
    "org.podcastindex.podping.hivewriter.PodpingHiveTransaction.capnp"
}

/// The write request a notification is sent as.
pub open spec fn request_of_ping(p: PingModel) -> WriteRequestModel {
    WriteRequestModel { iri: p.url, reason: p.reason, medium: p.medium }
}

/// The envelope a notification is sent in: the write type name over the
/// framed write request.
pub open spec fn spec_write_envelope(p: PingModel) -> EnvelopeModel {
    EnvelopeModel {
        name: "org.podcastindex.podping.hivewriter.PodpingWrite.capnp"@,
        payload: spec_encode_write(request_of_ping(p)),
    }
}

/// Whether a notification fits on the wire.
pub open spec fn spec_can_send(p: PingModel) -> bool {
    write_wf(request_of_ping(p)) && envelope_wf(spec_write_envelope(p))
}

/// The full frame a notification is sent as.
pub open spec fn spec_write_frame(p: PingModel) -> Seq<u8> {
    spec_encode_envelope(spec_write_envelope(p))
}

/// Frames one notification for the writer: its write request, framed and
/// wrapped in an envelope under the write type name.  Returns nothing only
/// when the URL is too long for the wire format.
pub fn build_write_frame(ping: &Ping) -> (r: Option<Vec<u8>>)
    ensures
        spec_can_send(ping@) ==> (r matches Some(f) && f@ == spec_write_frame(ping@)),
        !spec_can_send(ping@) ==> r is None,
{
    let wreq = WriteRequest { iri: ping.url.clone(), reason: ping.reason, medium: ping.medium };
    let payload = match encode_write_request(&wreq) {
        Some(p) => p,
        None => {
            return None;
        },
    };
    let mut b = Builder::new();
    b.set_type_name(String::from_str(write_type_name()));
    b.set_payload(payload);
    encode_envelope(&b)
}


/// One decoded inner message, routed by its envelope type name.
pub enum InnerMessage {
    Write(WriteRequest),
    WriteFailure(crate::write_error::WriteError),
    Transaction(crate::hive_tx::HiveTransaction),
}

/// Decodes an envelope's payload as the inner message its type name
/// announces.  An envelope naming none of the three known types is
/// rejected as such.
pub fn decode_inner_message(env: &crate::envelope::Reader) -> (r: Result<
    InnerMessage,
    DecodeError,
>)
    ensures
        ({
            let name = env@.name;
            let payload = env@.payload;
            if name == "org.podcastindex.podping.hivewriter.PodpingWrite.capnp"@ {
                match crate::write_msg::spec_decode_write(payload) {
                    Ok(w) => r matches Ok(m) && m matches InnerMessage::Write(q) && q@ == w,
                    Err(e) => r == Err::<InnerMessage, DecodeError>(e),
                }
            } else if name
                == "org.podcastindex.podping.hivewriter.PodpingWriteError.capnp"@ {
                match spec_decode_write_error(payload) {
                    Ok(w) => r matches Ok(m) && m matches InnerMessage::WriteFailure(q) && q@ == w,
                    Err(e) => r == Err::<InnerMessage, DecodeError>(e),
                }
            } else if name
                == "org.podcastindex.podping.hivewriter.PodpingHiveTransaction.capnp"@ {
                match spec_decode_hive_tx(payload) {
                    Ok(w) => r matches Ok(m) && m matches InnerMessage::Transaction(q) && q@ == w,
                    Err(e) => r == Err::<InnerMessage, DecodeError>(e),
                }
            } else {
                r == Err::<InnerMessage, DecodeError>(DecodeError::UnknownTypeName)
            }
        }),
{
    if str_eq(env.get_type_name().as_str(), write_type_name()) {
        match crate::write_msg::decode_write_request(env.get_payload()) {
            Ok(w) => Ok(InnerMessage::Write(w)),
            Err(e) => Err(e),
        }
    } else if str_eq(env.get_type_name().as_str(), write_error_type_name()) {
        match decode_write_error(env.get_payload()) {
            Ok(w) => Ok(InnerMessage::WriteFailure(w)),
            Err(e) => Err(e),
        }
    } else if str_eq(env.get_type_name().as_str(), hive_transaction_type_name()) {
        match decode_hive_transaction(env.get_payload()) {
            Ok(w) => Ok(InnerMessage::Transaction(w)),
            Err(e) => Err(e),
        }
    } else {
        Err(DecodeError::UnknownTypeName)
    }
}

/// The flattened IRI list of a confirmation's podpings, in order.
pub open spec fn all_iris(pps: Seq<PodpingWrittenModel>) -> Seq<Seq<char>>
    decreases pps.len(),
{
    if pps.len() == 0 {
        Seq::empty()
    } else {
        all_iris(pps.drop_last()) + pps.last().iris
    }
}

/// Deleting a list of URLs, first to last.
pub open spec fn spec_delete_urls(s: Seq<RowModel>, urls: Seq<Seq<char>>) -> Seq<RowModel>
    decreases urls.len(),
{
    if urls.len() == 0 {
        s
    } else {
        spec_delete_urls(spec_delete_url(s, urls[0]), urls.drop_first())
    }
}

/// What became of one reply frame.
#[derive(Clone, Copy, PartialEq, Eq, Structural, Debug)]
pub enum ReplyOutcome {
    /// The frame or its payload could not be decoded; it is dropped.
    Malformed,
    /// A failure reply; its request's IRI, if attached, left the queue.
    ErrorHandled,
    /// A confirmation not yet in a block; nothing changes.
    TransactionPending,
    /// A confirmation in a block; every IRI it lists left the queue.
    TransactionConfirmed,
    /// An envelope of an unknown type; ignored.
    UnknownType,
}

/// Reconciles one reply frame against the queue.  A failure reply deletes
/// the failed request's row; a confirmation with a block number deletes the
/// row of every IRI it lists; a confirmation without one, a malformed
/// frame, and an unknown type change nothing.
pub fn apply_writer_reply(store: &mut QueueStore, frame: &Vec<u8>) -> (r: ReplyOutcome)
    requires
        old(store).wf(),
    ensures
        final(store).wf(),
        match spec_decode_envelope(frame@) {
            Err(e) => r == ReplyOutcome::Malformed && final(store)@ == old(store)@,
            Ok(env) => {
                if env.name == "org.podcastindex.podping.hivewriter.PodpingWriteError.capnp"@ {
                    match spec_decode_write_error(env.payload) {
                        Err(e) => r == ReplyOutcome::Malformed && final(store)@ == old(store)@,
                        Ok(we) => r == ReplyOutcome::ErrorHandled && match we.podping_write {
                            None => final(store)@ == old(store)@,
                            Some(w) => final(store)@ == spec_delete_url(old(store)@, w.iri) && (
                            forall|j: int|
                                0 <= j < final(store)@.len() ==> final(store)@[j].url != w.iri),
                        },
                    }
                } else if env.name
                    == "org.podcastindex.podping.hivewriter.PodpingHiveTransaction.capnp"@ {
                    match spec_decode_hive_tx(env.payload) {
                        Err(e) => r == ReplyOutcome::Malformed && final(store)@ == old(store)@,
                        Ok(tx) => {
                            if tx.hive_block_num == 0 {
                                r == ReplyOutcome::TransactionPending && final(store)@ == old(
                                    store,
                                )@
                            } else {
                                r == ReplyOutcome::TransactionConfirmed && final(store)@
                                    == spec_delete_urls(old(store)@, all_iris(tx.podpings)) && (
                                forall|j: int, k: int|
                                    0 <= j < final(store)@.len() && 0 <= k < all_iris(
                                        tx.podpings,
                                    ).len() ==> final(store)@[j].url != all_iris(tx.podpings)[k])
                            }
                        },
                    }
                } else {
                    r == ReplyOutcome::UnknownType && final(store)@ == old(store)@
                }
            },
        },
{
    let env = match decode_envelope(frame) {
        Ok(e) => e,
        Err(_) => {
            return ReplyOutcome::Malformed;
        },
    };
    if str_eq(env.get_type_name().as_str(), write_error_type_name()) {
        let we = match decode_write_error(frame_payload(&env)) {
            Ok(w) => w,
            Err(_) => {
                return ReplyOutcome::Malformed;
            },
        };
        match we.podping_write {
            None => ReplyOutcome::ErrorHandled,
            Some(w) => {
                store.delete_ping_from_queue(&w.iri);
                ReplyOutcome::ErrorHandled
            },
        }
    } else if str_eq(env.get_type_name().as_str(), hive_transaction_type_name()) {
        let tx = match decode_hive_transaction(frame_payload(&env)) {
            Ok(t) => t,
            Err(_) => {
                return ReplyOutcome::Malformed;
            },
        };
        if tx.hive_block_num == 0 {
            return ReplyOutcome::TransactionPending;
        }
        let ghost pre = store@;
        delete_confirmed(store, &tx.podpings);
        proof {
            lemma_delete_urls_none_left(pre, all_iris(tx@.podpings));
        }
        ReplyOutcome::TransactionConfirmed
    } else {
        ReplyOutcome::UnknownType
    }
}

/// The payload of a decoded envelope.
fn frame_payload<'a>(env: &'a crate::envelope::Reader) -> (r: &'a Vec<u8>)
    ensures
        r@ == env@.payload,
{
    env.get_payload()
}

/// Deletes the row of every IRI a confirmation lists.
fn delete_confirmed(store: &mut QueueStore, pps: &Vec<crate::hive_tx::PodpingWritten>)
    requires
        old(store).wf(),
    ensures
        final(store).wf(),
        final(store)@ == spec_delete_urls(
            old(store)@,
            all_iris(pps@.map_values(|p: crate::hive_tx::PodpingWritten| p@)),
        ),
{
    let ghost pps_m = pps@.map_values(|p: crate::hive_tx::PodpingWritten| p@);
    let ghost orig = store@;
    let n = pps.len();
    for i in 0..n
        invariant
            n == pps@.len(),
            pps_m == pps@.map_values(|p: crate::hive_tx::PodpingWritten| p@),
            store.wf(),
            store@ == spec_delete_urls(orig, all_iris(pps_m.take(i as int))),
    {
        let pp = &pps[i];
        let m = pp.iris.len();
        let ghost before_elem = store@;
        for j in 0..m
            invariant
                n == pps@.len(),
                i < n,
                m == pps[i as int].iris@.len(),
                pps_m == pps@.map_values(|p: crate::hive_tx::PodpingWritten| p@),
                store.wf(),
                store@ == spec_delete_urls(
                    before_elem,
                    pps_m[i as int].iris.take(j as int),
                ),
                before_elem == spec_delete_urls(orig, all_iris(pps_m.take(i as int))),
        {
            proof {
                lemma_delete_urls_snoc(before_elem, pps_m[i as int].iris, j as int);
                assert(pps_m[i as int].iris[j as int] == pps[i as int].iris@[j as int]@);
            }
            store.delete_ping_from_queue(&pps[i].iris[j]);
        }
        proof {
            assert(pps_m[i as int].iris.take(m as int) =~= pps_m[i as int].iris);
            assert(all_iris(pps_m.take(i as int + 1)) =~= all_iris(pps_m.take(i as int))
                + pps_m[i as int].iris) by {
                assert(pps_m.take(i as int + 1).drop_last() =~= pps_m.take(i as int));
                assert(pps_m.take(i as int + 1).last() == pps_m[i as int]);
            }
            lemma_delete_urls_concat(orig, all_iris(pps_m.take(i as int)), pps_m[i as int].iris);
        }
    }
    proof {
        assert(pps_m.take(n as int) =~= pps_m);
        lemma_delete_urls_none_left(orig, all_iris(pps_m));
    }
}

/// Deleting one more URL after a list deletes the list with that URL at the
/// end.
proof fn lemma_delete_urls_snoc(s: Seq<RowModel>, urls: Seq<Seq<char>>, j: int)
    requires
        0 <= j < urls.len(),
    ensures
        spec_delete_urls(s, urls.take(j + 1)) == spec_delete_url(
            spec_delete_urls(s, urls.take(j)),
            urls[j],
        ),
    decreases j,
{
    if j == 0 {
        assert(urls.take(1).drop_first() =~= urls.take(0));
        assert(urls.take(0).len() == 0);
        assert(urls.take(1)[0] == urls[0]);
        assert(spec_delete_urls(s, urls.take(1)) == spec_delete_urls(
            spec_delete_url(s, urls[0]),
            urls.take(1).drop_first(),
        ));
    } else {
        assert(urls.take(j + 1)[0] == urls[0]);
        assert(urls.take(j)[0] == urls[0]);
        assert(urls.take(j + 1).drop_first() =~= urls.drop_first().take(j));
        assert(urls.take(j).drop_first() =~= urls.drop_first().take(j - 1));
        assert(urls.drop_first()[j - 1] == urls[j]);
        lemma_delete_urls_snoc(spec_delete_url(s, urls[0]), urls.drop_first(), j - 1);
    }
}

/// Deleting a concatenation deletes the parts in turn.
proof fn lemma_delete_urls_concat(s: Seq<RowModel>, us: Seq<Seq<char>>, vs: Seq<Seq<char>>)
    ensures
        spec_delete_urls(s, us + vs) == spec_delete_urls(spec_delete_urls(s, us), vs),
    decreases us.len(),
{
    if us.len() == 0 {
        assert(us + vs =~= vs);
    } else {
        assert((us + vs)[0] == us[0]);
        assert((us + vs).drop_first() =~= us.drop_first() + vs);
        lemma_delete_urls_concat(spec_delete_url(s, us[0]), us.drop_first(), vs);
    }
}

/// Every row of the queue survives deletes only if it was there before.
proof fn lemma_delete_url_sub(s: Seq<RowModel>, u: Seq<char>)
    ensures
        forall|j: int|
            0 <= j < spec_delete_url(s, u).len() ==> s.contains(
                #[trigger] spec_delete_url(s, u)[j],
            ),
        wf_rows(s) ==> wf_rows(spec_delete_url(s, u)),
        wf_rows(s) ==> forall|j: int|
            0 <= j < spec_delete_url(s, u).len() ==> #[trigger] spec_delete_url(s, u)[j].url != u,
{
    crate::store::lemma_spec_find(s, u);
    let res = spec_delete_url(s, u);
    match crate::store::spec_find(s, u) {
        None => {
            assert forall|j: int| 0 <= j < res.len() implies s.contains(#[trigger] res[j]) by {
                assert(res[j] == s[j]);
            }
        },
        Some(i) => {
            assert forall|j: int| 0 <= j < res.len() implies s.contains(#[trigger] res[j]) by {
                if j < i {
                    assert(res[j] == s[j]);
                } else {
                    assert(res[j] == s[j + 1]);
                }
            }
            if wf_rows(s) {
                assert forall|a: int, b: int|
                    0 <= a < b < res.len() implies res[a].url != res[b].url by {
                    assert(res[a] == if a < i {
                        s[a]
                    } else {
                        s[a + 1]
                    });
                    assert(res[b] == if b < i {
                        s[b]
                    } else {
                        s[b + 1]
                    });
                }
                assert forall|j: int| 0 <= j < res.len() implies #[trigger] res[j].url != u by {
                    assert(res[j] == if j < i {
                        s[j]
                    } else {
                        s[j + 1]
                    });
                }
            }
        },
    }
}

/// After deleting a list of URLs from a well-formed queue, none of them
/// names a row.
proof fn lemma_delete_urls_none_left(s: Seq<RowModel>, urls: Seq<Seq<char>>)
    requires
        wf_rows(s),
    ensures
        wf_rows(spec_delete_urls(s, urls)),
        forall|j: int, k: int|
            0 <= j < spec_delete_urls(s, urls).len() && 0 <= k < urls.len() ==> spec_delete_urls(
                s,
                urls,
            )[j].url != urls[k],
    decreases urls.len(),
{
    if urls.len() > 0 {
        let mid = spec_delete_url(s, urls[0]);
        lemma_delete_url_sub(s, urls[0]);
        lemma_delete_urls_none_left(mid, urls.drop_first());
        let res = spec_delete_urls(s, urls);
        assert(res == spec_delete_urls(mid, urls.drop_first()));
        assert forall|j: int, k: int|
            0 <= j < res.len() && 0 <= k < urls.len() implies res[j].url != urls[k] by {
            if k == 0 {
                lemma_delete_urls_sub(mid, urls.drop_first());
                assert(mid.contains(res[j]));
                let w = choose|w: int| 0 <= w < mid.len() && mid[w] == res[j];
                assert(mid[w].url != urls[0]);
            } else {
                assert(urls.drop_first()[k - 1] == urls[k]);
            }
        }
    }
}

/// Rows that survive a list of deletes were rows before it.
proof fn lemma_delete_urls_sub(s: Seq<RowModel>, urls: Seq<Seq<char>>)
    ensures
        forall|j: int|
            0 <= j < spec_delete_urls(s, urls).len() ==> s.contains(
                #[trigger] spec_delete_urls(s, urls)[j],
            ),
    decreases urls.len(),
{
    if urls.len() == 0 {
        assert forall|j: int|
            0 <= j < spec_delete_urls(s, urls).len() implies s.contains(
            #[trigger] spec_delete_urls(s, urls)[j],
        ) by {
            assert(spec_delete_urls(s, urls)[j] == s[j]);
        }
    } else {
        let mid = spec_delete_url(s, urls[0]);
        lemma_delete_url_sub(s, urls[0]);
        lemma_delete_urls_sub(mid, urls.drop_first());
        assert forall|j: int|
            0 <= j < spec_delete_urls(s, urls).len() implies s.contains(
            #[trigger] spec_delete_urls(s, urls)[j],
        ) by {
            assert(spec_delete_urls(s, urls) == spec_delete_urls(mid, urls.drop_first()));
            assert(mid.contains(spec_delete_urls(s, urls)[j]));
            let w = choose|w: int| 0 <= w < mid.len() && mid[w] == spec_delete_urls(s, urls)[j];
            assert(s.contains(mid[w]));
        }
    }
}

} // verus!
