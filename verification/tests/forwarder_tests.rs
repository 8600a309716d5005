use podping::envelope;
use podping::forwarder::{InnerMessage, ReplyOutcome, apply_writer_reply, build_write_frame,
    decode_inner_message, hive_transaction_type_name, write_error_type_name, write_type_name};
use podping::msg::{Medium, Ping, Reason};
use podping::store::QueueStore;
use podping::write_error::{WriteError, encode_write_error};
use podping::write_msg::{WriteRequest, decode_write_request};

fn ping(url: &str, time: u64) -> Ping {
    Ping { url: url.to_string(), time, reason: Reason::Update, medium: Medium::Podcast }
}

fn push_w(v: &mut Vec<u8>, x: u64) {
    for k in 0..8 {
        v.push(((x >> (8 * k)) & 0xFF) as u8);
    }
}

fn push_text_padded(v: &mut Vec<u8>, s: &str) {
    for b in s.as_bytes() {
        v.push(*b);
    }
    v.push(0);
    while v.len() % 8 != 0 {
        v.push(0);
    }
}

fn confirmation_frame(block_num: u64, iri: &str) -> Vec<u8> {
    let iri_count = (iri.len() + 1) as u64;
    let iri_words = (iri.len() + 1 + 7) / 8;
    let total_words = 12 + iri_words;
    let mut v: Vec<u8> = Vec::new();
    v.extend_from_slice(&[0, 0, 0, 0]);
    v.extend_from_slice(&(total_words as u32).to_le_bytes());
    push_w(&mut v, 0x0002_0001_0000_0000);
    push_w(&mut v, block_num);
    push_w(&mut v, 1 + (1u64 << 2) + (2u64 << 32) + (4u64 << 35));
    push_w(&mut v, 1 + (1u64 << 2) + (7u64 << 32) + (3u64 << 35));
    push_text_padded(&mut v, "abc");
    push_w(&mut v, (1u64 << 2) + (3u64 << 48));
    push_w(&mut v, 1 + (2u64 << 2) + (6u64 << 32) + (1u64 << 35));
    let m_off = (2 + iri_words) as u64;
    push_w(&mut v, 1 + (m_off << 2) + (2u64 << 32) + (8u64 << 35));
    let r_off = (2 + iri_words) as u64;
    push_w(&mut v, 1 + (r_off << 2) + (2u64 << 32) + (7u64 << 35));
    push_w(&mut v, 1 + (2u64 << 32) + (iri_count << 35));
    push_text_padded(&mut v, iri);
    push_text_padded(&mut v, "podcast");
    push_text_padded(&mut v, "update");
    v
}

fn wrap(name: &str, payload: Vec<u8>) -> Vec<u8> {
    let mut b = envelope::Builder::new();
    b.set_type_name(name.to_string());
    b.set_payload(payload);
    envelope::encode_envelope(&b).expect("encodes")
}

#[test]
fn type_names_are_the_stable_strings() {
    assert_eq!(write_type_name(), "org.podcastindex.podping.hivewriter.PodpingWrite.capnp");
    assert_eq!(
        write_error_type_name(),
        "org.podcastindex.podping.hivewriter.PodpingWriteError.capnp"
    );
    assert_eq!(
        hive_transaction_type_name(),
        "org.podcastindex.podping.hivewriter.PodpingHiveTransaction.capnp"
    );
}

#[test]
fn a_notification_frames_as_a_write_request_envelope() {
    let p = Ping {
        url: "https://a.example/rss".to_string(),
        time: 100,
        reason: Reason::Live,
        medium: Medium::VideoL,
    };
    let frame = build_write_frame(&p).expect("frames");
    let env = envelope::decode_envelope(&frame).expect("decodes");
    assert_eq!(env.get_type_name().as_str(), write_type_name());
    let w = decode_write_request(env.get_payload()).expect("inner decodes");
    assert_eq!(w.iri.as_str(), "https://a.example/rss");
    assert_eq!(w.reason, Reason::Live);
    assert_eq!(w.medium, Medium::VideoL);
}

#[test]
fn a_failure_reply_deletes_the_named_row() {
    let mut q = QueueStore::new();
    q.add_ping_to_queue(&ping("https://a.example/rss", 100));
    q.add_ping_to_queue(&ping("https://b.example/rss", 100));
    let we = WriteError {
        podping_write: Some(
            WriteRequest {
                iri: "https://a.example/rss".to_string(),
                reason: Reason::Update,
                medium: Medium::Podcast,
            },
        ),
        error_message: "rejected".to_string(),
    };
    let frame = wrap(write_error_type_name(), encode_write_error(&we).expect("encodes"));
    let outcome = apply_writer_reply(&mut q, &frame);
    assert_eq!(outcome, ReplyOutcome::ErrorHandled);
    assert_eq!(q.len(), 1);
    assert!(!q.delete_ping_from_queue(&"https://a.example/rss".to_string()));
}

#[test]
fn a_failure_reply_without_a_request_changes_nothing() {
    let mut q = QueueStore::new();
    q.add_ping_to_queue(&ping("https://a.example/rss", 100));
    let we = WriteError { podping_write: None, error_message: "rejected".to_string() };
    let frame = wrap(write_error_type_name(), encode_write_error(&we).expect("encodes"));
    let outcome = apply_writer_reply(&mut q, &frame);
    assert_eq!(outcome, ReplyOutcome::ErrorHandled);
    assert_eq!(q.len(), 1);
}

#[test]
fn a_confirmation_in_a_block_deletes_every_listed_iri() {
    let mut q = QueueStore::new();
    q.add_ping_to_queue(&ping("https://a.example/rss", 100));
    q.add_ping_to_queue(&ping("https://keep.example/rss", 100));
    q.set_ping_as_inflight(&ping("https://a.example/rss", 100));
    let frame = wrap(hive_transaction_type_name(), confirmation_frame(42, "https://a.example/rss"));
    let outcome = apply_writer_reply(&mut q, &frame);
    assert_eq!(outcome, ReplyOutcome::TransactionConfirmed);
    assert_eq!(q.len(), 1);
    assert!(q.delete_ping_from_queue(&"https://keep.example/rss".to_string()));
}

#[test]
fn a_confirmation_without_a_block_changes_nothing() {
    let mut q = QueueStore::new();
    q.add_ping_to_queue(&ping("https://a.example/rss", 100));
    let frame = wrap(hive_transaction_type_name(), confirmation_frame(0, "https://a.example/rss"));
    let outcome = apply_writer_reply(&mut q, &frame);
    assert_eq!(outcome, ReplyOutcome::TransactionPending);
    assert_eq!(q.len(), 1);
}

#[test]
fn an_unknown_envelope_type_is_ignored() {
    let mut q = QueueStore::new();
    q.add_ping_to_queue(&ping("https://a.example/rss", 100));
    let frame = wrap("org.example.SomethingElse.capnp", vec![1, 2, 3]);
    let outcome = apply_writer_reply(&mut q, &frame);
    assert_eq!(outcome, ReplyOutcome::UnknownType);
    assert_eq!(q.len(), 1);
}

#[test]
fn garbage_bytes_are_dropped_as_malformed() {
    let mut q = QueueStore::new();
    q.add_ping_to_queue(&ping("https://a.example/rss", 100));
    let outcome = apply_writer_reply(&mut q, &vec![7, 7, 7]);
    assert_eq!(outcome, ReplyOutcome::Malformed);
    assert_eq!(q.len(), 1);
}

#[test]
fn a_malformed_payload_under_a_known_type_is_dropped() {
    let mut q = QueueStore::new();
    q.add_ping_to_queue(&ping("https://a.example/rss", 100));
    let frame = wrap(hive_transaction_type_name(), vec![9, 9]);
    let outcome = apply_writer_reply(&mut q, &frame);
    assert_eq!(outcome, ReplyOutcome::Malformed);
    assert_eq!(q.len(), 1);
}

#[test]
fn inner_messages_route_by_type_name() {
    let w = WriteRequest {
        iri: "https://a.example/rss".to_string(),
        reason: Reason::Update,
        medium: Medium::Podcast,
    };
    let frame = wrap(
        write_type_name(),
        podping::write_msg::encode_write_request(&w).expect("encodes"),
    );
    let env = envelope::decode_envelope(&frame).expect("decodes");
    match decode_inner_message(&env) {
        Ok(InnerMessage::Write(back)) => assert_eq!(back.iri.as_str(), "https://a.example/rss"),
        _ => panic!("expected a write request"),
    }

    let we = WriteError { podping_write: None, error_message: "boom".to_string() };
    let frame = wrap(write_error_type_name(), encode_write_error(&we).expect("encodes"));
    let env = envelope::decode_envelope(&frame).expect("decodes");
    match decode_inner_message(&env) {
        Ok(InnerMessage::WriteFailure(back)) => assert_eq!(back.error_message.as_str(), "boom"),
        _ => panic!("expected a failure reply"),
    }

    let frame = wrap(hive_transaction_type_name(), confirmation_frame(5, "https://x/rss"));
    let env = envelope::decode_envelope(&frame).expect("decodes");
    match decode_inner_message(&env) {
        Ok(InnerMessage::Transaction(back)) => assert_eq!(back.hive_block_num, 5),
        _ => panic!("expected a confirmation"),
    }

    let frame = wrap("org.example.Other.capnp", vec![1]);
    let env = envelope::decode_envelope(&frame).expect("decodes");
    assert!(matches!(
        decode_inner_message(&env),
        Err(podping::wire::DecodeError::UnknownTypeName)
    ));
}
