use podping::envelope;
use podping::hive_tx::{HiveTransaction, PodpingWritten, decode_hive_transaction, encode_hive_transaction};
use podping::hive_write;
use podping::msg::{Medium, Reason};
use podping::wire::DecodeError;
use podping::write_error::{WriteError, decode_write_error, encode_write_error};
use podping::write_msg::{WriteRequest, decode_write_request, encode_write_request};

fn push_w(v: &mut Vec<u8>, x: u64) {
    for k in 0..8 {
        v.push(((x >> (8 * k)) & 0xFF) as u8);
    }
}

fn push_text_padded(v: &mut Vec<u8>, s: &str) {
    for b in s.as_bytes() {
        v.push(*b);
    }
    v.push(0);
    while v.len() % 8 != 0 {
        v.push(0);
    }
}

#[test]
fn write_request_round_trips() {
    let m = WriteRequest {
        iri: "https://a.example/rss".to_string(),
        reason: Reason::Live,
        medium: Medium::VideoL,
    };
    let frame = encode_write_request(&m).expect("encodes");
    let back = decode_write_request(&frame).expect("decodes");
    assert_eq!(back.iri.as_str(), "https://a.example/rss");
    assert_eq!(back.reason, Reason::Live);
    assert_eq!(back.medium, Medium::VideoL);
}

#[test]
fn write_request_has_the_expected_bytes() {
    let m = WriteRequest { iri: "ab".to_string(), reason: Reason::Live, medium: Medium::Podcast };
    let frame = encode_write_request(&m).expect("encodes");
    let mut expected: Vec<u8> = Vec::new();
    // one segment of four words
    expected.extend_from_slice(&[0, 0, 0, 0, 4, 0, 0, 0]);
    // root struct pointer: one data word, one pointer word
    push_w(&mut expected, 0x0001_0001_0000_0000);
    // reason one, medium zero
    push_w(&mut expected, 1);
    // text pointer: offset zero, byte list, three bytes with the zero
    push_w(&mut expected, 1 + (2u64 << 32) + (3u64 << 35));
    push_text_padded(&mut expected, "ab");
    assert_eq!(frame, expected);
}

#[test]
fn write_request_decode_rejects_out_of_range_ordinals() {
    let mut v: Vec<u8> = Vec::new();
    v.extend_from_slice(&[0, 0, 0, 0, 4, 0, 0, 0]);
    push_w(&mut v, 0x0001_0001_0000_0000);
    // reason nine is not defined
    push_w(&mut v, 9);
    push_w(&mut v, 1 + (2u64 << 32) + (3u64 << 35));
    push_text_padded(&mut v, "ab");
    assert!(matches!(decode_write_request(&v), Err(DecodeError::OutOfRangeEnum)));
}

#[test]
fn truncated_frames_are_malformed() {
    assert!(matches!(decode_write_request(&vec![0, 0, 0]), Err(DecodeError::MalformedFrame)));
    let mut v: Vec<u8> = Vec::new();
    v.extend_from_slice(&[0, 0, 0, 0, 9, 0, 0, 0]);
    push_w(&mut v, 0);
    assert!(matches!(decode_write_request(&v), Err(DecodeError::MalformedFrame)));
}

#[test]
fn envelope_round_trips() {
    let mut b = envelope::Builder::new();
    assert!(!b.has_type_name());
    assert!(!b.has_payload());
    b.set_type_name("org.podcastindex.podping.hivewriter.PodpingWrite.capnp".to_string());
    b.set_payload(vec![1, 2, 3, 4, 5]);
    assert!(b.has_type_name());
    assert!(b.has_payload());
    let frame = envelope::encode_envelope(&b).expect("encodes");
    let r = envelope::decode_envelope(&frame).expect("decodes");
    assert_eq!(
        r.get_type_name().as_str(),
        "org.podcastindex.podping.hivewriter.PodpingWrite.capnp"
    );
    assert_eq!(r.get_payload().as_slice(), &[1, 2, 3, 4, 5]);
    assert!(r.has_type_name());
    assert!(r.has_payload());
}

#[test]
fn envelope_keeps_an_empty_payload_apart() {
    let mut b = envelope::Builder::new();
    b.set_type_name("x".to_string());
    let frame = envelope::encode_envelope(&b).expect("encodes");
    let r = envelope::decode_envelope(&frame).expect("decodes");
    assert_eq!(r.get_type_name().as_str(), "x");
    assert!(!r.has_payload());
    assert_eq!(r.get_payload().len(), 0);
}

#[test]
fn builder_reader_carry_the_same_envelope() {
    let mut b = envelope::Builder::new();
    b.set_type_name("t".to_string());
    b.set_payload(vec![9]);
    assert_eq!(b.get_type_name().as_str(), "t");
    assert_eq!(b.get_payload().as_slice(), &[9]);
    let r = b.into_reader();
    assert_eq!(r.get_type_name().as_str(), "t");
    assert_eq!(r.get_payload().as_slice(), &[9]);
}

#[test]
fn write_error_round_trips_with_a_request() {
    let m = WriteError {
        podping_write: Some(
            WriteRequest {
                iri: "https://x.example/feed".to_string(),
                reason: Reason::Update,
                medium: Medium::Blog,
            },
        ),
        error_message: "node refused".to_string(),
    };
    let frame = encode_write_error(&m).expect("encodes");
    let back = decode_write_error(&frame).expect("decodes");
    let w = back.podping_write.expect("carries the request");
    assert_eq!(w.iri.as_str(), "https://x.example/feed");
    assert_eq!(w.reason, Reason::Update);
    assert_eq!(w.medium, Medium::Blog);
    assert_eq!(back.error_message.as_str(), "node refused");
}

#[test]
fn write_error_round_trips_without_a_request() {
    let m = WriteError { podping_write: None, error_message: "opaque failure".to_string() };
    let frame = encode_write_error(&m).expect("encodes");
    let back = decode_write_error(&frame).expect("decodes");
    assert!(back.podping_write.is_none());
    assert_eq!(back.error_message.as_str(), "opaque failure");
}

#[test]
fn hive_write_round_trips() {
    let mut b = hive_write::Builder::new();
    assert!(!b.has_podping_write());
    b.set_podping_write(
        WriteRequest {
            iri: "https://y.example/rss".to_string(),
            reason: Reason::LiveEnd,
            medium: Medium::MusicL,
        },
    );
    b.set_hive_account("announcer".to_string());
    assert!(b.has_podping_write());
    assert!(b.has_hive_account());
    let frame = hive_write::encode_hive_write(&b).expect("encodes");
    let r = hive_write::decode_hive_write(&frame).expect("decodes");
    assert!(r.has_podping_write());
    assert!(r.has_hive_account());
    let w = r.get_podping_write().as_ref().expect("request");
    assert_eq!(w.iri.as_str(), "https://y.example/rss");
    assert_eq!(w.reason, Reason::LiveEnd);
    assert_eq!(w.medium, Medium::MusicL);
    assert_eq!(r.get_hive_account().as_str(), "announcer");
}

fn hive_tx_frame(block_num: u64) -> Vec<u8> {
    let mut v: Vec<u8> = Vec::new();
    // one segment of fifteen words
    v.extend_from_slice(&[0, 0, 0, 0, 15, 0, 0, 0]);
    // root: one data word, two pointer words
    push_w(&mut v, 0x0002_0001_0000_0000);
    push_w(&mut v, block_num);
    // transaction id text at word four
    push_w(&mut v, 1 + (1u64 << 2) + (2u64 << 32) + (4u64 << 35));
    // podping entries at word five
    push_w(&mut v, 1 + (1u64 << 2) + (7u64 << 32) + (3u64 << 35));
    push_text_padded(&mut v, "abc");
    // tag: one element of zero data words and three pointer words
    push_w(&mut v, (1u64 << 2) + (3u64 << 48));
    // the element's pointers: iris, medium, reason
    push_w(&mut v, 1 + (2u64 << 2) + (6u64 << 32) + (1u64 << 35));
    push_w(&mut v, 1 + (5u64 << 2) + (2u64 << 32) + (8u64 << 35));
    push_w(&mut v, 1 + (5u64 << 2) + (2u64 << 32) + (7u64 << 35));
    // the one iri pointer, then its text
    push_w(&mut v, 1 + (2u64 << 32) + (22u64 << 35));
    push_text_padded(&mut v, "https://a.example/rss");
    push_text_padded(&mut v, "podcast");
    push_text_padded(&mut v, "update");
    v
}

#[test]
fn hive_transaction_decodes_from_wire_bytes() {
    let frame = hive_tx_frame(42);
    let tx = decode_hive_transaction(&frame).expect("decodes");
    assert_eq!(tx.hive_tx_id.as_str(), "abc");
    assert_eq!(tx.hive_block_num, 42);
    assert_eq!(tx.podpings.len(), 1);
    assert_eq!(tx.podpings[0].iris.len(), 1);
    assert_eq!(tx.podpings[0].iris[0].as_str(), "https://a.example/rss");
    assert_eq!(tx.podpings[0].medium.as_str(), "podcast");
    assert_eq!(tx.podpings[0].reason.as_str(), "update");
}

#[test]
fn hive_transaction_block_zero_decodes_too() {
    let frame = hive_tx_frame(0);
    let tx = decode_hive_transaction(&frame).expect("decodes");
    assert_eq!(tx.hive_block_num, 0);
}

#[test]
fn hive_transaction_encodes_to_the_same_wire_bytes() {
    let tx = HiveTransaction {
        hive_tx_id: "abc".to_string(),
        hive_block_num: 42,
        podpings: vec![PodpingWritten {
            iris: vec!["https://a.example/rss".to_string()],
            medium: "podcast".to_string(),
            reason: "update".to_string(),
        }],
    };
    let frame = encode_hive_transaction(&tx).expect("encodes");
    assert_eq!(frame, hive_tx_frame(42));
}

#[test]
fn hive_transaction_round_trips() {
    let tx = HiveTransaction {
        hive_tx_id: "0123abcd".to_string(),
        hive_block_num: 77,
        podpings: vec![
            PodpingWritten {
                iris: vec![
                    "https://a.example/rss".to_string(),
                    "https://b.example/feed.xml".to_string(),
                ],
                medium: "music".to_string(),
                reason: "live".to_string(),
            },
            PodpingWritten {
                iris: vec!["https://c.example/rss".to_string()],
                medium: "videol".to_string(),
                reason: "liveend".to_string(),
            },
            PodpingWritten { iris: vec![], medium: "blog".to_string(), reason: "update".to_string() },
        ],
    };
    let frame = encode_hive_transaction(&tx).expect("encodes");
    let back = decode_hive_transaction(&frame).expect("decodes");
    assert_eq!(back.hive_tx_id, tx.hive_tx_id);
    assert_eq!(back.hive_block_num, tx.hive_block_num);
    assert_eq!(back.podpings.len(), 3);
    for (i, pp) in tx.podpings.iter().enumerate() {
        assert_eq!(back.podpings[i].iris, pp.iris);
        assert_eq!(back.podpings[i].medium, pp.medium);
        assert_eq!(back.podpings[i].reason, pp.reason);
    }
}

#[test]
fn empty_hive_transaction_round_trips() {
    let tx = HiveTransaction {
        hive_tx_id: "tx".to_string(),
        hive_block_num: 9,
        podpings: vec![],
    };
    let frame = encode_hive_transaction(&tx).expect("encodes");
    let back = decode_hive_transaction(&frame).expect("decodes");
    assert_eq!(back.hive_tx_id, "tx");
    assert_eq!(back.hive_block_num, 9);
    assert!(back.podpings.is_empty());
}
