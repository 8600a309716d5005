use podping::auth::AuthTable;
use podping::intake::{PingOutcome, ping, publishers};
use podping::msg::{Medium, Reason};
use podping::store::QueueStore;

fn table() -> AuthTable {
    let mut t = AuthTable::new();
    t.add_record("alice".to_string(), "AAAABBBBCCCCDDDDEEEE11-tail-one".to_string());
    t
}

fn params(pairs: &[(&str, &str)]) -> Vec<(String, String)> {
    pairs.iter().map(|(k, v)| (k.to_string(), v.to_string())).collect()
}

fn good_auth() -> Option<String> {
    Some("AAAABBBBCCCCDDDDEEEE11-tail-one".to_string())
}

fn agent() -> Option<String> {
    Some("tester".to_string())
}

#[test]
fn empty_query_asks_for_the_landing_page() {
    let t = table();
    let mut q = QueueStore::new();
    let r = ping(&t, &mut q, good_auth().as_ref(), agent().as_ref(), &params(&[]), 100);
    assert!(matches!(r, PingOutcome::Landing));
    assert_eq!(q.len(), 0);
}

#[test]
fn missing_authorization_is_401() {
    let t = table();
    let mut q = QueueStore::new();
    let r = ping(&t, &mut q, None, agent().as_ref(), &params(&[("url", "https://x/rss")]), 100);
    match r {
        PingOutcome::Done(h) => {
            assert_eq!(h.status, 401);
            assert_eq!(h.body.as_str(), "Invalid Authorization header");
        },
        _ => panic!("expected an answer"),
    }
    assert_eq!(q.len(), 0);
}

#[test]
fn failed_lookup_is_401() {
    let t = table();
    let mut q = QueueStore::new();
    let bad = Some("wrongtokenwrongtokenwr-x".to_string());
    let r = ping(&t, &mut q, bad.as_ref(), agent().as_ref(), &params(&[("url", "https://x/rss")]), 100);
    match r {
        PingOutcome::Done(h) => {
            assert_eq!(h.status, 401);
            assert_eq!(h.body.as_str(), "Bad Authorization header check");
        },
        _ => panic!("expected an answer"),
    }
}

#[test]
fn hybrid_token_passes_the_auth_check() {
    let t = table();
    let mut q = QueueStore::new();
    let hybrid = Some("AAAABBBBCCCCDDDDEEEE11-different-tail".to_string());
    let r = ping(&t, &mut q, hybrid.as_ref(), agent().as_ref(), &params(&[("url", "https://x/rss")]), 100);
    match r {
        PingOutcome::Done(h) => assert_eq!(h.status, 200),
        _ => panic!("expected an answer"),
    }
}

#[test]
fn missing_user_agent_is_401() {
    let t = table();
    let mut q = QueueStore::new();
    let r = ping(&t, &mut q, good_auth().as_ref(), None, &params(&[("url", "https://x/rss")]), 100);
    match r {
        PingOutcome::Done(h) => {
            assert_eq!(h.status, 401);
            assert_eq!(h.body.as_str(), "User-Agent header is required");
        },
        _ => panic!("expected an answer"),
    }
}

#[test]
fn missing_url_is_400() {
    let t = table();
    let mut q = QueueStore::new();
    let r = ping(&t, &mut q, good_auth().as_ref(), agent().as_ref(), &params(&[("reason", "live")]), 100);
    match r {
        PingOutcome::Done(h) => {
            assert_eq!(h.status, 400);
            assert_eq!(h.body.as_str(), "Url parameter is missing.  Call as /?url=<podcast_url>");
        },
        _ => panic!("expected an answer"),
    }
}

#[test]
fn empty_url_is_400() {
    let t = table();
    let mut q = QueueStore::new();
    let r = ping(&t, &mut q, good_auth().as_ref(), agent().as_ref(), &params(&[("url", "")]), 100);
    match r {
        PingOutcome::Done(h) => assert_eq!(h.status, 400),
        _ => panic!("expected an answer"),
    }
}

#[test]
fn url_without_http_scheme_is_400() {
    let t = table();
    let mut q = QueueStore::new();
    let r = ping(&t, &mut q, good_auth().as_ref(), agent().as_ref(), &params(&[("url", "ftp://x/rss")]), 100);
    match r {
        PingOutcome::Done(h) => {
            assert_eq!(h.status, 400);
            assert_eq!(
                h.body.as_str(),
                "Urls must contain a valid protocol schema prefix, like http:// or https://"
            );
        },
        _ => panic!("expected an answer"),
    }
    assert_eq!(q.len(), 0);
}

#[test]
fn valid_request_stores_and_says_success() {
    let t = table();
    let mut q = QueueStore::new();
    let r = ping(
        &t,
        &mut q,
        good_auth().as_ref(),
        agent().as_ref(),
        &params(&[("url", "https://a.example/rss"), ("reason", "update"), ("medium", "podcast")]),
        100,
    );
    match r {
        PingOutcome::Done(h) => {
            assert_eq!(h.status, 200);
            assert_eq!(h.body.as_str(), "Success!");
        },
        _ => panic!("expected an answer"),
    }
    let batch = q.get_pings_from_queue(false, 200);
    assert_eq!(batch.len(), 1);
    assert_eq!(batch[0].url.as_str(), "https://a.example/rss");
    assert_eq!(batch[0].time, 100);
    assert_eq!(batch[0].reason, Reason::Update);
    assert_eq!(batch[0].medium, Medium::Podcast);
}

#[test]
fn duplicate_submission_still_says_success() {
    let t = table();
    let mut q = QueueStore::new();
    let p = params(&[("url", "https://a.example/rss"), ("reason", "update")]);
    ping(&t, &mut q, good_auth().as_ref(), agent().as_ref(), &p, 100);
    let r = ping(&t, &mut q, good_auth().as_ref(), agent().as_ref(), &p, 150);
    match r {
        PingOutcome::Done(h) => {
            assert_eq!(h.status, 200);
            assert_eq!(h.body.as_str(), "Success!");
        },
        _ => panic!("expected an answer"),
    }
    assert_eq!(q.len(), 1);
    let batch = q.get_pings_from_queue(false, 300);
    assert_eq!(batch[0].time, 100);
}

#[test]
fn unknown_reason_and_medium_fall_back_to_defaults() {
    let t = table();
    let mut q = QueueStore::new();
    ping(
        &t,
        &mut q,
        good_auth().as_ref(),
        agent().as_ref(),
        &params(&[("url", "https://a.example/rss"), ("reason", "weird"), ("medium", "weird")]),
        100,
    );
    let batch = q.get_pings_from_queue(false, 200);
    assert_eq!(batch[0].reason, Reason::Update);
    assert_eq!(batch[0].medium, Medium::Podcast);
}

#[test]
fn upper_case_scheme_is_accepted() {
    let t = table();
    let mut q = QueueStore::new();
    let r = ping(&t, &mut q, good_auth().as_ref(), agent().as_ref(), &params(&[("url", "HTTPS://x/rss")]), 100);
    match r {
        PingOutcome::Done(h) => assert_eq!(h.status, 200),
        _ => panic!("expected an answer"),
    }
}

#[test]
fn publishers_without_user_agent_is_401() {
    let t = table();
    let r = publishers(&t, None);
    assert_eq!(r.status, 401);
    assert_eq!(r.body.as_str(), "User-Agent header is required");
}

#[test]
fn publishers_lists_one_name_per_line() {
    let mut t = AuthTable::new();
    t.add_record("alice".to_string(), "a1".to_string());
    t.add_record("bob".to_string(), "b2".to_string());
    let r = publishers(&t, agent().as_ref());
    assert_eq!(r.status, 200);
    assert_eq!(r.body.as_str(), "alice\nbob\n");
}
