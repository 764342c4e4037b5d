use chat_module::relay::{
    accept_publish, authorize, check_basic, check_poll_topics, default_limit, list_limit,
    msg_out, no_auth_flag, now_ms, epoch_millis, poll_wait_secs, resolve_token, retention_cutoff, sort_messages,
    Config, MsgOut, StoredMessage, DAY_MS, FETCH_LIMIT, MAX_POLL_TOPICS, MAX_WAIT_SECS,
};

#[test]
fn token_resolution() {
    assert!(resolve_token(true, None).unwrap().is_none()); // no-auth: token irrelevant
    assert_eq!(
        resolve_token(false, Some("s3cret".into())).unwrap().as_deref(),
        Some("s3cret")
    );
    assert!(resolve_token(false, None).is_err()); // missing
    assert!(resolve_token(false, Some(String::new())).is_err()); // empty == missing
}

#[test]
fn an_open_relay_is_asked_for_by_one_or_true() {
    assert!(no_auth_flag(Some("1")));
    assert!(no_auth_flag(Some("true")));
    assert!(no_auth_flag(Some("TRUE")));
    assert!(no_auth_flag(Some("True")));
    assert!(!no_auth_flag(Some("yes")));
    assert!(!no_auth_flag(Some("0")));
    assert!(!no_auth_flag(None));
}

#[test]
fn configuration_falls_back_to_its_defaults() {
    let c = Config::from_vars(None, None, Some("tok".into()), None, None).unwrap();
    assert_eq!(c.bind, "0.0.0.0:8080");
    assert_eq!(c.db, "./relay.db");
    assert_eq!(c.token.as_deref(), Some("tok"));
    assert_eq!(c.retention_days, 7);

    let c = Config::from_vars(
        Some("127.0.0.1:9".into()),
        Some("/tmp/r.db".into()),
        Some("tok".into()),
        Some("1".into()),
        Some("3".into()),
    )
    .unwrap();
    assert_eq!(c.bind, "127.0.0.1:9");
    assert_eq!(c.db, "/tmp/r.db");
    assert!(c.token.is_none(), "an open relay keeps no token");
    assert_eq!(c.retention_days, 3);

    let c = Config::from_vars(None, None, Some("tok".into()), None, Some("soon".into())).unwrap();
    assert_eq!(c.retention_days, 7, "an unreadable retention is the default");

    let e = Config::from_vars(None, None, Some(String::new()), None, None).unwrap_err();
    assert!(e.starts_with("RELAY_TOKEN must be set"));
}

#[test]
fn basic_auth_carries_the_token() {
    // "relay:secret", "x:wrong", "nocolon"
    assert!(check_basic("Basic cmVsYXk6c2VjcmV0", "secret"));
    assert!(check_basic("Basic   cmVsYXk6c2VjcmV0  ", "secret"));
    assert!(!check_basic("Basic eDp3cm9uZw==", "secret"));
    assert!(!check_basic("Basic bm9jb2xvbg==", "secret"));
    assert!(!check_basic("Bearer cmVsYXk6c2VjcmV0", "secret"));
    assert!(!check_basic("Basic !!!", "secret"));

    assert!(authorize(None, None), "an open relay lets everything through");
    assert!(!authorize(Some("secret"), None));
    assert!(!authorize(Some("secret"), Some("Basic eDp3cm9uZw==")));
    assert!(authorize(Some("secret"), Some("Basic cmVsYXk6c2VjcmV0")));
}

#[test]
fn rejects_bad_base64() {
    let e = accept_publish("t", "not valid base64!!!").unwrap_err();
    assert_eq!(e.status, 400);
    assert!(e.message.starts_with("data is not valid base64url: "));

    let e = accept_publish("", "aGVsbG8").unwrap_err();
    assert_eq!(e.status, 400);
    assert_eq!(e.message, "topic must not be empty");

    assert_eq!(accept_publish("t", "aGVsbG8").unwrap(), b"hello".to_vec());
}

#[test]
fn list_clamps_negative_limit() {
    assert_eq!(list_limit(-1), 1);
    assert_eq!(list_limit(0), 1);
    assert_eq!(list_limit(50), 50);
    assert_eq!(list_limit(10_000), FETCH_LIMIT);
    assert_eq!(default_limit(), 100);
}

#[test]
fn poll_rejects_too_many_topics() {
    let e = check_poll_topics(300).unwrap_err();
    assert_eq!(e.status, 400);
    assert_eq!(e.message, "too many topics in one poll (max 256)");
    assert!(check_poll_topics(MAX_POLL_TOPICS).is_ok());
    assert!(check_poll_topics(0).is_ok());
}

#[test]
fn a_poll_waits_what_it_asked_up_to_the_ceiling() {
    assert_eq!(poll_wait_secs(None), 25);
    assert_eq!(poll_wait_secs(Some(0)), 0);
    assert_eq!(poll_wait_secs(Some(5)), 5);
    assert_eq!(poll_wait_secs(Some(3600)), MAX_WAIT_SECS);
}

#[test]
fn retention_cuts_whole_days_back() {
    assert_eq!(retention_cutoff(10 * DAY_MS, 7), Some(3 * DAY_MS));
    assert_eq!(retention_cutoff(10 * DAY_MS, 0), None);
    assert_eq!(retention_cutoff(10 * DAY_MS, -2), None);
}

#[test]
fn stored_messages_go_out_url_safe_and_unpadded() {
    let m = msg_out(StoredMessage { topic: "t".into(), seq: 4, ts_ms: 99, data: vec![251, 255, 191] });
    assert_eq!(m.topic, "t");
    assert_eq!(m.seq, 4);
    assert_eq!(m.ts_ms, 99);
    assert_eq!(m.data, "-_-_");
    let m = msg_out(StoredMessage { topic: "t".into(), seq: 1, ts_ms: 1, data: b"hello".to_vec() });
    assert_eq!(m.data, "aGVsbG8");
}

fn out(topic: &str, seq: i64, ts_ms: i64) -> MsgOut {
    MsgOut { topic: topic.into(), seq, ts_ms, data: String::new() }
}

#[test]
fn each_topic_comes_out_in_sequence_order() {
    let sorted = sort_messages(vec![
        out("b", 2, 20),
        out("a", 9, 10),
        out("b", 1, 10),
        out("a", 1, 30),
    ]);
    let keys: Vec<(String, i64, i64)> =
        sorted.iter().map(|m| (m.topic.clone(), m.ts_ms, m.seq)).collect();
    assert_eq!(
        keys,
        vec![
            ("b".to_string(), 10, 1),
            ("a".to_string(), 30, 1),
            ("b".to_string(), 20, 2),
            ("a".to_string(), 10, 9),
        ]
    );
    // A clock that stepped back does not reorder a topic.
    let sorted = sort_messages(vec![out("t", 2, 3), out("t", 1, 5)]);
    assert_eq!(sorted.iter().map(|m| m.seq).collect::<Vec<_>>(), vec![1, 2]);
    assert!(sort_messages(Vec::new()).is_empty());
}

#[test]
fn the_clock_reads_past_the_epoch() {
    let a = now_ms();
    let b = now_ms();
    assert!(a > 1_600_000_000_000, "a clock set after 2020");
    assert!(b >= a);
}

#[test]
fn retention_days_read_as_std_parses_them() {
    let days = |text: &str| {
        Config::from_vars(None, None, Some("tok".into()), None, Some(text.into())).unwrap().retention_days
    };
    assert_eq!(days("+5"), 5);
    assert_eq!(days("-1"), -1);
    assert_eq!(days("007"), 7);
    assert_eq!(days("-9223372036854775808"), i64::MIN);
    assert_eq!(days("9223372036854775808"), 7, "an overflowing count is the default");
    assert_eq!(days(" 3"), 7, "white space is no digit");
    assert_eq!(days("+"), 7);
    assert_eq!(days(""), 7);
}

#[test]
fn a_clock_reading_counts_milliseconds_or_zero() {
    assert_eq!(epoch_millis(None), 0);
    assert_eq!(epoch_millis(Some(1_700_000_000_123)), 1_700_000_000_123);
    assert_eq!(epoch_millis(Some((1u128 << 64) | 7)), 7);
    assert_eq!(epoch_millis(Some(u64::MAX as u128)), -1);
}
