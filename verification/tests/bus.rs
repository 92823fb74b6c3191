use interlink::bus::{
    may_ack, message_reply, read_ack, read_send, retained, roster_key, roster_reply, status_reply,
    AckReply, Broker, Envelope, RecvStep, AWAY_RETAIN_MS, ROSTER_CAP,
};
use interlink::json::Json;
use interlink::store::Store;

fn broker(cap: usize) -> Broker {
    Broker::new(Store::in_memory().unwrap(), cap)
}

fn json(text: &str) -> Json {
    Json::parse(text).unwrap()
}

fn received(b: &Broker, id: &str) -> (Envelope, String) {
    match b.recv(id, 50).unwrap() {
        RecvStep::Message(env, ack) => (env, ack),
        other => panic!("no message: {other:?}"),
    }
}

#[test]
fn enqueue_recv_ack_roundtrip() {
    let mut b = broker(8);
    b.enqueue("alice", json(r#"{ "hi": 1 }"#), 5).unwrap();
    let (env, ack) = received(&b, "alice");
    assert_eq!(env.payload, json(r#"{ "hi": 1 }"#));
    assert_eq!(env.ts, 5);
    // keep-until-ack: still there before ack
    assert_eq!(b.depth("alice").unwrap(), 1);
    b.ack(&ack).unwrap();
    assert_eq!(b.depth("alice").unwrap(), 0);
}

#[test]
fn redelivers_until_acked() {
    let mut b = broker(8);
    b.enqueue("alice", Json::text("x"), 1).unwrap();
    let (_e1, ack) = received(&b, "alice");
    // A second recv without acking sees the SAME message again.
    let (_e2, ack2) = received(&b, "alice");
    assert_eq!(ack, ack2);
    b.ack(&ack).unwrap();
    assert_eq!(b.recv("alice", 20).unwrap(), RecvStep::Wait);
    assert_eq!(b.recv("alice", 0).unwrap(), RecvStep::Timeout);
}

#[test]
fn recv_times_out_when_empty() {
    let b = broker(8);
    assert_eq!(b.recv("nobody", 10).unwrap(), RecvStep::Wait);
    assert_eq!(b.recv("nobody", 0).unwrap(), RecvStep::Timeout);
}

#[test]
fn fifo_order_across_acks() {
    let mut b = broker(8);
    for i in 0..3 {
        b.enqueue("bob", Json::Whole(i), i).unwrap();
    }
    for i in 0..3 {
        let (env, ack) = received(&b, "bob");
        assert_eq!(env.payload, Json::Whole(i));
        b.ack(&ack).unwrap();
    }
}

#[test]
fn bounded_queue_drops_oldest() {
    let mut b = broker(2);
    for i in 0..4 {
        b.enqueue("bob", Json::Whole(i), i).unwrap();
    }
    assert_eq!(b.depth("bob").unwrap(), 2);
    let (env, _) = received(&b, "bob");
    assert_eq!(env.payload, Json::Whole(2), "0 and 1 were evicted");
}

#[test]
fn a_waiting_recv_is_woken_by_a_later_send() {
    let mut b = broker(8);
    assert_eq!(b.recv("alice", 2_000).unwrap(), RecvStep::Wait);
    b.enqueue("alice", Json::text("wake"), 1).unwrap();
    let (env, _) = received(&b, "alice");
    assert_eq!(env.payload, Json::text("wake"));
}

#[test]
fn roster_stores_and_expires() {
    let mut b = broker(8);
    b.announce(
        "keyA".into(),
        json(r#"{"pubkey":"keyA","name":"alice"}"#),
        1_000,
    );
    b.announce(
        "keyB".into(),
        json(r#"{"pubkey":"keyB","name":"bob"}"#),
        1_000,
    );
    assert_eq!(b.roster(1_000).len(), 2);
    assert_eq!(
        b.roster(1_000 + AWAY_RETAIN_MS - 1).len(),
        2,
        "retained within the away window"
    );
    assert_eq!(
        b.roster(1_000 + AWAY_RETAIN_MS + 1).len(),
        0,
        "dropped past the retention bound"
    );
}

#[test]
fn roster_stamps_age_ms() {
    let mut b = broker(8);
    b.announce(
        "keyA".into(),
        json(r#"{"pubkey":"keyA","name":"alice"}"#),
        1_000,
    );
    let r = b.roster(1_000 + 5_000);
    assert_eq!(r.len(), 1);
    assert_eq!(
        r[0].get("age_ms"),
        Some(&Json::Whole(5_000)),
        "age since last refresh"
    );
    // signed fields untouched
    assert_eq!(r[0].get_str("pubkey"), Some("keyA"));
}

#[test]
fn announce_upserts_by_pubkey() {
    let mut b = broker(8);
    b.announce(
        "keyA".into(),
        json(r#"{"pubkey":"keyA","name":"old"}"#),
        1_000,
    );
    b.announce(
        "keyA".into(),
        json(r#"{"pubkey":"keyA","name":"new"}"#),
        2_000,
    );
    let r = b.roster(2_000);
    assert_eq!(r.len(), 1, "same pubkey replaces, not appends");
    assert_eq!(r[0].get_str("name"), Some("new"));
}

#[test]
fn roster_key_scopes_by_session() {
    let s1 = json(r#"{"pubkey":"keyA","session":{"session_id":"aa11"}}"#);
    let s2 = json(r#"{"pubkey":"keyA","session":{"session_id":"bb22"}}"#);
    assert_eq!(roster_key(&s1).unwrap(), "keyA#aa11");
    assert_ne!(
        roster_key(&s1),
        roster_key(&s2),
        "distinct sessions distinct"
    );
    // Legacy / sessionless announcement falls back to the bare pubkey.
    assert_eq!(roster_key(&json(r#"{"pubkey":"keyA"}"#)).unwrap(), "keyA");
    assert!(
        roster_key(&json(r#"{"name":"x"}"#)).is_none(),
        "pubkey required"
    );
}

#[test]
fn two_sessions_under_one_identity_coexist() {
    let mut b = broker(8);
    let s1 = json(r#"{"pubkey":"keyA","session":{"session_id":"aa11"}}"#);
    let s2 = json(r#"{"pubkey":"keyA","session":{"session_id":"bb22"}}"#);
    b.announce(roster_key(&s1).unwrap(), s1, 1_000);
    b.announce(roster_key(&s2).unwrap(), s2, 1_000);
    assert_eq!(b.roster(1_000).len(), 2, "same identity, two live sessions");
}

#[test]
fn unregister_removes_one_session_immediately() {
    let mut b = broker(8);
    let s1 = json(r#"{"pubkey":"keyA","session":{"session_id":"aa11"}}"#);
    let s2 = json(r#"{"pubkey":"keyA","session":{"session_id":"bb22"}}"#);
    b.announce(roster_key(&s1).unwrap(), s1.copy(), 1_000);
    b.announce(roster_key(&s2).unwrap(), s2, 1_000);
    b.unregister(&roster_key(&s1).unwrap());
    let r = b.roster(1_000);
    assert_eq!(r.len(), 1, "only the unregistered session is gone");
    assert_eq!(
        r[0].get("session").unwrap().get_str("session_id"),
        Some("bb22")
    );
}

#[test]
fn full_roster_drops_its_oldest_for_a_newcomer() {
    let mut b = broker(8);
    for i in 0..ROSTER_CAP {
        // The one in the middle is the oldest.
        let at = if i == 7 { 900 } else { 1_000 };
        b.announce(format!("key{i}"), json(&format!(r#"{{"name":"n{i}"}}"#)), at);
    }
    let named = |b: &Broker, name: &str| {
        let r = b.roster(1_000);
        assert_eq!(r.len(), ROSTER_CAP);
        r.iter().any(|a| a.get_str("name") == Some(name))
    };
    // A refresh needs no place.
    b.announce("key0".into(), json(r#"{"name":"again"}"#), 1_000);
    assert!(named(&b, "again") && named(&b, "n7") && !named(&b, "n0"));
    b.announce("newcomer".into(), json(r#"{"name":"new"}"#), 1_000);
    assert!(named(&b, "new") && !named(&b, "n7") && named(&b, "n8"));
    // When the others have expired there is room again.
    b.announce(
        "newcomer".into(),
        json(r#"{"name":"new"}"#),
        1_000 + AWAY_RETAIN_MS,
    );
    assert_eq!(b.roster(1_000 + AWAY_RETAIN_MS).len(), 1);
}

#[test]
fn retention_ends_after_three_days() {
    assert!(retained(0, AWAY_RETAIN_MS - 1));
    assert!(!retained(0, AWAY_RETAIN_MS));
    assert!(retained(10, 5), "a clock that was set back expires nothing");
    assert_eq!(AWAY_RETAIN_MS, 3 * 24 * 60 * 60 * 1_000);
}

#[test]
fn only_the_recipient_acknowledges() {
    let mut b = broker(8);
    b.enqueue("alice", Json::Null, 1).unwrap();
    let (_, ack) = received(&b, "alice");
    assert!(matches!(b.ack_for("eve", &ack), AckReply::Forbidden));
    assert!(matches!(b.ack_for("ali", &ack), AckReply::Forbidden));
    assert_eq!(b.depth("alice").unwrap(), 1);
    assert!(matches!(b.ack_for("alice", &ack), AckReply::Done));
    assert_eq!(b.depth("alice").unwrap(), 0);
    assert!(may_ack("alice", &ack));
    assert!(!may_ack("alice", "alice"));
}

#[test]
fn bodies_are_announced_and_unregistered_by_their_key() {
    let mut b = broker(8);
    let s1 = json(r#"{"pubkey":"keyA","session":{"session_id":"aa11"},"age_ms":9}"#);
    assert!(b.announce_body(s1.copy(), 1_000));
    assert!(!b.announce_body(json(r#"{"name":"x"}"#), 1_000));
    assert_eq!(b.roster(1_500)[0].get("age_ms"), Some(&Json::Whole(500)));
    assert!(!b.unregister_body(&json("{}")));
    assert_eq!(b.roster(1_000).len(), 1);
    assert!(b.unregister_body(&s1));
    assert_eq!(b.roster(1_000).len(), 0);
}

#[test]
fn requests_are_read_from_json() {
    let (to, payload) = read_send(br#"{"to":"bob","payload":[1,"x"]}"#).unwrap();
    assert_eq!(to, "bob");
    assert_eq!(payload, json(r#"[1,"x"]"#));
    assert!(read_send(br#"{"to":"bob"}"#).is_none());
    assert!(read_send(br#"{"to":7,"payload":null}"#).is_none());
    assert_eq!(
        read_ack(br#"{"me":"bob","ack":"k"}"#),
        Some(("bob".into(), "k".into()))
    );
    assert_eq!(read_ack(br#"{"me":"bob"}"#), None);
}

#[test]
fn replies_have_their_json_form() {
    let env = Envelope {
        payload: Json::text("hi"),
        ts: 7,
    };
    assert_eq!(
        message_reply(env, "k1").to_text(),
        r#"{"ack":"k1","envelope":{"payload":"hi","ts":7},"status":"message"}"#
    );
    assert_eq!(status_reply("timeout").to_text(), r#"{"status":"timeout"}"#);
    assert_eq!(
        roster_reply(vec![json("{}"), Json::Null]).to_text(),
        r#"{"roster":[{},null]}"#
    );
}

#[test]
fn queue_without_capacity_keeps_one() {
    let mut b = broker(0);
    b.enqueue("bob", Json::Whole(1), 1).unwrap();
    b.enqueue("bob", Json::Whole(2), 2).unwrap();
    assert_eq!(b.depth("bob").unwrap(), 1);
    assert_eq!(received(&b, "bob").0.payload, Json::Whole(2));
}

#[test]
fn fractions_and_deep_values_pass_through_the_queue() {
    let mut b = broker(8);
    let payload = json(r#"{"x":[1.5,-2,{"y":[[[[]]]]}]}"#);
    b.enqueue("bob", payload.copy(), 1).unwrap();
    assert_eq!(received(&b, "bob").0.payload, payload);
}

/// Arrays nested this deep around a number.
fn nested(depth: usize) -> Json {
    let mut j = json("-9223372036854775808");
    for _ in 0..depth {
        j = Json::Array(vec![j]);
    }
    j
}

#[test]
fn payload_comes_back_as_deep_as_the_reader_goes() {
    let mut b = broker(8);
    assert!(nested(126).is_plain(126));
    b.enqueue("alice", nested(126), 3).unwrap();
    let (env, _) = received(&b, "alice");
    assert_eq!((env.payload, env.ts), (nested(126), 3));
    assert!(!nested(127).is_plain(126));
    b.enqueue("bob", nested(127), 3).unwrap();
    assert!(b.recv("bob", 0).is_err());
}

#[test]
fn request_is_a_record_whose_fields_come_once() {
    let read = |text: &str| read_send(text.as_bytes());
    let (to, payload) = read(" {\n\"payload\" : {\"a\":-1} ,\t\"to\":\"b\\u006fb\"}\r ").unwrap();
    assert_eq!((to.as_str(), payload), ("bob", json(r#"{"a":-1}"#)));
    // A list has the fields in their order, and just these.
    assert_eq!(read(r#"["bob",7]"#).unwrap().1, Json::Whole(7));
    assert!(read(r#"["bob"]"#).is_none() && read(r#"["bob",7,8]"#).is_none());
    // What is no field is passed over, as long as it is written like a value.
    for other in ["1e999", r#""\ud800""#, "[[1,{}],null]", "{\"to\":3}"] {
        let text = format!(r#"{{"other":{other},"to":"bob","other":0,"payload":null}}"#);
        assert_eq!(read(&text).unwrap(), ("bob".into(), Json::Null), "{other}");
        assert!(Json::parse(&text).is_some() == !matches!(other, "1e999" | r#""\ud800""#));
    }
    for text in [
        r#"{"to":"bob","payload":1,"to":"bob"}"#,
        r#"{"to":"bob","payload":1,"payload":1}"#,
        r#"{"to":"bob","payload":1e999}"#,
        r#"{"to":"bob","payload":1} x"#,
        r#"{"to":"bob","payload":1,}"#,
        r#"{"to":"bob" "payload":1}"#,
        r#"{"to":"bob","payload"}"#,
        r#"{"to":"bob","payload":1"#,
        r#"{"to":"bob","x":01,"payload":1}"#,
        r#"{to:"bob","payload":1}"#,
        "",
        "{}",
        "[]",
        "7",
    ] {
        assert!(read(text).is_none(), "{text}");
    }
    // A field may be nested one level less than what stands alone.
    let deep = |n: usize| format!(r#"{{"to":"b","payload":{}{}}}"#, "[".repeat(n), "]".repeat(n));
    assert!(read(&deep(126)).is_some() && read(&deep(127)).is_none());
    assert_eq!(read_ack(br#"{"ack":"k","x":1e999,"me":"bob"}"#), Some(("bob".into(), "k".into())));
    assert_eq!(read_ack(br#"{"ack":"k","ack":"k","me":"bob"}"#), None);
    assert!(read_ack(b"{\"ack\":\"k\",\"x\":\"\xff\",\"me\":\"bob\"}").is_some());
    assert!(read_ack(b"{\"ack\":\"k\xff\",\"me\":\"bob\"}").is_none());
}

#[test]
fn stored_envelope_is_a_record_too() {
    let read = |text: &str| Envelope::from_bytes(text.as_bytes()).map(|e| (e.payload, e.ts));
    assert_eq!(read(r#"{"ts":5,"payload":null,"x":1e999}"#), Some((Json::Null, 5)));
    assert_eq!(read(r#"[null,5]"#), Some((Json::Null, 5)));
    assert!(read(r#"{"ts":5,"ts":5,"payload":null}"#).is_none());
    assert!(read(r#"{"ts":-5,"payload":null}"#).is_none());
    assert!(read(r#"{"ts":5.0,"payload":null}"#).is_none());
}
