use interlink::store::{Dir, LogRecord, Store};
use std::io::Write;

fn b(s: &str) -> Vec<u8> {
    s.as_bytes().to_vec()
}

#[test]
fn enqueue_peek_ack_roundtrip() {
    let mut s = Store::in_memory().unwrap();
    let key = s.enqueue("alice".into(), b("hi")).unwrap();
    let (k, v) = s.peek_oldest("alice".into()).unwrap().unwrap();
    assert_eq!(k, key);
    assert_eq!(v, b("hi"));
    // peek does not remove
    assert!(s.peek_oldest("alice".into()).unwrap().is_some());
    s.ack(key).unwrap();
    assert!(s.peek_oldest("alice".into()).unwrap().is_none());
}

#[test]
fn fifo_order_within_recipient() {
    let mut s = Store::in_memory().unwrap();
    for m in ["one", "two", "three"] {
        s.enqueue("bob".into(), b(m)).unwrap();
    }
    for expected in ["one", "two", "three"] {
        let (k, v) = s.peek_oldest("bob".into()).unwrap().unwrap();
        assert_eq!(v, b(expected));
        s.ack(k).unwrap();
    }
    assert!(s.peek_oldest("bob".into()).unwrap().is_none());
}

#[test]
fn recipients_are_isolated() {
    let mut s = Store::in_memory().unwrap();
    s.enqueue("alice".into(), b("for-alice")).unwrap();
    s.enqueue("bob".into(), b("for-bob")).unwrap();
    assert_eq!(s.depth("alice".into()).unwrap(), 1);
    assert_eq!(s.depth("bob".into()).unwrap(), 1);
    assert_eq!(
        s.peek_oldest("bob".into()).unwrap().unwrap().1,
        b("for-bob")
    );
}

#[test]
fn unacked_message_survives_reopen() {
    // The whole point: a message persists across a bus restart until acked.
    let dir = tempfile::tempdir().unwrap();
    let file = dir.path().join("q.redb");
    let path = file.to_str().unwrap();
    let key = {
        let mut s = Store::on_disk(path).unwrap();
        s.enqueue("alice".into(), b("durable")).unwrap()
    }; // Store (and its Database) dropped — simulates a restart
    let mut s2 = Store::on_disk(path).unwrap();
    let (k, v) = s2.peek_oldest("alice".into()).unwrap().unwrap();
    assert_eq!(k, key);
    assert_eq!(v, b("durable"));
    // and once acked, it's gone across another reopen
    s2.ack(k).unwrap();
    drop(s2);
    let s3 = Store::on_disk(path).unwrap();
    assert!(s3.peek_oldest("alice".into()).unwrap().is_none());
}

#[test]
fn ack_is_idempotent() {
    let mut s = Store::in_memory().unwrap();
    let key = s.enqueue("alice".into(), b("x")).unwrap();
    s.ack(key.clone()).unwrap();
    s.ack(key).unwrap(); // no error the second time
    s.ack("never-existed".into()).unwrap();
}

fn rec(msg_id: &str, dir: Dir, peer: &str, text: Option<&str>, ts: u64) -> LogRecord {
    LogRecord {
        msg_id: msg_id.into(),
        dir,
        peer: peer.into(),
        text: text.map(str::to_string),
        ts,
        state: "pending".into(),
    }
}

#[test]
fn log_put_get_and_set_state() {
    let mut s = Store::in_memory().unwrap();
    s.log_put(rec("m1", Dir::Out, "bob", Some("hi bob"), 10))
        .unwrap();
    let got = s.log_get("m1".into()).unwrap().unwrap();
    assert_eq!(got.peer, "bob");
    assert_eq!(got.state, "pending");
    s.log_set_state("m1".into(), "sent".into()).unwrap();
    assert_eq!(s.log_get("m1".into()).unwrap().unwrap().state, "sent");
    // unknown id is a no-op, not an error
    s.log_set_state("nope".into(), "sent".into()).unwrap();
    assert!(s.log_get("nope".into()).unwrap().is_none());
}

#[test]
fn log_by_peer_is_chronological_and_limited() {
    let mut s = Store::in_memory().unwrap();
    s.log_put(rec("a", Dir::Out, "bob", Some("1"), 1)).unwrap();
    s.log_put(rec("b", Dir::In, "bob", Some("2"), 2)).unwrap();
    s.log_put(rec("c", Dir::Out, "bob", Some("3"), 3)).unwrap();
    s.log_put(rec("z", Dir::In, "carol", Some("other"), 5))
        .unwrap();
    let hist = s.log_by_peer("bob".into(), 2).unwrap();
    assert_eq!(
        hist.iter().map(|r| r.msg_id.as_str()).collect::<Vec<_>>(),
        vec!["b", "c"],
        "newest 2, in time order"
    );
    // carol's history is isolated from bob's
    assert_eq!(s.log_by_peer("carol".into(), 10).unwrap().len(), 1);
}

#[test]
fn scoped_body_is_not_persisted() {
    let mut s = Store::in_memory().unwrap();
    s.log_put(rec("s1", Dir::In, "carol", None, 7)).unwrap();
    let got = s.log_get("s1".into()).unwrap().unwrap();
    assert!(got.text.is_none(), "withheld body must stay withheld");
}

#[test]
fn list_returns_all_queued_for_recipient() {
    let mut s = Store::in_memory().unwrap();
    s.enqueue("outbox".into(), b("j1")).unwrap();
    s.enqueue("outbox".into(), b("j2")).unwrap();
    let all = s.list("outbox".into()).unwrap();
    assert_eq!(all.len(), 2);
    assert_eq!(all[0].1, b("j1"));
    assert_eq!(all[1].1, b("j2"));
}

#[test]
fn message_keys_number_all_queues_together() {
    let mut s = Store::in_memory().unwrap();
    let first = s.enqueue("alice".into(), b("x")).unwrap();
    let second = s.enqueue("bob".into(), b("y")).unwrap();
    assert_eq!(first, "alice\0".to_string() + "00000000000000000000");
    assert_eq!(second, "bob\0".to_string() + "00000000000000000001");
}

#[test]
fn a_recipient_whose_name_begins_another_is_its_own() {
    let mut s = Store::in_memory().unwrap();
    s.enqueue("key".into(), b("bare")).unwrap();
    s.enqueue("key#s1".into(), b("session")).unwrap();
    assert_eq!(s.depth("key".into()).unwrap(), 1);
    assert_eq!(s.peek_oldest("key#s1".into()).unwrap().unwrap().1, b("session"));
}

#[test]
fn history_keeps_time_order_when_logged_out_of_order() {
    let mut s = Store::in_memory().unwrap();
    s.log_put(rec("late", Dir::In, "bob", Some("2"), 1_000)).unwrap();
    s.log_put(rec("early", Dir::In, "bob", Some("1"), 999)).unwrap();
    let ids: Vec<String> = s
        .log_by_peer("bob".into(), 10)
        .unwrap()
        .into_iter()
        .map(|r| r.msg_id)
        .collect();
    assert_eq!(ids, vec!["early", "late"]);
}

#[test]
fn log_record_reads_back_whole() {
    let mut s = Store::in_memory().unwrap();
    let r = rec("m", Dir::In, "bob", Some("a \"quoted\" line\nand another"), u64::MAX);
    s.log_put(r.clone()).unwrap();
    assert_eq!(s.log_get("m".into()).unwrap(), Some(r));
}

#[test]
fn opening_a_file_that_is_no_database_fails() {
    let mut file = tempfile::NamedTempFile::new().unwrap();
    file.write_all(b"plain text, long enough to be read as something else")
        .unwrap();
    assert!(Store::on_disk(file.path().to_str().unwrap()).is_err());
}

#[test]
fn record_written_again_is_listed_once() {
    let mut s = Store::in_memory().unwrap();
    let r1 = rec("m1", Dir::Out, "bob", Some("hi"), 1);
    let r5 = LogRecord { ts: 5, ..r1.clone() };
    s.log_put(r1.clone()).unwrap();
    s.log_put(rec("m2", Dir::In, "bob", Some("yo"), 3)).unwrap();
    s.log_put(r5.clone()).unwrap();
    let m2 = rec("m2", Dir::In, "bob", Some("yo"), 3);
    assert_eq!(s.log_by_peer("bob".into(), 10).unwrap(), vec![m2.clone(), r5]);
    // Filed under another peer, it leaves the first one's history.
    let moved = LogRecord { peer: "amy".into(), ..r1 };
    s.log_put(moved.clone()).unwrap();
    assert_eq!(s.log_by_peer("bob".into(), 10).unwrap(), vec![m2]);
    assert_eq!(s.log_by_peer("amy".into(), 10).unwrap(), vec![moved]);
}

#[test]
fn key_of_an_acknowledged_message_is_not_given_again() {
    let mut s = Store::in_memory().unwrap();
    let first = s.enqueue("alice".into(), b("one")).unwrap();
    s.ack(first.clone()).unwrap();
    let second = s.enqueue("alice".into(), b("one")).unwrap();
    assert_ne!(first, second);
    s.ack(first).unwrap();
    assert_eq!(s.depth("alice".into()).unwrap(), 1);
}
