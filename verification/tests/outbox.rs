use interlink::identity::AgentKey;
use interlink::json::Json;
use interlink::outbox::{
    delivery, render_record, send_body, Delivery, Outbox, OutboundJob, OutboundStep,
};
use interlink::store::{Dir, LogRecord, Store};

fn outbox() -> Outbox {
    Outbox::new(Store::in_memory().unwrap())
}

fn message(id: &str, ts: u64) -> interlink::identity::SignedMessage {
    let (a, b) = (AgentKey::from_seed([1; 32]), AgentKey::from_seed([2; 32]));
    a.sign(b.id(), "hello", ts, id)
}

#[test]
fn message_stays_queued_until_it_is_settled() {
    let mut o = outbox();
    assert_eq!(o.next().unwrap(), OutboundStep::Idle);
    assert_eq!(
        o.list_pending().unwrap(),
        "nothing pending; all sent messages were accepted by the bus"
    );
    o.queue_outbound("key#s", "bob", "hello", &message("m1", 10)).unwrap();
    o.queue_outbound("key#s", "bob", "again", &message("m2", 11)).unwrap();
    assert_eq!(
        o.list_pending().unwrap(),
        "2 pending:\n→ bob (msg_id m1)\n→ bob (msg_id m2)"
    );
    let deliver = |o: &mut Outbox| match o.next().unwrap() {
        OutboundStep::Deliver { key, job } => (key, job),
        other => panic!("{other:?}"),
    };
    let (key, job) = deliver(&mut o);
    assert_eq!(
        job,
        OutboundJob {
            to_key: "key#s".into(),
            peer: "bob".into(),
            msg_id: "m1".into(),
            msg: message("m1", 10),
        }
    );
    assert_eq!(
        o.message_status("m1").unwrap(),
        "→ bob [pending] (msg_id m1): hello"
    );
    // A failed delivery is tried again with the same job.
    assert_eq!(deliver(&mut o).0, key);
    o.settle(key, job.msg_id).unwrap();
    assert_eq!(
        o.message_status("m1").unwrap(),
        "→ bob [sent] (msg_id m1): hello"
    );
    let (key, job) = deliver(&mut o);
    assert_eq!(job.msg_id, "m2");
    o.settle(key, job.msg_id).unwrap();
    assert_eq!(o.next().unwrap(), OutboundStep::Idle);
}

#[test]
fn entry_that_cannot_be_read_is_dropped() {
    let mut store = Store::in_memory().unwrap();
    store.enqueue("outbox".into(), b"poison".to_vec()).unwrap();
    let mut o = Outbox::new(store);
    o.queue_outbound("key#s", "bob", "hello", &message("m1", 10)).unwrap();
    assert_eq!(o.list_pending().unwrap(), "1 pending:\n→ bob (msg_id m1)");
    assert_eq!(o.next().unwrap(), OutboundStep::Dropped);
    assert!(matches!(o.next().unwrap(), OutboundStep::Deliver { .. }));
}

#[test]
fn history_shows_both_directions() {
    let mut o = outbox();
    o.queue_outbound("key#s", "bob", "[task t] hello", &message("m1", 10)).unwrap();
    o.log_inbound("m2", "bob", "hi", 20).unwrap();
    o.log_inbound("m3", "amy", "other", 15).unwrap();
    assert_eq!(
        o.conversation_history("bob", None).unwrap(),
        "→ bob [pending] (msg_id m1): [task t] hello\n← bob [received] (msg_id m2): hi"
    );
    assert_eq!(
        o.conversation_history("bob", Some(1)).unwrap(),
        "← bob [received] (msg_id m2): hi"
    );
    assert_eq!(
        o.conversation_history("zoe", None).unwrap(),
        "no message history with zoe"
    );
    assert_eq!(
        o.message_status("m9").unwrap(),
        "no message with msg_id 'm9' in the log"
    );
}

#[test]
fn history_is_twenty_by_default() {
    let mut o = outbox();
    for i in 0..25u64 {
        o.log_inbound(&format!("m{i:02}"), "bob", "x", i).unwrap();
    }
    let shown = o.conversation_history("bob", None).unwrap();
    assert_eq!(shown.lines().count(), 20);
    assert!(shown.starts_with("← bob [received] (msg_id m05)"));
}

#[test]
fn withheld_text_is_not_shown() {
    let r = LogRecord {
        msg_id: "m".into(),
        dir: Dir::In,
        peer: "bob".into(),
        text: None,
        ts: 1,
        state: "received".into(),
    };
    assert_eq!(
        render_record(&r),
        "← bob [received] (msg_id m): [scoped body withheld]"
    );
}

#[test]
fn one_relay_is_enough() {
    assert_eq!(delivery(&vec![false, true, false]), Delivery::Accepted);
    assert_eq!(delivery(&vec![false, false]), Delivery::Refused);
    assert_eq!(delivery(&vec![]), Delivery::NoRelays);
}

#[test]
fn job_reads_back() {
    let job = OutboundJob {
        to_key: "k#s".into(),
        peer: "bob \"b\"".into(),
        msg_id: "m".into(),
        msg: message("m", 3),
    };
    let text = job.to_json().to_text();
    assert_eq!(OutboundJob::from_json(&Json::parse(&text).unwrap()), Some(job));
    assert_eq!(OutboundJob::from_json(&Json::parse("{}").unwrap()), None);
}

#[test]
fn relay_is_asked_with_route_and_message() {
    let m = message("m", 3);
    let body = send_body("k#s", &m);
    assert_eq!(body.get_str("to"), Some("k#s"));
    assert_eq!(body.get("payload"), Some(&m.to_json()));
}

#[test]
fn job_leaves_and_is_marked_only_when_accepted() {
    let mut o = outbox();
    o.queue_outbound("key#s", "bob", "one", &message("m1", 10)).unwrap();
    o.queue_outbound("key#s", "bob", "two", &message("m2", 11)).unwrap();
    let mut sent = Vec::new();
    for accepted in [vec![], vec![false, false], vec![false, true], vec![true]] {
        let OutboundStep::Deliver { key, job } = o.next().unwrap() else {
            panic!("nothing to deliver");
        };
        let id = job.msg_id.clone();
        let fared = o.conclude(key, job.msg_id, &accepted).unwrap();
        assert_eq!(fared, delivery(&accepted));
        let status = o.message_status(&id).unwrap();
        if fared == Delivery::Accepted {
            assert!(status.contains("[sent]"));
            sent.push(id);
        } else {
            assert!(status.contains("[pending]"));
        }
        let second = o.message_status("m2").unwrap();
        assert_eq!(second.contains("[sent]"), sent.len() == 2);
    }
    assert_eq!(sent, ["m1", "m2"]);
    assert_eq!(o.next().unwrap(), OutboundStep::Idle);
}
