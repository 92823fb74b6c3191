use interlink::bus::{
    may_ack, message_reply, read_ack, read_send, roster_key, roster_reply, status_reply, AckReply,
    Broker, RecvStep,
};
use interlink::identity::{AgentKey, SessionInfo};
use interlink::json::Json;
use interlink::node::{ack_body, read_poll, Node, Polled};
use interlink::outbox::send_body;
use interlink::policy::Policy;
use interlink::roster::roster_entries;
use interlink::store::Store;

fn key(seed: u8) -> AgentKey {
    AgentKey::from_seed([seed; 32])
}

fn node(seed: u8, session: &str) -> Node {
    let session = SessionInfo {
        session_id: session.into(),
        ..SessionInfo::default()
    };
    Node::new(key(seed), "node".into(), session, Policy::default())
}

/// What arrives at the other end of a connection.
fn carried(j: Json) -> Json {
    Json::parse_bytes(j.to_text().as_bytes()).unwrap()
}

#[test]
fn message_goes_over_the_bus_as_it_is() {
    let mut bus = Broker::new(Store::in_memory().unwrap(), 8);
    let bob = node(2, "s2");
    let msg = key(1).sign(bob.id(), "hello\n\"bob\"", 7, "id-1");
    let body = send_body(&bob.my_route(), &msg).to_text();
    let (to, payload) = read_send(body.as_bytes()).unwrap();
    assert_eq!(to, bob.my_route());
    bus.enqueue(&to, payload, 9).unwrap();

    let Ok(RecvStep::Message(envelope, ack)) = bus.recv(&bob.my_route(), 0) else {
        panic!("nothing waits");
    };
    assert_eq!(envelope.ts, 9);
    let Polled::Message { ack: Some(told), msg: got } =
        read_poll(&carried(message_reply(envelope, &ack)))
    else {
        panic!("not read as a message");
    };
    assert_eq!(told, ack);
    assert_eq!(got, msg);
    assert!(got.verify().unwrap().same(&key(1).id()));

    let body = ack_body(&bob.my_route(), &told).to_text();
    let (me, acked) = read_ack(body.as_bytes()).unwrap();
    assert_eq!((me.as_str(), acked.as_str()), (bob.my_route().as_str(), told.as_str()));
    assert!(matches!(bus.ack_for("someone-else", &acked), AckReply::Forbidden));
    assert_eq!(bus.depth(&bob.my_route()).unwrap(), 1);
    assert!(matches!(bus.ack_for(&me, &acked), AckReply::Done));
    assert_eq!(bus.depth(&bob.my_route()).unwrap(), 0);
}

#[test]
fn answer_without_a_message_is_none() {
    for status in ["timeout", "error"] {
        let answer = carried(status_reply(status));
        assert!(matches!(read_poll(&answer), Polled::Nothing));
    }
    assert_eq!(status_reply("timeout").to_text(), "{\"status\":\"timeout\"}");
}

#[test]
fn key_that_only_begins_alike_is_not_ones_own() {
    assert!(may_ack("bob", "bob\0000"));
    assert!(!may_ack("bob", "bobby\0000"));
    assert!(!may_ack("bobby", "bob\0000"));
}

#[test]
fn session_comes_and_goes_under_its_inbox() {
    let mut bus = Broker::new(Store::in_memory().unwrap(), 8);
    let bob = node(2, "s2");
    let announced = carried(bob.announcement(1_000).to_json());
    assert_eq!(roster_key(&announced), Some(bob.my_route()));
    assert_eq!(roster_key(&carried(bob.unregister_body())), Some(bob.my_route()));
    assert!(bus.announce_body(announced, 1_000));
    let listed = roster_entries(&carried(roster_reply(bus.roster(1_500)))).unwrap();
    assert_eq!(listed.len(), 1);
    assert_eq!(roster_key(&listed[0]), Some(bob.my_route()));
    assert!(bus.unregister_body(&carried(bob.unregister_body())));
    let listed = roster_entries(&carried(roster_reply(bus.roster(1_500)))).unwrap();
    assert!(listed.is_empty());
}
