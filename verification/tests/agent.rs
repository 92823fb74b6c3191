use interlink::agent::{
    decide, decide_within, Dedupe, Dispatch, PairTable, Reject, MAX_DELAY_MS, MAX_SKEW_MS,
};
use interlink::identity::{AgentKey, MessageKind, TaskStatus};
use interlink::policy::Policy;

fn policy_for(key: &AgentKey) -> Policy {
    let raw = format!(r#"{{ "alice": {{ "key": "{}" }} }}"#, key.id().to_b64());
    Policy::parse(&raw).unwrap()
}

#[test]
fn admitted_peer_is_dispatched_inline() {
    let (alice, me) = (AgentKey::generate().unwrap(), AgentKey::generate().unwrap());
    let policy = policy_for(&alice);
    let msg = alice.sign(me.id(), "run the deploy", 1_000, "m1");
    let mut seen = Dedupe::new(16);
    assert_eq!(
        decide(&msg, me.id(), &policy, 1_000, &mut seen),
        Ok(Dispatch::Inline {
            petname: "alice".into(),
            text: "run the deploy".into(),
            task_id: None,
            status: None,
            in_reply_to: None,
        })
    );
}

#[test]
fn stranger_is_rejected_even_with_valid_signature() {
    let (stranger, me) = (AgentKey::generate().unwrap(), AgentKey::generate().unwrap());
    let policy = policy_for(&AgentKey::generate().unwrap()); // allowlists someone else
    let msg = stranger.sign(me.id(), "hi", 1_000, "m1");
    let mut seen = Dedupe::new(16);
    assert_eq!(
        decide(&msg, me.id(), &policy, 1_000, &mut seen),
        Err(Reject::NotAllowlisted)
    );
}

#[test]
fn forged_sender_is_bad_signature() {
    let (alice, me) = (AgentKey::generate().unwrap(), AgentKey::generate().unwrap());
    let policy = policy_for(&alice);
    // Eve signs but stamps alice's key as `from`.
    let eve = AgentKey::generate().unwrap();
    let mut msg = eve.sign(me.id(), "hi", 1_000, "m1");
    msg.from = alice.id().to_b64();
    let mut seen = Dedupe::new(16);
    assert_eq!(
        decide(&msg, me.id(), &policy, 1_000, &mut seen),
        Err(Reject::BadSignature)
    );
}

#[test]
fn message_for_someone_else_is_rejected() {
    let (alice, me) = (AgentKey::generate().unwrap(), AgentKey::generate().unwrap());
    let other = AgentKey::generate().unwrap();
    let policy = policy_for(&alice);
    let msg = alice.sign(other.id(), "hi", 1_000, "m1"); // addressed to `other`
    let mut seen = Dedupe::new(16);
    assert_eq!(
        decide(&msg, me.id(), &policy, 1_000, &mut seen),
        Err(Reject::WrongRecipient)
    );
}

#[test]
fn stale_message_is_rejected() {
    let (alice, me) = (AgentKey::generate().unwrap(), AgentKey::generate().unwrap());
    let policy = policy_for(&alice);
    let msg = alice.sign(me.id(), "hi", 1_000, "m1");
    let mut seen = Dedupe::new(16);
    let far_future = 1_000 + MAX_SKEW_MS + 1;
    assert_eq!(
        decide(&msg, me.id(), &policy, far_future, &mut seen),
        Err(Reject::Stale)
    );
}

#[test]
fn replay_is_rejected_the_second_time() {
    let (alice, me) = (AgentKey::generate().unwrap(), AgentKey::generate().unwrap());
    let policy = policy_for(&alice);
    let msg = alice.sign(me.id(), "hi", 1_000, "m1");
    let mut seen = Dedupe::new(16);
    assert!(decide(&msg, me.id(), &policy, 1_000, &mut seen).is_ok());
    assert_eq!(
        decide(&msg, me.id(), &policy, 1_000, &mut seen),
        Err(Reject::Replay)
    );
}

#[test]
fn dedupe_forgets_oldest_beyond_cap() {
    let mut d = Dedupe::new(2);
    assert!(d.insert("a"));
    assert!(d.insert("b"));
    assert!(d.insert("c")); // evicts "a"
    assert!(d.insert("a"), "a was evicted, so it is fresh again");
    assert!(!d.insert("c"), "c is still within the window");
}

#[test]
fn non_peer_knock_is_surfaced_not_dropped() {
    let (stranger, me) = (AgentKey::generate().unwrap(), AgentKey::generate().unwrap());
    let policy = Policy::default(); // nobody is a peer
    let msg = stranger.sign_as(
        me.id(),
        "stranger-laptop",
        1_000,
        "k1",
        MessageKind::PairRequest,
    );
    let mut seen = Dedupe::new(16);
    assert_eq!(
        decide(&msg, me.id(), &policy, 1_000, &mut seen),
        Ok(Dispatch::PairRequest {
            from_key: stranger.id().to_b64(),
            name: "stranger-laptop".into()
        })
    );
}

#[test]
fn non_peer_plain_message_is_still_denied() {
    let (stranger, me) = (AgentKey::generate().unwrap(), AgentKey::generate().unwrap());
    let policy = Policy::default();
    let msg = stranger.sign(me.id(), "hi", 1_000, "m1");
    let mut seen = Dedupe::new(16);
    assert_eq!(
        decide(&msg, me.id(), &policy, 1_000, &mut seen),
        Err(Reject::NotAllowlisted)
    );
}

#[test]
fn pairing_kind_from_existing_peer_is_unexpected() {
    let (alice, me) = (AgentKey::generate().unwrap(), AgentKey::generate().unwrap());
    let policy = policy_for(&alice);
    let msg = alice.sign_as(me.id(), "x", 1_000, "k1", MessageKind::PairRequest);
    let mut seen = Dedupe::new(16);
    assert_eq!(
        decide(&msg, me.id(), &policy, 1_000, &mut seen),
        Err(Reject::Unexpected)
    );
}

#[test]
fn pair_table_put_take_and_find() {
    let mut t = PairTable::new(8);
    t.put("aaaabbbbcccc".into(), "desktop".into());
    assert_eq!(t.get("aaaabbbbcccc"), Some(&"desktop".to_string()));
    assert_eq!(
        t.find("aaaabbbb"), // exact 8-char fingerprint
        Some(("aaaabbbbcccc".into(), "desktop".into()))
    );
    assert_eq!(t.take("aaaabbbbcccc"), Some("desktop".into()));
    assert!(t.is_empty());
}

#[test]
fn pair_table_forgets_the_oldest_at_capacity() {
    let mut t = PairTable::new(2);
    t.put("k1".into(), "one".into());
    t.put("k2".into(), "two".into());
    t.put("k1".into(), "uno".into()); // replaced where it stands
    t.put("k3".into(), "three".into()); // the oldest, k1, leaves
    let names: Vec<String> = t.entries().iter().map(|(_, n)| n.clone()).collect();
    assert_eq!(names, vec!["two", "three"]);
    assert_eq!(t.get("k1"), None);
    assert_eq!(t.take("k1"), None);
    assert_eq!(t.find("k3"), Some(("k3".into(), "three".into())));
}

#[test]
fn tables_without_capacity_hold_one() {
    let mut t = PairTable::new(0);
    t.put("k1".into(), "one".into());
    t.put("k2".into(), "two".into());
    assert_eq!(t.entries().len(), 1);
    let mut d = Dedupe::new(0);
    assert!(d.insert("a"));
    assert!(!d.insert("a"));
    assert!(d.insert("b"));
    assert!(d.insert("a"));
}

#[test]
fn late_message_passes_the_generous_past_bound_only() {
    let (alice, me) = (AgentKey::generate().unwrap(), AgentKey::generate().unwrap());
    let policy = policy_for(&alice);
    let mut seen = Dedupe::new(16);
    let late = alice.sign(me.id(), "late", 1_000, "m1");
    let verdict = decide_within(
        &late,
        me.id(),
        &policy,
        1_000 + MAX_DELAY_MS,
        MAX_SKEW_MS,
        MAX_DELAY_MS,
        &mut seen,
    );
    assert!(verdict.is_ok());
    let early = alice.sign(me.id(), "early", 100_000 + MAX_SKEW_MS + 1, "m2");
    let verdict = decide_within(
        &early,
        me.id(),
        &policy,
        100_000,
        MAX_SKEW_MS,
        MAX_DELAY_MS,
        &mut seen,
    );
    assert_eq!(verdict, Err(Reject::Stale));
}

#[test]
fn own_key_is_the_same_principal() {
    let me = AgentKey::generate().unwrap();
    let msg = me.sign_full(
        me.id(),
        "from the other desk",
        1_000,
        "m1",
        MessageKind::Message,
        Some("t"),
        Some(TaskStatus::Update),
        Some("m0"),
    );
    let mut seen = Dedupe::new(16);
    assert_eq!(
        decide(&msg, me.id(), &Policy::default(), 1_000, &mut seen),
        Ok(Dispatch::Inline {
            petname: "self".into(),
            text: "from the other desk".into(),
            task_id: Some("t".into()),
            status: Some(TaskStatus::Update),
            in_reply_to: Some("m0".into()),
        })
    );
}

#[test]
fn pair_acceptance_is_surfaced() {
    let (stranger, me) = (AgentKey::generate().unwrap(), AgentKey::generate().unwrap());
    let msg = stranger.sign_as(me.id(), "desk", 1_000, "a1", MessageKind::PairAccept);
    let mut seen = Dedupe::new(16);
    assert_eq!(
        decide(&msg, me.id(), &Policy::default(), 1_000, &mut seen),
        Ok(Dispatch::PairAccept {
            from_key: stranger.id().to_b64(),
            name: "desk".into()
        })
    );
}

#[test]
fn refused_stranger_takes_no_place_among_the_seen() {
    let (alice, stranger, me) = (
        AgentKey::generate().unwrap(),
        AgentKey::generate().unwrap(),
        AgentKey::generate().unwrap(),
    );
    let policy = policy_for(&alice);
    let mut seen = Dedupe::new(16);
    let junk = stranger.sign(me.id(), "hi", 1_000, "m1");
    assert!(decide(&junk, me.id(), &policy, 1_000, &mut seen).is_err());
    // The same id from a peer is still new.
    let good = alice.sign(me.id(), "hi", 1_000, "m1");
    assert!(decide(&good, me.id(), &policy, 1_000, &mut seen).is_ok());
}

#[test]
fn allowlist_comes_before_the_recipient() {
    let (stranger, other, me) = (
        AgentKey::generate().unwrap(),
        AgentKey::generate().unwrap(),
        AgentKey::generate().unwrap(),
    );
    let msg = stranger.sign(other.id(), "hi", 1_000, "m1");
    let mut seen = Dedupe::new(16);
    assert_eq!(
        decide(&msg, me.id(), &Policy::default(), 1_000, &mut seen),
        Err(Reject::NotAllowlisted)
    );
}

#[test]
fn replacing_in_a_full_table_leaves_the_others() {
    let mut t = PairTable::new(2);
    t.put("a".into(), "1".into());
    t.put("b".into(), "2".into());
    t.put("a".into(), "3".into());
    assert_eq!(t.get("a").map(|s| s.as_str()), Some("3"));
    assert_eq!(t.get("b").map(|s| s.as_str()), Some("2"));
}

#[test]
fn id_is_remembered_while_there_is_place() {
    let mut seen = Dedupe::new(3);
    assert!(seen.insert("a"));
    assert!(seen.insert("b") && seen.insert("c"));
    assert!(!seen.insert("a"), "two others came since");
    assert!(seen.insert("d"));
    assert!(seen.insert("a"), "three others came since");
}
