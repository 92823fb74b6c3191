use interlink::identity::{
    announce_canonical, canonical, check_freshness, mint_session_id, msg_id_from, new_msg_id,
    session_id_from, AgentId, AgentKey, IdentityError, MessageKind, SessionInfo, TaskStatus,
    Untimely, DOMAIN,
};

fn key() -> AgentKey {
    AgentKey::generate().unwrap()
}

#[test]
fn sign_then_verify_returns_the_sender() {
    let (alice, bob) = (key(), key());
    let msg = alice.sign(bob.id(), "hello", 1234, "m1");
    assert_eq!(msg.verify().unwrap(), alice.id());
}

#[test]
fn tampered_text_fails() {
    let (alice, bob) = (key(), key());
    let mut msg = alice.sign(bob.id(), "transfer 1", 1234, "m1");
    msg.text = "transfer 1000".into();
    assert!(msg.verify().is_err());
}

#[test]
fn tampered_recipient_fails() {
    let (alice, bob, eve) = (key(), key(), key());
    let mut msg = alice.sign(bob.id(), "hi", 1, "m1");
    msg.to = eve.id().to_b64();
    assert!(msg.verify().is_err());
}

#[test]
fn forged_sender_fails() {
    // Eve signs, then claims to be Alice.
    let (alice, bob, eve) = (key(), key(), key());
    let mut msg = eve.sign(bob.id(), "hi", 1, "m1");
    msg.from = alice.id().to_b64();
    assert!(msg.verify().is_err());
}

#[test]
fn ts_and_msg_id_are_covered() {
    let (alice, bob) = (key(), key());
    let orig = alice.sign(bob.id(), "hi", 1, "m1");
    for mut m in [orig.clone(), orig.clone()] {
        m.ts = 2;
        assert!(m.verify().is_err(), "ts must be signed");
    }
    let mut m = orig;
    m.msg_id = "m2".into();
    assert!(m.verify().is_err(), "msg_id must be signed");
}

#[test]
fn length_prefixes_stop_boundary_shifting() {
    // ("ab", "c") and ("a", "bc") must not produce the same signed bytes.
    let (alice, bob) = (key(), key());
    let a = canonical(
        alice.id(),
        bob.id(),
        1,
        "ab",
        "c",
        MessageKind::Message,
        None,
        None,
        None,
    );
    let b = canonical(
        alice.id(),
        bob.id(),
        1,
        "a",
        "bc",
        MessageKind::Message,
        None,
        None,
        None,
    );
    assert_ne!(a, b);
}

#[test]
fn domain_separation_is_bound_in() {
    let (alice, bob) = (key(), key());
    let bytes = canonical(
        alice.id(),
        bob.id(),
        1,
        "m1",
        "hi",
        MessageKind::Message,
        None,
        None,
        None,
    );
    assert!(bytes.starts_with(DOMAIN.as_bytes()));
}

#[test]
fn id_b64_round_trips() {
    let alice = key();
    let id = alice.id();
    assert_eq!(AgentId::from_b64(&id.to_b64()).unwrap(), id);
    assert_eq!(id.fingerprint().len(), 8);
}

#[test]
fn secret_key_b64_round_trips() {
    let alice = key();
    let restored = AgentKey::from_b64(&alice.to_b64()).unwrap();
    assert_eq!(restored.id(), alice.id());
}

#[test]
fn freshness_is_asymmetric() {
    // future skew 1s, past delay 10s.
    assert!(
        check_freshness(1_000, 1_500, 1_000, 10_000).is_ok(),
        "recent"
    );
    // A tight future bound still rejects a message dated ahead of now.
    assert!(
        check_freshness(5_000, 1_000, 1_000, 10_000).is_err(),
        "too far in the future"
    );
    // The generous past bound admits a legitimately delayed message that the old
    // symmetric 1s window would have dropped.
    assert!(
        check_freshness(1_000, 6_000, 1_000, 10_000).is_ok(),
        "5s late is fine with a 10s past bound"
    );
    // But not one older than the past bound.
    assert!(
        check_freshness(1_000, 12_000, 1_000, 10_000).is_err(),
        "11s late exceeds the past bound"
    );
}

#[test]
fn announcement_round_trips_and_rejects_tampering() {
    let alice = key();
    let session = SessionInfo {
        session_id: "a3f2c1".into(),
        cwd: "/home/alice/eden".into(),
        git_root: "eden".into(),
        summary: "installing deps".into(),
    };
    let a = alice.announce("alice-laptop", &session, 1234);
    assert_eq!(a.verify().unwrap(), alice.id());

    let mut tampered_name = a.clone();
    tampered_name.name = "eve-laptop".into();
    assert!(tampered_name.verify().is_err(), "name is signed");

    let mut tampered_session = a.clone();
    tampered_session.session.summary = "rm -rf /".into();
    assert!(
        tampered_session.verify().is_err(),
        "the session descriptor is signed"
    );

    let mut swapped_id = a.clone();
    swapped_id.session.session_id = "deadbeef".into();
    assert!(swapped_id.verify().is_err(), "session_id is signed");

    let mut forged_key = a;
    forged_key.pubkey = key().id().to_b64();
    assert!(
        forged_key.verify().is_err(),
        "can't reattribute to another key"
    );
}

#[test]
fn task_fields_are_covered_by_signature() {
    let (alice, bob) = (key(), key());
    let mut m = alice.sign_full(
        bob.id(),
        "on it",
        1,
        "m1",
        MessageKind::Message,
        Some("task-1"),
        Some(TaskStatus::Update),
        None,
    );
    assert!(m.verify().is_ok());
    m.status = Some(TaskStatus::Canceled);
    assert!(m.verify().is_err(), "status must be signed");

    let mut m2 = alice.sign_full(
        bob.id(),
        "answer",
        1,
        "m2",
        MessageKind::Message,
        Some("task-1"),
        None,
        Some("q1"),
    );
    assert!(m2.verify().is_ok());
    m2.in_reply_to = Some("q2".into());
    assert!(m2.verify().is_err(), "in_reply_to must be signed");
}

#[test]
fn kind_is_covered_by_signature() {
    let (alice, bob) = (key(), key());
    let mut m = alice.sign_as(bob.id(), "hi", 1, "m1", MessageKind::Message);
    assert!(m.verify().is_ok());
    // A message can't be re-typed into a pairing knock under the same signature.
    m.kind = MessageKind::PairRequest;
    assert!(m.verify().is_err(), "kind must be signed");
}

/// The first test vector of RFC 8032: a known seed, its public key, and its signature over
/// nothing but what the library signs.
fn rfc_key() -> AgentKey {
    AgentKey::from_seed([
        0x9d, 0x61, 0xb1, 0x9d, 0xef, 0xfd, 0x5a, 0x60, 0xba, 0x84, 0x4a, 0xf4, 0x92, 0xec, 0x2c,
        0xc4, 0x44, 0x49, 0xc5, 0x69, 0x7b, 0x32, 0x69, 0x19, 0x70, 0x3b, 0xac, 0x03, 0x1c, 0xae,
        0x7f, 0x60,
    ])
}

#[test]
fn a_known_seed_has_its_known_public_key() {
    assert_eq!(
        rfc_key().id().to_b64(),
        "11qYAYKxCrfVS_7TyWQHOg7hcvPapiMlrwIaaPcHURo"
    );
    assert_eq!(rfc_key().id().fingerprint(), "11qYAYKx");
    assert_eq!(
        rfc_key().to_b64(),
        "nWGxne_9WmC6hEr0kuwsxERJxWl7MmkZcDusAxyuf2A"
    );
}

#[test]
fn canonical_bytes_are_laid_out_in_order() {
    let me = rfc_key().id();
    let bytes = canonical(
        me,
        me,
        0x0102030405060708,
        "m",
        "hi",
        MessageKind::Message,
        Some("t1"),
        Some(TaskStatus::Update),
        None,
    );
    let mut want: Vec<u8> = b"interlink-v2\0".to_vec();
    want.extend_from_slice(me.as_bytes());
    want.extend_from_slice(me.as_bytes());
    want.extend_from_slice(&[8, 7, 6, 5, 4, 3, 2, 1]);
    for field in ["message", "m", "hi", "update", "t1", ""] {
        want.extend_from_slice(&(field.len() as u32).to_le_bytes());
        want.extend_from_slice(field.as_bytes());
    }
    assert_eq!(bytes, want);
}

#[test]
fn announcements_have_their_own_domain() {
    let me = rfc_key().id();
    let session = SessionInfo {
        session_id: "s".into(),
        cwd: "/c".into(),
        git_root: "g".into(),
        summary: "x".into(),
    };
    let bytes = announce_canonical(me, "n", &session, 1);
    let mut want: Vec<u8> = b"interlink-announce-v1\0".to_vec();
    want.extend_from_slice(me.as_bytes());
    for field in ["n", "s", "/c", "g", "x"] {
        want.extend_from_slice(&(field.len() as u32).to_le_bytes());
        want.extend_from_slice(field.as_bytes());
    }
    want.extend_from_slice(&1u64.to_le_bytes());
    assert_eq!(bytes, want);
    assert!(!bytes.starts_with(DOMAIN.as_bytes()));
}

#[test]
fn bad_ids_are_told_apart() {
    assert_eq!(AgentId::from_b64("not base64!"), Err(IdentityError::IdNotBase64));
    assert_eq!(AgentId::from_b64("AAAA"), Err(IdentityError::IdLength));
    // Thirty-two bytes that are no point of the curve.
    assert_eq!(
        AgentId::from_b64("AgAAAAAAAAAAAAAAAAAAAAAAAAAAAAAAAAAAAAAAAAA"),
        Err(IdentityError::IdNotAKey)
    );
    // Padding and unused bits that are set are refused.
    assert_eq!(AgentId::from_b64("AA=="), Err(IdentityError::IdNotBase64));
    assert_eq!(AgentId::from_b64("AB"), Err(IdentityError::IdNotBase64));
}

#[test]
fn bad_secrets_are_told_apart_and_white_space_is_let_pass() {
    assert_eq!(
        AgentKey::from_b64("?").err(),
        Some(IdentityError::SecretNotBase64)
    );
    assert_eq!(
        AgentKey::from_b64("AAAA").err(),
        Some(IdentityError::SecretLength)
    );
    let text = format!("  {}\n", rfc_key().to_b64());
    assert_eq!(AgentKey::from_b64(&text).unwrap().id(), rfc_key().id());
}

#[test]
fn bad_signatures_are_told_apart() {
    let alice = rfc_key();
    let mut m = alice.sign(alice.id(), "hi", 1, "m");
    m.sig = "!".into();
    assert_eq!(m.verify(), Err(IdentityError::SignatureNotBase64));
    m.sig = "AAAA".into();
    assert_eq!(m.verify(), Err(IdentityError::SignatureLength));
    m.sig = "A".repeat(86);
    assert_eq!(m.verify(), Err(IdentityError::SignatureRefused));
    m.to = "AAAA".into();
    assert_eq!(m.verify(), Err(IdentityError::IdLength));
    assert_eq!(
        IdentityError::SignatureLength.message(),
        "signature must be 64 bytes"
    );
}

#[test]
fn untimely_messages_say_by_how_much() {
    assert_eq!(
        check_freshness(5_000, 1_000, 1_000, 10_000),
        Err(Untimely::Future {
            by: 4_000,
            limit: 1_000
        })
    );
    assert_eq!(
        check_freshness(1_000, 12_000, 1_000, 10_000)
            .unwrap_err()
            .message(),
        "message timestamp is 11000ms in the past (max 10000ms)"
    );
    assert!(check_freshness(u64::MAX, u64::MAX - 5, 10, 0).is_ok());
    assert!(check_freshness(0, u64::MAX, 0, u64::MAX).is_ok());
}

#[test]
fn task_tags_round_trip() {
    for s in [
        TaskStatus::Update,
        TaskStatus::NeedsInput,
        TaskStatus::Result,
        TaskStatus::Failed,
        TaskStatus::Canceled,
    ] {
        assert_eq!(TaskStatus::from_tag(s.as_str()), Some(s));
    }
    assert_eq!(TaskStatus::from_tag("done"), None);
    assert_eq!(TaskStatus::NeedsInput.as_str(), "needs_input");
    assert!(TaskStatus::Failed.is_terminal());
    assert!(!TaskStatus::Update.is_terminal());
    assert_eq!(MessageKind::from_tag("pair_accept"), Some(MessageKind::PairAccept));
    assert_eq!(MessageKind::from_tag("x"), None);
}

#[test]
fn minted_ids_are_lower_case_hex() {
    let id = mint_session_id().unwrap();
    assert_eq!(id.len(), 8);
    assert!(id.chars().all(|c| matches!(c, '0'..='9' | 'a'..='f')));
    let (a, b) = (new_msg_id(), new_msg_id());
    assert_eq!(a.len(), 32);
    assert_ne!(a, b);
}

#[test]
fn key_is_made_of_what_was_drawn() {
    let seed = [7u8; 32];
    let key = AgentKey::from_entropy(Some(seed)).ok().unwrap();
    assert_eq!(key.to_b64(), AgentKey::from_seed(seed).to_b64());
    assert_ne!(key.to_b64(), AgentKey::from_seed([8; 32]).to_b64());
    assert!(matches!(
        AgentKey::from_entropy(None),
        Err(IdentityError::NoEntropy)
    ));
}

#[test]
fn hint_and_age_are_not_signed() {
    let (alice, bob) = (key(), key());
    let mut msg = alice.sign(bob.id(), "hello", 1234, "m1");
    msg.reply_to = Some("elsewhere#s".into());
    assert_eq!(msg.verify().unwrap(), alice.id());
    let mut ann = alice.announce("alice", &SessionInfo::default(), 1234);
    ann.age_ms = Some(7);
    assert_eq!(ann.verify().unwrap(), alice.id());
}

#[test]
fn ids_are_made_of_what_was_drawn() {
    assert_eq!(session_id_from(Some(vec![0, 1, 0xab, 0xff])), Ok("0001abff".into()));
    assert_eq!(session_id_from(None), Err(IdentityError::NoEntropy));
    assert_eq!(msg_id_from(Some(vec![0x10; 16])), "10".repeat(16));
    assert_eq!(msg_id_from(None), "0".repeat(32));
    assert_ne!(new_msg_id(), new_msg_id());
}
