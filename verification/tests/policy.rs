use interlink::identity::{AgentKey, IdentityError};
use interlink::policy::{Policy, PolicyError};

fn policy_with_key(k: &AgentKey) -> Policy {
    let raw = format!(r#"{{ "alice": {{ "key": "{}" }} }}"#, k.id().to_b64());
    Policy::parse(&raw).unwrap()
}

#[test]
fn listed_key_resolves_to_its_petname() {
    let k = AgentKey::generate().unwrap();
    let p = policy_with_key(&k);
    assert_eq!(p.peer(k.id()).unwrap().petname, "alice");
}

#[test]
fn legacy_may_field_is_ignored() {
    // Files written by older versions carried a `"may"`; they must still load.
    let k = AgentKey::generate().unwrap();
    let raw = format!(
        r#"{{ "alice": {{ "key": "{}", "may": "*" }} }}"#,
        k.id().to_b64()
    );
    let p = Policy::parse(&raw).unwrap();
    assert_eq!(p.peer(k.id()).unwrap().petname, "alice");
}

#[test]
fn unlisted_sender_is_denied() {
    let k = AgentKey::generate().unwrap();
    let p = policy_with_key(&k);
    let stranger = AgentKey::generate().unwrap();
    assert!(
        p.peer(stranger.id()).is_none(),
        "unlisted key must not resolve"
    );
}

#[test]
fn invalid_key_fails_at_parse_time() {
    let raw = r#"{ "alice": { "key": "not-a-real-key" } }"#;
    assert!(Policy::parse(raw).is_err());
}

#[test]
fn duplicate_keys_are_rejected() {
    let k = AgentKey::generate().unwrap();
    let raw = format!(
        r#"{{ "a": {{ "key": "{0}" }}, "b": {{ "key": "{0}" }} }}"#,
        k.id().to_b64()
    );
    assert!(Policy::parse(&raw).is_err());
}

#[test]
fn resolve_maps_petname_to_key() {
    let k = AgentKey::generate().unwrap();
    let p = policy_with_key(&k);
    assert_eq!(p.resolve("alice").unwrap(), k.id());
    assert!(p.resolve("nobody").is_err());
}

#[test]
fn add_then_resolve_and_persist_round_trip() {
    let k = AgentKey::generate().unwrap();
    let mut p = Policy::default();
    p.add("desktop", &k.id().to_b64()).unwrap();
    assert_eq!(p.resolve("desktop").unwrap(), k.id());
    let reparsed = Policy::parse(&p.to_json()).unwrap();
    assert_eq!(reparsed.resolve("desktop").unwrap(), k.id());
}

#[test]
fn add_same_petname_is_idempotent() {
    let k = AgentKey::generate().unwrap();
    let mut p = Policy::default();
    p.add("bot", &k.id().to_b64()).unwrap();
    p.add("bot", &k.id().to_b64()).unwrap();
    assert_eq!(p.len(), 1, "same petname does not duplicate");
}

#[test]
fn add_rejects_key_under_a_second_petname() {
    let k = AgentKey::generate().unwrap();
    let mut p = Policy::default();
    p.add("first", &k.id().to_b64()).unwrap();
    assert!(
        p.add("second", &k.id().to_b64()).is_err(),
        "one key must not get two petnames"
    );
}

#[test]
fn add_rejects_invalid_key() {
    let mut p = Policy::default();
    assert!(p.add("x", "not-a-key").is_err());
}

#[test]
fn remove_reports_whether_it_removed() {
    let k = AgentKey::generate().unwrap();
    let mut p = Policy::default();
    p.add("gone", &k.id().to_b64()).unwrap();
    assert!(p.remove("gone"));
    assert!(!p.remove("gone"), "already absent");
    assert!(p.is_empty());
}

#[test]
fn add_refuses_to_rekey_a_petname() {
    let (k, l) = (AgentKey::generate().unwrap(), AgentKey::generate().unwrap());
    let mut p = Policy::default();
    p.add("desk", &k.id().to_b64()).unwrap();
    assert_eq!(
        p.add("desk", &l.id().to_b64()),
        Err(PolicyError::PetnameTaken {
            petname: "desk".into()
        })
    );
    assert_eq!(p.resolve("desk").unwrap(), k.id());
    assert!(p.peer(l.id()).is_none());
}

#[test]
fn each_policy_fault_has_its_words() {
    let k = AgentKey::generate().unwrap();
    let key = k.id().to_b64();
    assert_eq!(
        Policy::parse("[]").unwrap_err().message(),
        "peers file is not valid policy JSON"
    );
    assert_eq!(
        Policy::parse("{").unwrap_err(),
        PolicyError::NotPolicyJson
    );
    assert_eq!(
        Policy::parse(r#"{ "alice": { "may": "*" } }"#).unwrap_err(),
        PolicyError::NotPolicyJson
    );
    assert_eq!(
        Policy::parse(r#"{ "alice": { "key": "!" } }"#).unwrap_err(),
        PolicyError::InvalidKey {
            petname: "alice".into(),
            cause: IdentityError::IdNotBase64
        }
    );
    let shared = format!(r#"{{ "a": {{ "key": "{key}" }}, "b": {{ "key": "{key}" }} }}"#);
    let fault = Policy::parse(&shared).unwrap_err();
    assert_eq!(fault.message(), "peers 'a' and 'b' share the same key");
    let mut p = Policy::default();
    p.add("first", &key).unwrap();
    assert_eq!(
        p.add("second", &key).unwrap_err().message(),
        "that key is already authorized as 'first'"
    );
    assert_eq!(
        p.resolve("nobody").unwrap_err().message(),
        "unknown peer 'nobody'"
    );
    let other = AgentKey::generate().unwrap().id().to_b64();
    assert_eq!(
        p.add("first", &other).unwrap_err().message(),
        "petname 'first' already names a different key"
    );
    assert!(p
        .add("x", "!")
        .unwrap_err()
        .message()
        .starts_with("peer 'x' has an invalid key: "));
}

#[test]
fn peers_file_is_pretty_json_in_petname_order() {
    let k = AgentKey::generate().unwrap().id().to_b64();
    let l = AgentKey::generate().unwrap().id().to_b64();
    let mut p = Policy::default();
    p.add("zoe", &k).unwrap();
    p.add("amy", &l).unwrap();
    assert_eq!(
        p.to_file_text(),
        format!(
            "{{\n  \"amy\": {{\n    \"key\": \"{l}\"\n  }},\n  \"zoe\": {{\n    \"key\": \"{k}\"\n  }}\n}}\n"
        )
    );
    let petnames: Vec<&str> = p.peers().iter().map(|q| q.petname.as_str()).collect();
    assert_eq!(petnames, vec!["zoe", "amy"]);
}

#[test]
fn removed_peer_is_denied() {
    let k = AgentKey::generate().unwrap();
    let mut p = policy_with_key(&k);
    assert!(p.remove("alice"));
    assert!(p.peer(k.id()).is_none());
    assert!(p.resolve("alice").is_err());
}

#[test]
fn peers_file_is_read_record_by_record() {
    let k = AgentKey::from_seed([1; 32]).id().to_b64();
    let l = AgentKey::from_seed([2; 32]).id().to_b64();
    let read = |text: String| Policy::parse(&text);
    // What an older version wrote is passed over, whatever it holds.
    for may in ["[\"exec\"]", "1e999", "\"\\ud800\"", "{\"key\":1}"] {
        let p = read(format!(r#"{{"bob":{{"may":{may},"key":"{k}","may":0}}}}"#)).unwrap();
        assert_eq!((p.len(), p.peers()[0].petname.as_str()), (1, "bob"));
    }
    assert_eq!(read(format!(r#"{{"bob":["{k}"]}}"#)).unwrap().len(), 1);
    // A petname that comes again counts as it comes last.
    let p = read(format!(r#"{{"b":{{"key":"{k}"}},"a":{{"key":"{k}"}},"b":{{"key":"{l}"}}}}"#)).unwrap();
    assert_eq!(p.resolve("b").unwrap().to_b64(), l);
    assert_eq!(p.peers()[0].petname, "a");
    for text in [
        format!(r#"{{"bob":{{"key":"{k}","key":"{k}"}}}}"#),
        format!(r#"{{"bob":{{"key":7}},"bob":{{"key":"{k}"}}}}"#),
        format!(r#"{{"bob":["{k}","{k}"]}}"#),
        format!(r#"{{"bob":{{"key":"{k}"}}}} x"#),
        format!(r#"[["bob",{{"key":"{k}"}}]]"#),
        r#"{"bob":{}}"#.to_string(),
        r#"{"bob":7}"#.to_string(),
    ] {
        assert!(matches!(read(text.clone()), Err(PolicyError::NotPolicyJson)), "{text}");
    }
}

#[test]
fn saved_file_reads_as_the_same_allowlist() {
    let mut p = Policy::default();
    for (i, name) in ["zoe", "amy \"q\"\n", "bob"].into_iter().enumerate() {
        p.add(name, &AgentKey::from_seed([i as u8; 32]).id().to_b64()).unwrap();
    }
    let q = Policy::parse(&p.to_file_text()).unwrap();
    assert_eq!(q.to_file_text(), p.to_file_text());
    assert_eq!(q.len(), 3);
    for peer in p.peers() {
        assert_eq!(q.resolve(&peer.petname).unwrap(), peer.id);
    }
}
