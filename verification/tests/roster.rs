use interlink::identity::{AgentKey, Announcement, SessionInfo};
use interlink::json::Json;
use interlink::pick::{
    alternative_text, knock_session, other_sessions, outlook_text, resolve_session, route_session,
    PickError,
};
use interlink::policy::Policy;
use interlink::roster::{
    age_text, discover, group_by_identity, peer_sessions, resolve_target, roster_entries,
    session_line, verified_roster, LiveSession, TargetError, LIVE_MS, STALE_MS,
};

fn session(id: &str) -> SessionInfo {
    SessionInfo {
        session_id: id.into(),
        ..SessionInfo::default()
    }
}

fn at(id: &str, age_ms: Option<u64>) -> LiveSession {
    LiveSession {
        info: session(id),
        age_ms,
    }
}

fn announced(key: &AgentKey, name: &str, id: &str, age_ms: Option<u64>) -> Json {
    let mut a = key.announce(name, &session(id), 1_000);
    a.age_ms = age_ms;
    a.to_json()
}

const HOUR: u64 = 3_600_000;

#[test]
fn ages_are_told_in_minutes_hours_and_days() {
    assert_eq!(age_text(0), "0m");
    assert_eq!(age_text(20 * 60_000), "20m");
    assert_eq!(age_text(45 * 60_000 + 59_999), "45m");
    assert_eq!(age_text(HOUR), "1h");
    assert_eq!(age_text(47 * HOUR), "47h");
    assert_eq!(age_text(48 * HOUR), "2 days");
    assert_eq!(age_text(71 * HOUR), "2 days");
}

#[test]
fn session_line_shows_what_there_is() {
    let s = LiveSession {
        info: SessionInfo {
            session_id: "a3f2c1".into(),
            cwd: "~/eden".into(),
            git_root: "eden".into(),
            summary: "installing deps".into(),
        },
        age_ms: Some(LIVE_MS - 1),
    };
    assert_eq!(
        session_line(&s),
        "a3f2c1 · ~/eden · git:eden · \"installing deps\""
    );
    assert_eq!(session_line(&at("x", None)), "x");
    assert_eq!(
        session_line(&at("x", Some(45 * 60_000))),
        "x · away (last seen 45m ago)"
    );
}

#[test]
fn live_means_younger_than_three_heartbeats() {
    assert!(at("x", Some(LIVE_MS - 1)).is_live());
    assert!(!at("x", Some(LIVE_MS)).is_live());
    assert!(at("x", None).is_live());
    assert_eq!(LIVE_MS, 90_000);
}

#[test]
fn roster_keeps_what_verifies_once() {
    let (a, b) = (AgentKey::generate().unwrap(), AgentKey::generate().unwrap());
    let good = announced(&a, "alice", "s1", Some(5));
    let mut forged = a.announce("alice", &session("s2"), 1_000);
    forged.pubkey = b.id().to_b64();
    let entries = vec![
        good.copy(),
        Json::text("junk"),
        forged.to_json(),
        good.copy(),
        announced(&a, "alice", "s2", None),
    ];
    let anns = verified_roster(&entries);
    let ids: Vec<&str> = anns.iter().map(|x| x.session.session_id.as_str()).collect();
    assert_eq!(ids, vec!["s1", "s2"]);
    assert_eq!(anns[0].age_ms, Some(5));
}

#[test]
fn roster_is_read_out_of_the_answer() {
    let alice = AgentKey::from_seed([1; 32]);
    let entry = announced(&alice, "alice", "s1", Some(5));
    let text = format!("{{\"roster\":[{},7]}}", entry.to_text());
    let entries = roster_entries(&Json::parse(&text).unwrap()).unwrap();
    assert_eq!(entries.len(), 2);
    assert_eq!(entries[0].to_text(), entry.to_text());
    assert_eq!(entries[1].to_text(), "7");
    assert_eq!(verified_roster(&entries).len(), 1);
    for other in ["{}", "[]", "{\"roster\":{}}", "{\"roster\":null}"] {
        assert!(roster_entries(&Json::parse(other).unwrap()).is_none());
    }
}

#[test]
fn identities_are_grouped_in_first_seen_order() {
    let (a, b) = (AgentKey::generate().unwrap(), AgentKey::generate().unwrap());
    let anns: Vec<Announcement> = vec![
        a.announce("alice", &session("s1"), 1),
        b.announce("bob", &session(""), 1),
        a.announce("later name", &session("s2"), 1),
    ];
    let groups = group_by_identity(&anns);
    assert_eq!(groups.len(), 2);
    assert_eq!(groups[0].name, "alice");
    let ids: Vec<&str> = groups[0]
        .sessions
        .iter()
        .map(|s| s.info.session_id.as_str())
        .collect();
    assert_eq!(ids, vec!["s1", "s2"]);
    assert_eq!(groups[1].name, "bob");
    assert!(groups[1].sessions.is_empty());
    assert_eq!(peer_sessions(&groups, &a.id().to_b64()).len(), 2);
    assert!(peer_sessions(&groups, "nobody").is_empty());
}

#[test]
fn target_is_a_key_a_fingerprint_or_a_name() {
    let (a, b, c) = (
        AgentKey::generate().unwrap(),
        AgentKey::generate().unwrap(),
        AgentKey::generate().unwrap(),
    );
    let groups = group_by_identity(&vec![
        a.announce("alice", &session("s1"), 1),
        b.announce("twin", &session("s2"), 1),
        c.announce("twin", &session("s3"), 1),
    ]);
    let key = a.id().to_b64();
    assert_eq!(resolve_target(&groups, &key), Ok(key.clone()));
    assert_eq!(resolve_target(&groups, &a.id().fingerprint()), Ok(key.clone()));
    assert_eq!(resolve_target(&groups, "alice"), Ok(key));
    assert_eq!(resolve_target(&groups, "twin"), Err(TargetError::SharedName));
    assert_eq!(resolve_target(&groups, "zoe"), Err(TargetError::NotListed));
    assert_eq!(
        TargetError::NotListed.message("zoe"),
        "no node 'zoe' on the roster (run discover to see who's online)"
    );
    assert_eq!(
        TargetError::SharedName.message("twin"),
        "name 'twin' is shared by multiple keys — use the fingerprint"
    );
}

#[test]
fn fingerprint_that_several_keys_have_is_ambiguous() {
    // The fingerprint is the first eight characters of whatever key text a group has.
    let (a, b) = (AgentKey::generate().unwrap(), AgentKey::generate().unwrap());
    let mut groups = group_by_identity(&vec![
        a.announce("a", &session("s1"), 1),
        b.announce("b", &session("s2"), 1),
    ]);
    groups[0].key = "abcdefgh-one".into();
    groups[1].key = "abcdefgh-two".into();
    assert_eq!(
        resolve_target(&groups, "abcdefgh"),
        Err(TargetError::SharedFingerprint)
    );
    assert_eq!(
        TargetError::SharedFingerprint.message("abcdefgh"),
        "fingerprint 'abcdefgh' is ambiguous — use the full key"
    );
}

#[test]
fn discover_lists_identities_with_their_sessions() {
    let (me, peer, other) = (
        AgentKey::generate().unwrap(),
        AgentKey::generate().unwrap(),
        AgentKey::generate().unwrap(),
    );
    let mut policy = Policy::default();
    policy.add("desk", &peer.id().to_b64()).unwrap();
    let entries = vec![
        announced(&me, "laptop", "s0", Some(0)),
        announced(&peer, "box", "s1", Some(LIVE_MS + 60_000)),
        announced(&other, "box", "s2", Some(0)),
    ];
    let (k0, k1, k2) = (me.id().to_b64(), peer.id().to_b64(), other.id().to_b64());
    let (f0, f1, f2) = (
        me.id().fingerprint(),
        peer.id().fingerprint(),
        other.id().fingerprint(),
    );
    let all = discover(&entries, None, &k0, "s0", &policy).unwrap();
    assert_eq!(
        all,
        format!(
            "laptop ({f0}…)  [you]\n    key: {k0}\n    → s0  ← this session\n\
             box ({f1}…)  [already a peer, name shared — verify fingerprint]\n    key: {k1}\n    → s1 · away (last seen 2m ago)\n\
             box ({f2}…)  [name shared — verify fingerprint]\n    key: {k2}\n    → s2"
        )
    );
    // A petname comes before a name on the roster; a filter leaves no shared name.
    let one = discover(&entries, Some(" desk "), &k0, "s0", &policy).unwrap();
    assert_eq!(
        one,
        format!("box ({f1}…)  [already a peer]\n    key: {k1}\n    → s1 · away (last seen 2m ago)")
    );
    assert_eq!(
        discover(&entries, Some("box"), &k0, "s0", &policy),
        Err(TargetError::SharedName)
    );
    assert_eq!(discover(&entries, Some("  "), &k0, "s0", &policy).unwrap(), all);
    assert_eq!(
        discover(&vec![], Some("desk"), &k0, "s0", &policy).unwrap(),
        "no matching nodes on the bus roster"
    );
}

#[test]
fn hint_is_an_id_or_the_beginning_of_one() {
    let sessions = vec![at("aa11", None), at("aa22", None), at("bb33", None)];
    let found = |hint: &str| resolve_session(&sessions, hint, None);
    assert_eq!(found("aa11"), Ok("aa11".into()));
    assert_eq!(found("bb"), Ok("bb33".into()));
    assert_eq!(found("cc44"), Ok("cc44".into()), "queued for the offline id");
    let several = found("aa").unwrap_err();
    assert_eq!(
        several.message(),
        "session 'aa' matches several live sessions — use the full id:\n  aa11\n  aa22"
    );
}

#[test]
fn own_session_is_never_chosen_by_a_hint() {
    let sessions = vec![at("aa11", None), at("bb22", None)];
    let found = |hint: &str| resolve_session(&sessions, hint, Some("aa11"));
    assert_eq!(found("aa11"), Err(PickError::OwnSession));
    assert_eq!(found("aa"), Err(PickError::OwnSession));
    assert_eq!(found("bb"), Ok("bb22".into()));
    // A hint that begins the own id and a sibling's is shared.
    let siblings = vec![at("aa11", None), at("aa22", None)];
    assert_eq!(
        resolve_session(&siblings, "aa", Some("aa11")),
        Err(PickError::SharedPrefix {
            hint: "aa".into(),
            choices: vec![at("aa11", None), at("aa22", None)],
        })
    );
    assert_eq!(resolve_session(&siblings, "aa2", Some("aa11")), Ok("aa22".into()));
    assert_eq!(
        PickError::OwnSession.message(),
        "can't send a message to this same session"
    );
    assert_eq!(other_sessions(&sessions, Some("aa11")), vec![at("bb22", None)]);
}

#[test]
fn conversation_stays_with_a_session_that_sleeps() {
    let sessions = vec![at("asleep", Some(HOUR)), at("awake", Some(0))];
    assert_eq!(
        route_session(&sessions, Some("asleep"), None, "bob"),
        Ok("asleep".into())
    );
    // Ended: the only live session takes over.
    assert_eq!(
        route_session(&sessions, Some("ended"), None, "bob"),
        Ok("awake".into())
    );
    assert_eq!(route_session(&sessions, None, None, "bob"), Ok("awake".into()));
    // Nothing on the roster: the message waits for the session to return.
    assert_eq!(
        route_session(&vec![], Some("asleep"), None, "bob"),
        Ok("asleep".into())
    );
}

#[test]
fn route_needs_one_session_to_choose() {
    let two = vec![at("s1", Some(0)), at("s2", Some(1))];
    assert_eq!(
        route_session(&two, None, None, "bob").unwrap_err().message(),
        "'bob' has several live sessions — pass session=<id>:\n  s1\n  s2"
    );
    let asleep = vec![at("s1", Some(HOUR)), at("s2", Some(HOUR))];
    assert!(matches!(
        route_session(&asleep, None, None, "bob"),
        Err(PickError::Several { .. })
    ));
    assert_eq!(
        route_session(&vec![at("s1", Some(HOUR))], None, None, "bob"),
        Ok("s1".into())
    );
    assert_eq!(
        route_session(&vec![], None, None, "bob").unwrap_err().message(),
        "no live session for 'bob' on the roster — they may be offline (run discover)"
    );
    let own = vec![at("me", Some(0))];
    assert_eq!(
        route_session(&own, None, Some("me"), "self").unwrap_err().message(),
        "no other live session on this machine to reach"
    );
    assert_eq!(
        route_session(&own, Some("me"), Some("me"), "self"),
        Err(PickError::NoSibling)
    );
}

#[test]
fn knock_prefers_a_live_session() {
    let sessions = vec![at("asleep", Some(HOUR)), at("awake", Some(0))];
    assert_eq!(knock_session(&sessions), Some("awake".into()));
    assert_eq!(
        knock_session(&vec![at("asleep", Some(HOUR))]),
        Some("asleep".into())
    );
    assert_eq!(knock_session(&vec![]), None);
}

#[test]
fn sender_is_told_how_things_stand() {
    let sessions = vec![
        at("live", Some(0)),
        at("away", Some(20 * 60_000)),
        at("long", Some(STALE_MS)),
    ];
    assert_eq!(outlook_text(&sessions, "live"), "; delivering in the background");
    assert_eq!(
        outlook_text(&sessions, "away"),
        " — that session is away (asleep? last seen 20m ago); it'll deliver when it wakes"
    );
    assert_eq!(
        outlook_text(&sessions, "long"),
        " — away and last seen 2 days ago, so it may be gone, not asleep; run discover"
    );
    assert_eq!(
        outlook_text(&sessions, "gone"),
        ", but that session isn't on the roster (closed / long-dead) — may not deliver; run discover"
    );
    assert_eq!(
        alternative_text(&sessions, None, "away"),
        "; pass session=live to reach the awake one instead"
    );
    assert_eq!(alternative_text(&sessions, Some("live"), "away"), "");
    assert_eq!(alternative_text(&sessions, None, "live"), "");
    assert_eq!(alternative_text(&sessions, None, "gone"), "");
}
