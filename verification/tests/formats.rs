use interlink::clock::unix_millis;
use interlink::encoding::decode;
use interlink::identity::{
    AgentKey, Announcement, MessageKind, SessionInfo, SignedMessage, TaskStatus,
};
use interlink::json::Json;
use interlink::now_ms;
use interlink::route::Route;
use interlink::text::{
    before, eq_ignore_ascii_case, hex, join, lines, parse_number, push_decimal, push_padded,
    starts_with, take_chars, trim,
};

#[test]
fn json_reads_and_writes() {
    let text = r#"{"a":[1,-2,0.5,true,null],"b":{"c":"\"x\"\n"}}"#;
    let j = Json::parse(text).unwrap();
    assert_eq!(j.to_text(), text);
    assert_eq!(Json::parse(&j.to_pretty_text()), Some(j));
    assert!(Json::parse("{").is_none());
    assert!(Json::parse("").is_none());
    assert!(Json::parse_bytes(&[0xff]).is_none());
}

#[test]
fn json_objects_are_sorted_and_the_last_of_equal_keys_counts() {
    let j = Json::parse(r#"{"b":1,"a":2,"b":3}"#).unwrap();
    assert_eq!(j.to_text(), r#"{"a":2,"b":3}"#);
    let k = Json::object()
        .with("z", Json::Null)
        .with("m", Json::Bool(true))
        .with("z", Json::Whole(1));
    assert_eq!(k.to_text(), r#"{"m":true,"z":1}"#);
    assert_eq!(k.get("z"), Some(&Json::Whole(1)));
    assert_eq!(k.get_str("m"), None);
    assert_eq!(Json::Null.with("a", Json::Null), Json::Null);
}

#[test]
fn message_json_is_read_leniently() {
    let (a, b) = (AgentKey::from_seed([1; 32]), AgentKey::from_seed([2; 32]));
    let m = a.sign_full(
        b.id(),
        "hi",
        7,
        "m1",
        MessageKind::Message,
        Some("t"),
        Some(TaskStatus::Result),
        None,
    );
    assert_eq!(SignedMessage::from_json(&m.to_json()), Some(m.clone()));
    assert_eq!(m.to_json().get_str("status"), Some("result"));
    assert_eq!(m.to_json().get("in_reply_to"), None);
    // Old messages have no kind and no task; unknown fields are ignored; null is absent.
    let old = format!(
        r#"{{"from":"f","to":"t","text":"x","ts":1,"msg_id":"m","sig":"s","task_id":null,"extra":{}}}"#,
        "[]"
    );
    let read = SignedMessage::from_json(&Json::parse(&old).unwrap()).unwrap();
    assert_eq!(read.kind, MessageKind::Message);
    assert_eq!(read.task_id, None);
    for bad in [
        r#"{"from":"f"}"#,
        r#"{"from":"f","to":"t","text":"x","ts":-1,"msg_id":"m","sig":"s"}"#,
        r#"{"from":"f","to":"t","text":"x","ts":1,"msg_id":"m","sig":"s","kind":"nope"}"#,
        r#"{"from":"f","to":"t","text":"x","ts":1,"msg_id":"m","sig":"s","status":"nope"}"#,
        r#"{"from":"f","to":"t","text":"x","ts":1,"msg_id":"m","sig":"s","task_id":7}"#,
        r#""text""#,
    ] {
        assert_eq!(SignedMessage::from_json(&Json::parse(bad).unwrap()), None, "{bad}");
    }
}

#[test]
fn announcement_json_round_trips_with_and_without_age() {
    let key = AgentKey::from_seed([3; 32]);
    let info = SessionInfo {
        session_id: "s".into(),
        cwd: "/x".into(),
        git_root: "x".into(),
        summary: "y".into(),
    };
    let mut a = key.announce("n", &info, 5);
    assert_eq!(Announcement::from_json(&a.to_json()), Some(a.clone()));
    a.age_ms = Some(9);
    assert_eq!(Announcement::from_json(&a.to_json()), Some(a.clone()));
    assert_eq!(a.verify().unwrap(), key.id(), "the age is not signed");
    let bare = Json::parse(r#"{"pubkey":"p","name":"n","ts":1,"sig":"s"}"#).unwrap();
    assert_eq!(Announcement::from_json(&bare).unwrap().session, SessionInfo::default());
    assert_eq!(
        SessionInfo::from_json(&Json::parse(r#"{"session_id":"s"}"#).unwrap()).unwrap(),
        SessionInfo {
            session_id: "s".into(),
            ..SessionInfo::default()
        }
    );
}

#[test]
fn route_round_trips_through_text() {
    let r = Route::new("key", "session");
    assert_eq!(r.text(), "key#session");
    assert_eq!(Route::parse("key#session"), r);
    assert_eq!(Route::new("key", "").text(), "key");
    assert_eq!(Route::parse("key"), Route::new("key", ""));
    assert_eq!(Route::parse("key#"), Route::new("key", ""));
    assert_eq!(Route::parse("key#a#b").session, Some("a#b".into()));
}

#[test]
fn base64_is_url_safe_without_padding() {
    assert_eq!(decode("-_8"), Some(vec![0xfb, 0xff]));
    assert_eq!(decode("+/8"), None);
    assert_eq!(decode("-_8="), None);
    assert_eq!(decode("-_9"), None, "trailing bits must be zero");
    assert_eq!(decode(""), Some(vec![]));
}

#[test]
fn texts_are_cut_joined_and_numbered() {
    assert_eq!(take_chars("häuser", 3), "häu");
    assert_eq!(take_chars("ab", 8), "ab");
    assert!(starts_with("häuser", "hä"));
    assert!(!starts_with("h", "hä"));
    assert_eq!(trim(" \t\u{a0}x y\u{2003}\n"), "x y");
    assert!(eq_ignore_ascii_case("SeLf", "self"));
    assert!(!eq_ignore_ascii_case("Ä", "ä"));
    assert_eq!(join(&vec!["a".into(), "b".into()], ", "), "a, b");
    assert_eq!(join(&vec![], ", "), "");
    assert_eq!(lines("a\r\nb\n\nc"), vec!["a", "b", "", "c"]);
    assert_eq!(lines("a\n"), vec!["a"]);
    assert_eq!(hex(&vec![0, 171, 255]), "00abff");
    assert!(before("a", "ab") && before("Z", "a") && !before("b", "a") && !before("a", "a"));
    let mut s = "n=".to_string();
    push_decimal(&mut s, 0);
    push_decimal(&mut s, u64::MAX);
    push_padded(&mut s, 42, 5);
    assert_eq!(s, "n=01844674407370955161500042");
    assert_eq!(parse_number("0042"), Some(42));
    assert_eq!(parse_number("18446744073709551615"), Some(u64::MAX));
}

#[test]
fn clock_before_the_epoch_reads_zero() {
    assert_eq!(unix_millis(None), 0);
    assert_eq!(unix_millis(Some(5)), 5);
    assert_eq!(unix_millis(Some(u64::MAX as u128 + 3)), 2);
    // After 2020 and before 2100.
    let now = now_ms();
    assert!(now > 1_577_836_800_000 && now < 4_102_444_800_000);
}

#[test]
fn plain_values_hold_no_fraction() {
    let plain = |text: &str, depth: u8| Json::parse(text).unwrap().is_plain(depth);
    assert!(plain("-5", 0) && plain("18446744073709551615", 0));
    assert!(!plain("0.5", 9) && !plain(r#"{"a":[1e3]}"#, 9));
    assert!(plain(r#"{"a":[-1,"x",null]}"#, 2));
    assert!(!plain(r#"{"a":[-1,"x",null]}"#, 1));
}
