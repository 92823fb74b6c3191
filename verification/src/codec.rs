//! The JSON forms of what travels over the bus and of what the agent keeps.
//!
//! A record is read from an object, whose other fields are ignored, or from a list of its fields
//! in order. An absent optional field and a null one are the same.
use crate::identity::{
    blank_session, kind_of_tag, kind_tags_round_trip, opt_text, status_of_tag,
    status_tags_round_trip, Announcement, AnnouncementView, MessageKind, MessageView, SessionInfo,
    SessionView, SignedMessage, TaskStatus,
};
use crate::json::{empty_object, with_is_found, with_is_plain, with_is_wf, Json, JsonTree};
use vstd::prelude::*;

verus! {

/// The value of a record's field: by its name in an object, by its place in a list.
pub open spec fn member(t: JsonTree, key: Seq<char>, place: int) -> Option<JsonTree> {
    match t {
        JsonTree::Object(_) => t.get(key),
        JsonTree::Array(items) => if place < items.len() {
            Some(items[place])
        } else {
            None
        },
        _ => None,
    }
}

/// The value can be a record of `n` fields.
pub open spec fn is_record(t: JsonTree, n: nat) -> bool {
    match t {
        JsonTree::Object(_) => true,
        JsonTree::Array(items) => items.len() <= n,
        _ => false,
    }
}

/// A field that must be a text.
pub open spec fn text_member(t: JsonTree, key: Seq<char>, place: int) -> Option<Seq<char>> {
    match member(t, key, place) {
        Some(v) => v.text(),
        None => None,
    }
}

/// A field that must be a whole number.
pub open spec fn whole_member(t: JsonTree, key: Seq<char>, place: int) -> Option<u64> {
    match member(t, key, place) {
        Some(JsonTree::Whole(n)) => Some(n),
        _ => None,
    }
}

/// A field that may be absent or null, and is a text otherwise.
pub open spec fn opt_text_member(t: JsonTree, key: Seq<char>, place: int) -> Option<
    Option<Seq<char>>,
> {
    match member(t, key, place) {
        None => Some(None),
        Some(JsonTree::Null) => Some(None),
        Some(JsonTree::Text(s)) => Some(Some(s)),
        Some(_) => None,
    }
}

/// A field that may be absent or null, and is a whole number otherwise.
pub open spec fn opt_whole_member(t: JsonTree, key: Seq<char>, place: int) -> Option<Option<u64>> {
    match member(t, key, place) {
        None => Some(None),
        Some(JsonTree::Null) => Some(None),
        Some(JsonTree::Whole(n)) => Some(Some(n)),
        Some(_) => None,
    }
}

/// A field that may be absent and is then empty, and is a text otherwise.
pub open spec fn default_text_member(t: JsonTree, key: Seq<char>, place: int) -> Option<
    Seq<char>,
> {
    match member(t, key, place) {
        None => Some(Seq::empty()),
        Some(v) => v.text(),
    }
}

/// The word that names a variant: a text, or the only field of an object, which is then null.
pub open spec fn variant_word(t: JsonTree) -> Option<Seq<char>> {
    match t {
        JsonTree::Text(s) => Some(s),
        JsonTree::Object(fields) => if fields.len() == 1 && fields[0].1 == JsonTree::Null {
            Some(fields[0].0)
        } else {
            None
        },
        _ => None,
    }
}

/// The value of a record's field.
pub fn member_of<'a>(j: &'a Json, key: &str, place: usize) -> (r: Option<&'a Json>)
    ensures
        match r {
            Some(v) => member(j.tree(), key@, place as int) == Some(v.tree()),
            None => member(j.tree(), key@, place as int) is None,
        },
        j.tree().wf() ==> (r matches Some(v) ==> v.tree().wf()),
{
    match j {
        Json::Object(_) => j.get(key),
        Json::Array(items) => if place < items.len() {
            assert(j.tree()->Array_0[place as int] == items@[place as int].tree());
            Some(&items[place])
        } else {
            None
        },
        _ => None,
    }
}

/// Whether the value can be a record of `n` fields.
pub fn is_record_of(j: &Json, n: usize) -> (r: bool)
    ensures
        r == is_record(j.tree(), n as nat),
{
    match j {
        Json::Object(_) => true,
        Json::Array(items) => items.len() <= n,
        _ => false,
    }
}

/// A field that must be a text.
pub fn text_of(j: &Json, key: &str, place: usize) -> (r: Option<String>)
    ensures
        opt_text(r) == text_member(j.tree(), key@, place as int),
{
    match member_of(j, key, place) {
        Some(v) => match v.as_str() {
            Some(s) => Some(s.to_string()),
            None => None,
        },
        None => None,
    }
}

/// A field that must be a whole number.
pub fn whole_of(j: &Json, key: &str, place: usize) -> (r: Option<u64>)
    ensures
        r == whole_member(j.tree(), key@, place as int),
{
    match member_of(j, key, place) {
        Some(Json::Whole(n)) => Some(*n),
        _ => None,
    }
}

/// A field that may be absent or null, and is a text otherwise.
pub fn opt_text_of(j: &Json, key: &str, place: usize) -> (r: Option<Option<String>>)
    ensures
        match r {
            Some(o) => opt_text_member(j.tree(), key@, place as int) == Some(opt_text(o)),
            None => opt_text_member(j.tree(), key@, place as int) is None,
        },
{
    match member_of(j, key, place) {
        None => Some(None),
        Some(Json::Null) => Some(None),
        Some(Json::Text(s)) => Some(Some(s.clone())),
        Some(_) => None,
    }
}

/// A field that may be absent or null, and is a whole number otherwise.
pub fn opt_whole_of(j: &Json, key: &str, place: usize) -> (r: Option<Option<u64>>)
    ensures
        r == opt_whole_member(j.tree(), key@, place as int),
{
    match member_of(j, key, place) {
        None => Some(None),
        Some(Json::Null) => Some(None),
        Some(Json::Whole(n)) => Some(Some(*n)),
        Some(_) => None,
    }
}

/// A field that may be absent and is then empty, and is a text otherwise.
pub fn default_text_of(j: &Json, key: &str, place: usize) -> (r: Option<String>)
    ensures
        opt_text(r) == default_text_member(j.tree(), key@, place as int),
{
    match member_of(j, key, place) {
        None => Some(String::new()),
        Some(v) => match v.as_str() {
            Some(s) => Some(s.to_string()),
            None => None,
        },
    }
}

/// The word that names a variant.
pub fn variant_word_of(j: &Json) -> (r: Option<&str>)
    ensures
        match r {
            Some(s) => variant_word(j.tree()) == Some(s@),
            None => variant_word(j.tree()) is None,
        },
{
    match j {
        Json::Text(s) => Some(s.as_str()),
        Json::Object(fields) => {
            if fields.len() != 1 {
                return None;
            }
            assert(j.tree()->Object_0[0] == (fields@[0].0@, fields@[0].1.tree()));
            match &fields[0].1 {
                Json::Null => Some(fields[0].0.as_str()),
                _ => None,
            }
        },
        _ => None,
    }
}

/// The kind field: a plain message where it is absent.
pub open spec fn kind_member(t: JsonTree) -> Option<MessageKind> {
    match member(t, "kind"@, 5) {
        None => Some(MessageKind::Message),
        Some(v) => match variant_word(v) {
            Some(s) => kind_of_tag(s),
            None => None,
        },
    }
}

/// The status field, which may be absent or null.
pub open spec fn status_member(t: JsonTree) -> Option<Option<TaskStatus>> {
    match member(t, "status"@, 7) {
        None => Some(None),
        Some(JsonTree::Null) => Some(None),
        Some(v) => match variant_word(v) {
            Some(s) => match status_of_tag(s) {
                Some(status) => Some(Some(status)),
                None => None,
            },
            None => None,
        },
    }
}

/// The signed message that a JSON value writes.
pub open spec fn message_of(t: JsonTree) -> Option<MessageView> {
    if is_record(t, 11) && text_member(t, "from"@, 0) is Some && text_member(t, "to"@, 1) is Some
        && text_member(t, "text"@, 2) is Some && whole_member(t, "ts"@, 3) is Some && text_member(
        t,
        "msg_id"@,
        4,
    ) is Some && kind_member(t) is Some && opt_text_member(t, "task_id"@, 6) is Some
        && status_member(t) is Some && opt_text_member(t, "in_reply_to"@, 8) is Some
        && opt_text_member(t, "reply_to"@, 9) is Some && text_member(t, "sig"@, 10) is Some {
        Some(
            MessageView {
                from: text_member(t, "from"@, 0)->0,
                to: text_member(t, "to"@, 1)->0,
                text: text_member(t, "text"@, 2)->0,
                ts: whole_member(t, "ts"@, 3)->0,
                msg_id: text_member(t, "msg_id"@, 4)->0,
                kind: kind_member(t)->0,
                task_id: opt_text_member(t, "task_id"@, 6)->0,
                status: status_member(t)->0,
                in_reply_to: opt_text_member(t, "in_reply_to"@, 8)->0,
                reply_to: opt_text_member(t, "reply_to"@, 9)->0,
                sig: text_member(t, "sig"@, 10)->0,
            },
        )
    } else {
        None
    }
}

/// The object with a text field, where there is a text.
pub open spec fn with_opt(t: JsonTree, key: Seq<char>, value: Option<Seq<char>>) -> JsonTree {
    match value {
        Some(s) => t.with(key, JsonTree::Text(s)),
        None => t,
    }
}

/// The words of a status, where there is one.
pub open spec fn status_word(status: Option<TaskStatus>) -> Option<Seq<char>> {
    match status {
        Some(s) => Some(s.tag()),
        None => None,
    }
}

/// The JSON object for a signed message. Absent optional fields are left out.
pub open spec fn message_tree(m: MessageView) -> JsonTree {
    let t = empty_object().with("from"@, JsonTree::Text(m.from)).with(
        "to"@,
        JsonTree::Text(m.to),
    ).with("text"@, JsonTree::Text(m.text)).with("ts"@, JsonTree::Whole(m.ts)).with(
        "msg_id"@,
        JsonTree::Text(m.msg_id),
    ).with("kind"@, JsonTree::Text(m.kind.tag())).with("sig"@, JsonTree::Text(m.sig));
    let t = with_opt(t, "task_id"@, m.task_id);
    let t = with_opt(t, "status"@, status_word(m.status));
    let t = with_opt(t, "in_reply_to"@, m.in_reply_to);
    with_opt(t, "reply_to"@, m.reply_to)
}

/// The session that a JSON value writes.
pub open spec fn session_of(t: JsonTree) -> Option<SessionView> {
    if is_record(t, 4) && text_member(t, "session_id"@, 0) is Some && default_text_member(
        t,
        "cwd"@,
        1,
    ) is Some && default_text_member(t, "git_root"@, 2) is Some && default_text_member(
        t,
        "summary"@,
        3,
    ) is Some {
        Some(
            SessionView {
                session_id: text_member(t, "session_id"@, 0)->0,
                cwd: default_text_member(t, "cwd"@, 1)->0,
                git_root: default_text_member(t, "git_root"@, 2)->0,
                summary: default_text_member(t, "summary"@, 3)->0,
            },
        )
    } else {
        None
    }
}

/// The JSON object for a session.
pub open spec fn session_tree(s: SessionView) -> JsonTree {
    empty_object().with("session_id"@, JsonTree::Text(s.session_id)).with(
        "cwd"@,
        JsonTree::Text(s.cwd),
    ).with("git_root"@, JsonTree::Text(s.git_root)).with("summary"@, JsonTree::Text(s.summary))
}

/// The session field of an announcement: a blank session where it is absent.
pub open spec fn session_member(t: JsonTree) -> Option<SessionView> {
    match member(t, "session"@, 2) {
        None => Some(blank_session()),
        Some(v) => session_of(v),
    }
}

/// The announcement that a JSON value writes.
pub open spec fn announcement_of(t: JsonTree) -> Option<AnnouncementView> {
    if is_record(t, 6) && text_member(t, "pubkey"@, 0) is Some && text_member(t, "name"@, 1)
        is Some && session_member(t) is Some && whole_member(t, "ts"@, 3) is Some && text_member(
        t,
        "sig"@,
        4,
    ) is Some && opt_whole_member(t, "age_ms"@, 5) is Some {
        Some(
            AnnouncementView {
                pubkey: text_member(t, "pubkey"@, 0)->0,
                name: text_member(t, "name"@, 1)->0,
                session: session_member(t)->0,
                ts: whole_member(t, "ts"@, 3)->0,
                sig: text_member(t, "sig"@, 4)->0,
                age_ms: opt_whole_member(t, "age_ms"@, 5)->0,
            },
        )
    } else {
        None
    }
}

/// The JSON object for an announcement. An absent age is left out.
pub open spec fn announcement_tree(a: AnnouncementView) -> JsonTree {
    let t = empty_object().with("pubkey"@, JsonTree::Text(a.pubkey)).with(
        "name"@,
        JsonTree::Text(a.name),
    ).with("session"@, session_tree(a.session)).with("ts"@, JsonTree::Whole(a.ts)).with(
        "sig"@,
        JsonTree::Text(a.sig),
    );
    match a.age_ms {
        Some(n) => t.with("age_ms"@, JsonTree::Whole(n)),
        None => t,
    }
}

fn kind_of(j: &Json) -> (r: Option<MessageKind>)
    ensures
        r == kind_member(j.tree()),
{
    match member_of(j, "kind", 5) {
        None => Some(MessageKind::Message),
        Some(v) => match variant_word_of(v) {
            Some(s) => MessageKind::from_tag(s),
            None => None,
        },
    }
}

fn status_of(j: &Json) -> (r: Option<Option<TaskStatus>>)
    ensures
        r == status_member(j.tree()),
{
    match member_of(j, "status", 7) {
        None => Some(None),
        Some(Json::Null) => Some(None),
        Some(v) => match variant_word_of(v) {
            Some(s) => match TaskStatus::from_tag(s) {
                Some(status) => Some(Some(status)),
                None => None,
            },
            None => None,
        },
    }
}

fn set_opt(j: Json, key: &str, value: &Option<String>) -> (r: Json)
    ensures
        r.tree() == with_opt(j.tree(), key@, opt_text(*value)),
        j.tree().wf() ==> r.tree().wf(),
{
    match value {
        Some(s) => j.with(key, Json::Text(s.clone())),
        None => j,
    }
}

impl SignedMessage {
    /// Reads a message from its JSON form.
    pub fn from_json(j: &Json) -> (r: Option<SignedMessage>)
        ensures
            match r {
                Some(m) => message_of(j.tree()) == Some(m@),
                None => message_of(j.tree()) is None,
            },
    {
        if !is_record_of(j, 11) {
            return None;
        }
        let from = match text_of(j, "from", 0) {
            Some(v) => v,
            None => return None,
        };
        let to = match text_of(j, "to", 1) {
            Some(v) => v,
            None => return None,
        };
        let text = match text_of(j, "text", 2) {
            Some(v) => v,
            None => return None,
        };
        let ts: u64 = match whole_of(j, "ts", 3) {
            Some(v) => v,
            None => return None,
        };
        let msg_id = match text_of(j, "msg_id", 4) {
            Some(v) => v,
            None => return None,
        };
        let kind = match kind_of(j) {
            Some(v) => v,
            None => return None,
        };
        let task_id = match opt_text_of(j, "task_id", 6) {
            Some(v) => v,
            None => return None,
        };
        let status = match status_of(j) {
            Some(v) => v,
            None => return None,
        };
        let in_reply_to = match opt_text_of(j, "in_reply_to", 8) {
            Some(v) => v,
            None => return None,
        };
        let reply_to = match opt_text_of(j, "reply_to", 9) {
            Some(v) => v,
            None => return None,
        };
        let sig = match text_of(j, "sig", 10) {
            Some(v) => v,
            None => return None,
        };
        Some(
            SignedMessage {
                from,
                to,
                text,
                ts,
                msg_id,
                kind,
                task_id,
                status,
                in_reply_to,
                reply_to,
                sig,
            },
        )
    }

    /// The message's JSON form.
    pub fn to_json(&self) -> (r: Json)
        ensures
            r.tree() == message_tree(self@),
            r.tree().wf(),
            r.tree().plain(2),
    {
        let j = Json::object().with("from", Json::Text(self.from.clone())).with(
            "to",
            Json::Text(self.to.clone()),
        ).with("text", Json::Text(self.text.clone())).with("ts", Json::Whole(self.ts)).with(
            "msg_id",
            Json::Text(self.msg_id.clone()),
        ).with("kind", Json::text(self.kind.as_str())).with("sig", Json::Text(self.sig.clone()));
        let status: Option<String> = match self.status {
            Some(s) => Some(s.as_str().to_string()),
            None => None,
        };
        let j = set_opt(j, "task_id", &self.task_id);
        let j = set_opt(j, "status", &status);
        let j = set_opt(j, "in_reply_to", &self.in_reply_to);
        let j = set_opt(j, "reply_to", &self.reply_to);
        proof {
            message_tree_is_plain(self@);
        }
        j
    }
}

impl SessionInfo {
    /// Reads a session from its JSON form.
    pub fn from_json(j: &Json) -> (r: Option<SessionInfo>)
        ensures
            match r {
                Some(s) => session_of(j.tree()) == Some(s@),
                None => session_of(j.tree()) is None,
            },
    {
        if !is_record_of(j, 4) {
            return None;
        }
        let session_id = match text_of(j, "session_id", 0) {
            Some(v) => v,
            None => return None,
        };
        let cwd = match default_text_of(j, "cwd", 1) {
            Some(v) => v,
            None => return None,
        };
        let git_root = match default_text_of(j, "git_root", 2) {
            Some(v) => v,
            None => return None,
        };
        let summary = match default_text_of(j, "summary", 3) {
            Some(v) => v,
            None => return None,
        };
        Some(SessionInfo { session_id, cwd, git_root, summary })
    }

    /// The session's JSON form.
    pub fn to_json(&self) -> (r: Json)
        ensures
            r.tree() == session_tree(self@),
            r.tree().wf(),
            r.tree().plain(1),
    {
        proof {
            session_tree_is_plain(self@);
        }
        Json::object().with("session_id", Json::Text(self.session_id.clone())).with(
            "cwd",
            Json::Text(self.cwd.clone()),
        ).with("git_root", Json::Text(self.git_root.clone())).with(
            "summary",
            Json::Text(self.summary.clone()),
        )
    }
}

impl Announcement {
    /// Reads an announcement from its JSON form.
    pub fn from_json(j: &Json) -> (r: Option<Announcement>)
        ensures
            match r {
                Some(a) => announcement_of(j.tree()) == Some(a@),
                None => announcement_of(j.tree()) is None,
            },
    {
        if !is_record_of(j, 6) {
            return None;
        }
        let pubkey = match text_of(j, "pubkey", 0) {
            Some(v) => v,
            None => return None,
        };
        let name = match text_of(j, "name", 1) {
            Some(v) => v,
            None => return None,
        };
        let session = match member_of(j, "session", 2) {
            None => SessionInfo::default(),
            Some(v) => match SessionInfo::from_json(v) {
                Some(s) => s,
                None => return None,
            },
        };
        let ts: u64 = match whole_of(j, "ts", 3) {
            Some(v) => v,
            None => return None,
        };
        let sig = match text_of(j, "sig", 4) {
            Some(v) => v,
            None => return None,
        };
        let age_ms: Option<u64> = match opt_whole_of(j, "age_ms", 5) {
            Some(v) => v,
            None => return None,
        };
        Some(Announcement { pubkey, name, session, ts, sig, age_ms })
    }

    /// The announcement's JSON form.
    pub fn to_json(&self) -> (r: Json)
        ensures
            r.tree() == announcement_tree(self@),
            r.tree().wf(),
            r.tree().plain(2),
    {
        proof {
            announcement_tree_is_plain(self@);
        }
        let j = Json::object().with("pubkey", Json::Text(self.pubkey.clone())).with(
            "name",
            Json::Text(self.name.clone()),
        ).with("session", self.session.to_json()).with("ts", Json::Whole(self.ts)).with(
            "sig",
            Json::Text(self.sig.clone()),
        );
        match self.age_ms {
            Some(n) => j.with("age_ms", Json::Whole(n)),
            None => j,
        }
    }
}

/// What setting a field does to every field of an object.
pub proof fn with_sets(t: JsonTree, key: Seq<char>, value: JsonTree)
    requires
        t.wf(),
        t is Object,
        value.wf(),
    ensures
        t.with(key, value).wf(),
        t.with(key, value) is Object,
        forall|other: Seq<char>| #[trigger]
            t.with(key, value).get(other) == if other == key {
                Some(value)
            } else {
                t.get(other)
            },
{
    with_is_wf(t, key, value);
    assert forall|other: Seq<char>| #[trigger]
        t.with(key, value).get(other) == if other == key {
            Some(value)
        } else {
            t.get(other)
        } by {
        with_is_found(t, key, value, other);
    }
}

/// The object without fields.
pub proof fn empty_object_is(depth: nat)
    requires
        depth > 0,
    ensures
        empty_object().wf(),
        empty_object() is Object,
        empty_object().plain(depth),
        forall|key: Seq<char>| #[trigger] empty_object().get(key) is None,
{
}

proof fn opt_is_plain(t: JsonTree, key: Seq<char>, value: Option<Seq<char>>, depth: nat)
    requires
        t.plain(depth),
        depth > 0,
    ensures
        with_opt(t, key, value).plain(depth),
{
    if let Some(s) = value {
        with_is_plain(t, key, JsonTree::Text(s), depth);
    }
}

/// What setting an optional text does to every field of an object that lacks it.
pub proof fn opt_sets(t: JsonTree, key: Seq<char>, value: Option<Seq<char>>)
    requires
        t.wf(),
        t is Object,
        t.get(key) is None,
    ensures
        with_opt(t, key, value).wf(),
        with_opt(t, key, value) is Object,
        forall|other: Seq<char>| #[trigger]
            with_opt(t, key, value).get(other) == if other == key {
                match value {
                    Some(s) => Some(JsonTree::Text(s)),
                    None => None,
                }
            } else {
                t.get(other)
            },
{
    if let Some(s) = value {
        with_sets(t, key, JsonTree::Text(s));
    }
}

proof fn message_tree_is_plain(m: MessageView)
    ensures
        message_tree(m).plain(2),
{
    empty_object_is(2);
    let t0 = empty_object();
    let t1 = t0.with("from"@, JsonTree::Text(m.from));
    let t2 = t1.with("to"@, JsonTree::Text(m.to));
    let t3 = t2.with("text"@, JsonTree::Text(m.text));
    let t4 = t3.with("ts"@, JsonTree::Whole(m.ts));
    let t5 = t4.with("msg_id"@, JsonTree::Text(m.msg_id));
    let t6 = t5.with("kind"@, JsonTree::Text(m.kind.tag()));
    let t7 = t6.with("sig"@, JsonTree::Text(m.sig));
    let t8 = with_opt(t7, "task_id"@, m.task_id);
    let t9 = with_opt(t8, "status"@, status_word(m.status));
    let t10 = with_opt(t9, "in_reply_to"@, m.in_reply_to);
    with_is_plain(t0, "from"@, JsonTree::Text(m.from), 2);
    with_is_plain(t1, "to"@, JsonTree::Text(m.to), 2);
    with_is_plain(t2, "text"@, JsonTree::Text(m.text), 2);
    with_is_plain(t3, "ts"@, JsonTree::Whole(m.ts), 2);
    with_is_plain(t4, "msg_id"@, JsonTree::Text(m.msg_id), 2);
    with_is_plain(t5, "kind"@, JsonTree::Text(m.kind.tag()), 2);
    with_is_plain(t6, "sig"@, JsonTree::Text(m.sig), 2);
    opt_is_plain(t7, "task_id"@, m.task_id, 2);
    opt_is_plain(t8, "status"@, status_word(m.status), 2);
    opt_is_plain(t9, "in_reply_to"@, m.in_reply_to, 2);
    opt_is_plain(t10, "reply_to"@, m.reply_to, 2);
}

proof fn session_tree_is_plain(s: SessionView)
    ensures
        session_tree(s).plain(1),
{
    empty_object_is(1);
    let t0 = empty_object();
    let t1 = t0.with("session_id"@, JsonTree::Text(s.session_id));
    let t2 = t1.with("cwd"@, JsonTree::Text(s.cwd));
    let t3 = t2.with("git_root"@, JsonTree::Text(s.git_root));
    with_is_plain(t0, "session_id"@, JsonTree::Text(s.session_id), 1);
    with_is_plain(t1, "cwd"@, JsonTree::Text(s.cwd), 1);
    with_is_plain(t2, "git_root"@, JsonTree::Text(s.git_root), 1);
    with_is_plain(t3, "summary"@, JsonTree::Text(s.summary), 1);
}

proof fn announcement_tree_is_plain(a: AnnouncementView)
    ensures
        announcement_tree(a).plain(2),
{
    empty_object_is(2);
    session_tree_is_plain(a.session);
    let t0 = empty_object();
    let t1 = t0.with("pubkey"@, JsonTree::Text(a.pubkey));
    let t2 = t1.with("name"@, JsonTree::Text(a.name));
    let t3 = t2.with("session"@, session_tree(a.session));
    let t4 = t3.with("ts"@, JsonTree::Whole(a.ts));
    let t5 = t4.with("sig"@, JsonTree::Text(a.sig));
    with_is_plain(t0, "pubkey"@, JsonTree::Text(a.pubkey), 2);
    with_is_plain(t1, "name"@, JsonTree::Text(a.name), 2);
    with_is_plain(t2, "session"@, session_tree(a.session), 2);
    with_is_plain(t3, "ts"@, JsonTree::Whole(a.ts), 2);
    with_is_plain(t4, "sig"@, JsonTree::Text(a.sig), 2);
    if let Some(n) = a.age_ms {
        with_is_plain(t5, "age_ms"@, JsonTree::Whole(n), 2);
    }
}

proof fn message_keys_differ()
    ensures
        "from"@ != "to"@,
        "from"@ != "text"@,
        "from"@ != "kind"@,
        "text"@ != "kind"@,
        "to"@ != "ts"@,
        "msg_id"@ != "status"@,
        "from"@.len() == 4,
        "to"@.len() == 2,
        "text"@.len() == 4,
        "ts"@.len() == 2,
        "msg_id"@.len() == 6,
        "kind"@.len() == 4,
        "sig"@.len() == 3,
        "task_id"@.len() == 7,
        "status"@.len() == 6,
        "in_reply_to"@.len() == 11,
        "reply_to"@.len() == 8,
{
    reveal_strlit("from");
    reveal_strlit("to");
    reveal_strlit("text");
    reveal_strlit("ts");
    reveal_strlit("msg_id");
    reveal_strlit("kind");
    reveal_strlit("sig");
    reveal_strlit("task_id");
    reveal_strlit("status");
    reveal_strlit("in_reply_to");
    reveal_strlit("reply_to");
    assert("from"@[0] == 'f' && "text"@[0] == 't' && "kind"@[0] == 'k');
    assert("to"@[1] == 'o' && "ts"@[1] == 's');
    assert("msg_id"@[0] == 'm' && "status"@[0] == 's');
}

/// What is written for a message reads as that message.
pub proof fn message_round_trips(m: MessageView)
    ensures
        message_of(message_tree(m)) == Some(m),
        message_tree(m).wf(),
        message_tree(m).plain(2),
{
    message_tree_is_plain(m);
    message_keys_differ();
    kind_tags_round_trip(m.kind);
    if let Some(s) = m.status {
        status_tags_round_trip(s);
    }
    empty_object_is(1);
    let t0 = empty_object();
    let t1 = t0.with("from"@, JsonTree::Text(m.from));
    with_sets(t0, "from"@, JsonTree::Text(m.from));
    let t2 = t1.with("to"@, JsonTree::Text(m.to));
    with_sets(t1, "to"@, JsonTree::Text(m.to));
    let t3 = t2.with("text"@, JsonTree::Text(m.text));
    with_sets(t2, "text"@, JsonTree::Text(m.text));
    let t4 = t3.with("ts"@, JsonTree::Whole(m.ts));
    with_sets(t3, "ts"@, JsonTree::Whole(m.ts));
    let t5 = t4.with("msg_id"@, JsonTree::Text(m.msg_id));
    with_sets(t4, "msg_id"@, JsonTree::Text(m.msg_id));
    let t6 = t5.with("kind"@, JsonTree::Text(m.kind.tag()));
    with_sets(t5, "kind"@, JsonTree::Text(m.kind.tag()));
    let t7 = t6.with("sig"@, JsonTree::Text(m.sig));
    with_sets(t6, "sig"@, JsonTree::Text(m.sig));
    let t8 = with_opt(t7, "task_id"@, m.task_id);
    opt_sets(t7, "task_id"@, m.task_id);
    let t9 = with_opt(t8, "status"@, status_word(m.status));
    opt_sets(t8, "status"@, status_word(m.status));
    let t10 = with_opt(t9, "in_reply_to"@, m.in_reply_to);
    opt_sets(t9, "in_reply_to"@, m.in_reply_to);
    let t11 = with_opt(t10, "reply_to"@, m.reply_to);
    opt_sets(t10, "reply_to"@, m.reply_to);
    assert(t11 == message_tree(m));
    assert(t11.get("from"@) == Some(JsonTree::Text(m.from)));
    assert(t11.get("to"@) == Some(JsonTree::Text(m.to)));
    assert(t11.get("text"@) == Some(JsonTree::Text(m.text)));
    assert(t11.get("ts"@) == Some(JsonTree::Whole(m.ts)));
    assert(t11.get("msg_id"@) == Some(JsonTree::Text(m.msg_id)));
    assert(t11.get("kind"@) == Some(JsonTree::Text(m.kind.tag())));
    assert(t11.get("sig"@) == Some(JsonTree::Text(m.sig)));
}

proof fn session_keys_differ()
    ensures
        "session_id"@.len() == 10,
        "cwd"@.len() == 3,
        "git_root"@.len() == 8,
        "summary"@.len() == 7,
{
    reveal_strlit("session_id");
    reveal_strlit("cwd");
    reveal_strlit("git_root");
    reveal_strlit("summary");
}

/// What is written for a session reads as that session.
pub proof fn session_round_trips(s: SessionView)
    ensures
        session_of(session_tree(s)) == Some(s),
        session_tree(s).wf(),
{
    session_keys_differ();
    empty_object_is(1);
    let t0 = empty_object();
    let t1 = t0.with("session_id"@, JsonTree::Text(s.session_id));
    with_sets(t0, "session_id"@, JsonTree::Text(s.session_id));
    let t2 = t1.with("cwd"@, JsonTree::Text(s.cwd));
    with_sets(t1, "cwd"@, JsonTree::Text(s.cwd));
    let t3 = t2.with("git_root"@, JsonTree::Text(s.git_root));
    with_sets(t2, "git_root"@, JsonTree::Text(s.git_root));
    let t4 = t3.with("summary"@, JsonTree::Text(s.summary));
    with_sets(t3, "summary"@, JsonTree::Text(s.summary));
    assert(t4.get("session_id"@) == Some(JsonTree::Text(s.session_id)));
    assert(t4.get("cwd"@) == Some(JsonTree::Text(s.cwd)));
    assert(t4.get("git_root"@) == Some(JsonTree::Text(s.git_root)));
    assert(t4.get("summary"@) == Some(JsonTree::Text(s.summary)));
}

proof fn announcement_keys_differ()
    ensures
        "pubkey"@ != "age_ms"@,
        "pubkey"@.len() == 6,
        "name"@.len() == 4,
        "session"@.len() == 7,
        "ts"@.len() == 2,
        "sig"@.len() == 3,
        "age_ms"@.len() == 6,
{
    reveal_strlit("pubkey");
    reveal_strlit("name");
    reveal_strlit("session");
    reveal_strlit("ts");
    reveal_strlit("sig");
    reveal_strlit("age_ms");
    assert("pubkey"@[0] == 'p' && "age_ms"@[0] == 'a');
}

/// What is written for an announcement reads as that announcement.
pub proof fn announcement_round_trips(a: AnnouncementView)
    ensures
        announcement_of(announcement_tree(a)) == Some(a),
{
    announcement_keys_differ();
    session_round_trips(a.session);
    empty_object_is(1);
    let t0 = empty_object();
    let t1 = t0.with("pubkey"@, JsonTree::Text(a.pubkey));
    with_sets(t0, "pubkey"@, JsonTree::Text(a.pubkey));
    let t2 = t1.with("name"@, JsonTree::Text(a.name));
    with_sets(t1, "name"@, JsonTree::Text(a.name));
    let t3 = t2.with("session"@, session_tree(a.session));
    with_sets(t2, "session"@, session_tree(a.session));
    let t4 = t3.with("ts"@, JsonTree::Whole(a.ts));
    with_sets(t3, "ts"@, JsonTree::Whole(a.ts));
    let t5 = t4.with("sig"@, JsonTree::Text(a.sig));
    with_sets(t4, "sig"@, JsonTree::Text(a.sig));
    let t6 = announcement_tree(a);
    if let Some(n) = a.age_ms {
        with_sets(t5, "age_ms"@, JsonTree::Whole(n));
        assert(t6 == t5.with("age_ms"@, JsonTree::Whole(n)));
    } else {
        assert(t6 == t5);
    }
    assert(t6.get("pubkey"@) == Some(JsonTree::Text(a.pubkey)));
    assert(t6.get("name"@) == Some(JsonTree::Text(a.name)));
    assert(t6.get("session"@) == Some(session_tree(a.session)));
    assert(t6.get("ts"@) == Some(JsonTree::Whole(a.ts)));
    assert(t6.get("sig"@) == Some(JsonTree::Text(a.sig)));
}

/// What a message object says is what its fields say, by their names: what must be there is there,
/// what may be absent or null counts as none then, and a message without a kind is a plain one.
pub proof fn message_is_read_by_its_fields(t: JsonTree)
    requires
        t is Object,
    ensures
        message_of(t) matches Some(m) ==> {
            &&& t.get_text("from"@) == Some(m.from)
            &&& t.get_text("to"@) == Some(m.to)
            &&& t.get_text("text"@) == Some(m.text)
            &&& t.get("ts"@) == Some(JsonTree::Whole(m.ts))
            &&& t.get_text("msg_id"@) == Some(m.msg_id)
            &&& t.get_text("sig"@) == Some(m.sig)
            &&& t.get_text("task_id"@) == m.task_id
            &&& t.get_text("in_reply_to"@) == m.in_reply_to
            &&& t.get_text("reply_to"@) == m.reply_to
            &&& t.get("kind"@) is None ==> m.kind == MessageKind::Message
            &&& t.get_text("kind"@) matches Some(word) ==> word == m.kind.tag()
            &&& t.get("status"@) is None || t.get("status"@) == Some(JsonTree::Null) ==> m.status
                is None
            &&& t.get_text("status"@) matches Some(word) ==> m.status is Some && word
                == m.status->0.tag()
        },
        ({
            &&& t.get_text("from"@) is Some
            &&& t.get_text("to"@) is Some
            &&& t.get_text("text"@) is Some
            &&& t.get("ts"@) is Some
            &&& t.get("ts"@)->0 is Whole
            &&& t.get_text("msg_id"@) is Some
            &&& t.get_text("sig"@) is Some
            &&& t.get("kind"@) is None || kind_of_tag(t.get_text("kind"@)->0) is Some && t.get_text(
                "kind"@,
            ) is Some
            &&& t.get("task_id"@) is None || t.get_text("task_id"@) is Some
            &&& t.get("status"@) is None || t.get_text("status"@) is Some && status_of_tag(
                t.get_text("status"@)->0,
            ) is Some
            &&& t.get("in_reply_to"@) is None || t.get_text("in_reply_to"@) is Some
            &&& t.get("reply_to"@) is None || t.get_text("reply_to"@) is Some
        }) ==> message_of(t) is Some,
{
    if let Some(m) = message_of(t) {
        kind_tags_round_trip(m.kind);
        if let Some(s) = m.status {
            status_tags_round_trip(s);
        }
    }
}

/// What a session object says is what its fields say: its id must be there, and what it does not
/// say of itself is empty.
pub proof fn session_is_read_by_its_fields(t: JsonTree)
    requires
        t is Object,
    ensures
        session_of(t) matches Some(s) ==> {
            &&& t.get_text("session_id"@) == Some(s.session_id)
            &&& t.get("cwd"@) is None ==> s.cwd.len() == 0
            &&& t.get("cwd"@) is Some ==> t.get_text("cwd"@) == Some(s.cwd)
            &&& t.get("git_root"@) is None ==> s.git_root.len() == 0
            &&& t.get("git_root"@) is Some ==> t.get_text("git_root"@) == Some(s.git_root)
            &&& t.get("summary"@) is None ==> s.summary.len() == 0
            &&& t.get("summary"@) is Some ==> t.get_text("summary"@) == Some(s.summary)
        },
        session_of(t) is Some <==> {
            &&& t.get_text("session_id"@) is Some
            &&& t.get("cwd"@) is None || t.get_text("cwd"@) is Some
            &&& t.get("git_root"@) is None || t.get_text("git_root"@) is Some
            &&& t.get("summary"@) is None || t.get_text("summary"@) is Some
        },
{
}

/// What an announcement object says is what its fields say: an announcement without a session is
/// of a blank one, and one without an age has none.
pub proof fn announcement_is_read_by_its_fields(t: JsonTree)
    requires
        t is Object,
    ensures
        announcement_of(t) matches Some(a) ==> {
            &&& t.get_text("pubkey"@) == Some(a.pubkey)
            &&& t.get_text("name"@) == Some(a.name)
            &&& t.get("ts"@) == Some(JsonTree::Whole(a.ts))
            &&& t.get_text("sig"@) == Some(a.sig)
            &&& match t.get("session"@) {
                Some(s) => session_of(s) == Some(a.session),
                None => a.session == blank_session(),
            }
            &&& match t.get("age_ms"@) {
                Some(JsonTree::Whole(n)) => a.age_ms == Some(n),
                _ => a.age_ms is None,
            }
        },
        announcement_of(t) is Some <==> {
            &&& t.get_text("pubkey"@) is Some
            &&& t.get_text("name"@) is Some
            &&& t.get("ts"@) is Some
            &&& t.get("ts"@)->0 is Whole
            &&& t.get_text("sig"@) is Some
            &&& t.get("session"@) is None || session_of(t.get("session"@)->0) is Some
            &&& t.get("age_ms"@) is None || t.get("age_ms"@)->0 is Null || t.get("age_ms"@)->0
                is Whole
        },
{
}

/// A message may also be written as a list of its fields, in this order: sender, recipient, text,
/// time, id, kind, task, status, reference, hint and signature.
pub proof fn message_is_read_by_its_places(items: Seq<JsonTree>)
    requires
        items.len() == 11,
    ensures
        message_of(JsonTree::Array(items)) matches Some(m) ==> {
            &&& items[0] == JsonTree::Text(m.from)
            &&& items[1] == JsonTree::Text(m.to)
            &&& items[2] == JsonTree::Text(m.text)
            &&& items[3] == JsonTree::Whole(m.ts)
            &&& items[4] == JsonTree::Text(m.msg_id)
            &&& items[5] is Text ==> items[5]->Text_0 == m.kind.tag()
            &&& m.task_id matches Some(s) ==> items[6] == JsonTree::Text(s)
            &&& m.task_id is None ==> items[6] is Null
            &&& items[7] is Null <==> m.status is None
            &&& items[7] is Text ==> m.status is Some && items[7]->Text_0 == m.status->0.tag()
            &&& m.in_reply_to matches Some(s) ==> items[8] == JsonTree::Text(s)
            &&& m.in_reply_to is None ==> items[8] is Null
            &&& m.reply_to matches Some(s) ==> items[9] == JsonTree::Text(s)
            &&& m.reply_to is None ==> items[9] is Null
            &&& items[10] == JsonTree::Text(m.sig)
        },
{
    if let Some(m) = message_of(JsonTree::Array(items)) {
        kind_tags_round_trip(m.kind);
        if let Some(s) = m.status {
            status_tags_round_trip(s);
        }
    }
}

/// A session and an announcement may also be written as lists of their fields, in their order. No
/// record is written as a list of more members than it has fields, or as anything but an object
/// or a list.
pub proof fn announcement_is_read_by_its_places(
    session: Seq<JsonTree>,
    items: Seq<JsonTree>,
    t: JsonTree,
)
    requires
        session.len() == 4,
        items.len() == 6,
    ensures
        session_of(JsonTree::Array(session)) matches Some(s) ==> {
            &&& session[0] == JsonTree::Text(s.session_id)
            &&& session[1] == JsonTree::Text(s.cwd)
            &&& session[2] == JsonTree::Text(s.git_root)
            &&& session[3] == JsonTree::Text(s.summary)
        },
        announcement_of(JsonTree::Array(items)) matches Some(a) ==> {
            &&& items[0] == JsonTree::Text(a.pubkey)
            &&& items[1] == JsonTree::Text(a.name)
            &&& session_of(items[2]) == Some(a.session)
            &&& items[3] == JsonTree::Whole(a.ts)
            &&& items[4] == JsonTree::Text(a.sig)
            &&& a.age_ms matches Some(n) ==> items[5] == JsonTree::Whole(n)
            &&& a.age_ms is None ==> items[5] is Null
        },
        !(t is Object) && !(t is Array) ==> message_of(t) is None && session_of(t) is None
            && announcement_of(t) is None,
        t is Array && t->Array_0.len() > 11 ==> message_of(t) is None,
        t is Array && t->Array_0.len() > 6 ==> announcement_of(t) is None,
        t is Array && t->Array_0.len() > 4 ==> session_of(t) is None,
{
}

/// A variant is named by its word, or by an object whose only field has that name and is null.
pub proof fn variant_is_named_by_its_word(word: Seq<char>, value: JsonTree)
    ensures
        variant_word(JsonTree::Text(word)) == Some(word),
        variant_word(JsonTree::Object(seq![(word, JsonTree::Null)])) == Some(word),
        value != JsonTree::Null ==> variant_word(JsonTree::Object(seq![(word, value)])) is None,
        variant_word(JsonTree::Null) is None,
{
}

} // verus!
