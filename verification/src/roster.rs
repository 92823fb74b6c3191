//! Who is on the bus: verified announcements, grouped by identity, and the choice among the
//! sessions of one identity.
//!
//! Silence is not death: a session that has not refreshed its announcement for a while is away,
//! probably asleep, and is still addressed. It is gone when it unregisters or when its
//! announcement expires.
use crate::codec::announcement_of;
use crate::encoding::b64_text;
use crate::identity::{
    opt_str, parse_id, AgentId, Announcement, AnnouncementView, SessionInfo, SessionView,
};
use crate::json::{Json, JsonTree};
use crate::lookup::key_value;
use crate::policy::{petname_of, Policy};
use crate::route::{route_text, route_to, Route};
use crate::text::{
    decimal_text, first_chars, join, joined, part_stands_in_joined, push_decimal, same_text,
    stands_behind, stands_within, take_chars, texts, trim, trimmed,
};
use vstd::prelude::*;

verus! {

/// An announcement that is younger is a live session's: 90 seconds, three missed heartbeats.
pub const LIVE_MS: u64 = 90_000;

/// A session that has been away longer may be gone rather than asleep: two days.
pub const STALE_MS: u64 = 172_800_000;

/// A session on the roster, with the time since its last refresh, where the bus says it.
#[derive(Debug, Clone, PartialEq, Eq)]
pub struct LiveSession {
    pub info: SessionInfo,
    pub age_ms: Option<u64>,
}

/// The contents of a session on the roster.
pub struct LiveView {
    pub info: SessionView,
    pub age_ms: Option<u64>,
}

impl View for LiveSession {
    type V = LiveView;

    open spec fn view(&self) -> LiveView {
        LiveView { info: self.info@, age_ms: self.age_ms }
    }
}

/// The contents of sessions.
pub open spec fn live_views(v: Seq<LiveSession>) -> Seq<LiveView> {
    v.map_values(|s: LiveSession| s@)
}

impl LiveView {
    /// Whether the session is live. Where the bus does not say its age, it is.
    pub open spec fn live(self) -> bool {
        match self.age_ms {
            Some(age) => age < LIVE_MS,
            None => true,
        }
    }

    /// The session's id.
    pub open spec fn id(self) -> Seq<char> {
        self.info.session_id
    }
}

impl LiveSession {
    /// Whether the session is live rather than away.
    pub fn is_live(&self) -> (r: bool)
        ensures
            r == self@.live(),
    {
        match self.age_ms {
            Some(age) => age < LIVE_MS,
            None => true,
        }
    }

    /// A copy of the session.
    pub fn copy(&self) -> (r: LiveSession)
        ensures
            r@ == self@,
    {
        LiveSession { info: self.info.copy(), age_ms: self.age_ms }
    }
}

/// An age in words: minutes, hours or days.
pub open spec fn age_words(ms: u64) -> Seq<char> {
    if ms < 3_600_000 {
        decimal_text((ms / 60_000) as nat) + "m"@
    } else if ms < 172_800_000 {
        decimal_text((ms / 3_600_000) as nat) + "h"@
    } else {
        decimal_text((ms / 86_400_000) as nat) + " days"@
    }
}

/// An age in words.
pub fn age_text(ms: u64) -> (r: String)
    ensures
        r@ == age_words(ms),
{
    let mut out = String::new();
    if ms < 3_600_000 {
        push_decimal(&mut out, ms / 60_000);
        out.append("m");
    } else if ms < 172_800_000 {
        push_decimal(&mut out, ms / 3_600_000);
        out.append("h");
    } else {
        push_decimal(&mut out, ms / 86_400_000);
        out.append(" days");
    }
    assert(out@ =~= age_words(ms));
    out
}

/// What a person reads of a session: its id, then what it says of itself, then that it is away.
pub open spec fn line_parts(s: LiveView) -> Seq<Seq<char>> {
    let p = seq![s.info.session_id];
    let p = if s.info.cwd.len() > 0 {
        p.push(s.info.cwd)
    } else {
        p
    };
    let p = if s.info.git_root.len() > 0 {
        p.push("git:"@ + s.info.git_root)
    } else {
        p
    };
    let p = if s.info.summary.len() > 0 {
        p.push("\""@ + s.info.summary + "\""@)
    } else {
        p
    };
    match s.age_ms {
        Some(age) => if age < LIVE_MS {
            p
        } else {
            p.push("away (last seen "@ + age_words(age) + " ago)"@)
        },
        None => p,
    }
}

/// One line for a session.
pub open spec fn line_of(s: LiveView) -> Seq<char> {
    joined(line_parts(s), " · "@)
}

/// One line for a session in `discover` and in lists to pick from.
pub fn session_line(s: &LiveSession) -> (r: String)
    ensures
        r@ == line_of(s@),
{
    let mut parts: Vec<String> = Vec::new();
    parts.push(s.info.session_id.clone());
    assert(texts(parts@) =~= seq![s@.info.session_id]);
    if !s.info.cwd.as_str().is_empty() {
        let ghost before = texts(parts@);
        parts.push(s.info.cwd.clone());
        assert(texts(parts@) =~= before.push(s@.info.cwd));
    }
    if !s.info.git_root.as_str().is_empty() {
        let ghost before = texts(parts@);
        let mut git = "git:".to_string();
        git.append(s.info.git_root.as_str());
        parts.push(git);
        assert(texts(parts@) =~= before.push("git:"@ + s@.info.git_root));
    }
    if !s.info.summary.as_str().is_empty() {
        let ghost before = texts(parts@);
        let mut quoted = "\"".to_string();
        quoted.append(s.info.summary.as_str());
        quoted.append("\"");
        parts.push(quoted);
        assert(texts(parts@) =~= before.push("\""@ + s@.info.summary + "\""@));
    }
    match s.age_ms {
        Some(age) => {
            if age >= LIVE_MS {
                let ghost before = texts(parts@);
                let mut away = "away (last seen ".to_string();
                away.append(age_text(age).as_str());
                away.append(" ago)");
                parts.push(away);
                assert(texts(parts@) =~= before.push(
                    "away (last seen "@ + age_words(age) + " ago)"@,
                ));
            }
        },
        None => {},
    }
    join(&parts, " · ")
}

/// The entries in a relay's answer.
pub open spec fn listed_entries(t: JsonTree) -> Option<Seq<JsonTree>> {
    match t.get("roster"@) {
        Some(JsonTree::Array(items)) => Some(items),
        _ => None,
    }
}

/// The entries in a relay's answer, where it lists any.
pub fn roster_entries(answer: &Json) -> (r: Option<Vec<Json>>)
    ensures
        match r {
            Some(v) => listed_entries(answer.tree()) == Some(crate::bus::trees(v@)),
            None => listed_entries(answer.tree()) is None,
        },
{
    match answer.get("roster") {
        Some(Json::Array(items)) => {
            let ghost all = answer.tree().get("roster"@)->0->Array_0;
            let mut out: Vec<Json> = Vec::new();
            let mut i: usize = 0;
            while i < items.len()
                invariant
                    i <= items@.len(),
                    out@.len() == i,
                    forall|j: int| 0 <= j < i ==> (#[trigger] out@[j]).tree() == items@[j].tree(),
                decreases items@.len() - i,
            {
                out.push(items[i].copy());
                i += 1;
            }
            assert(crate::bus::trees(out@) =~= all);
            Some(out)
        },
        _ => None,
    }
}

/// The roster key of an announcement.
pub open spec fn presence_key(a: AnnouncementView) -> Seq<char> {
    route_text(route_to(a.pubkey, a.session.session_id))
}

/// One of the announcements has this roster key.
pub open spec fn has_presence(list: Seq<AnnouncementView>, key: Seq<char>) -> bool {
    exists|i: int| 0 <= i < list.len() && presence_key(#[trigger] list[i]) == key
}

/// The contents of announcements.
pub open spec fn announcement_views(v: Seq<Announcement>) -> Seq<AnnouncementView> {
    v.map_values(|a: Announcement| a@)
}

/// The announcements among the entries whose signatures hold, each session once: the bus verifies
/// nothing.
pub open spec fn verified(entries: Seq<JsonTree>) -> Seq<AnnouncementView>
    decreases entries.len(),
{
    if entries.len() == 0 {
        Seq::empty()
    } else {
        let before = verified(entries.drop_last());
        match announcement_of(entries.last()) {
            Some(a) => if a.announcer() is Ok && !has_presence(before, presence_key(a)) {
                before.push(a)
            } else {
                before
            },
            None => before,
        }
    }
}

/// The announcements among the entries of all relays whose signatures hold, each session once.
pub fn verified_roster(entries: &Vec<Json>) -> (r: Vec<Announcement>)
    ensures
        announcement_views(r@) == verified(crate::bus::trees(entries@)),
{
    let ghost all = crate::bus::trees(entries@);
    let mut out: Vec<Announcement> = Vec::new();
    let mut i: usize = 0;
    assert(all.take(0) =~= Seq::<JsonTree>::empty());
    assert(announcement_views(out@) =~= Seq::<AnnouncementView>::empty());
    while i < entries.len()
        invariant
            i <= entries@.len(),
            all == crate::bus::trees(entries@),
            announcement_views(out@) == verified(all.take(i as int)),
        decreases entries@.len() - i,
    {
        let ghost before = announcement_views(out@);
        assert(all.take(i + 1).drop_last() =~= all.take(i as int));
        assert(all.take(i + 1).last() == entries@[i as int].tree());
        match Announcement::from_json(&entries[i]) {
            Some(a) => {
                if a.verify().is_ok() {
                    let key = Route::new(a.pubkey.as_str(), a.session.session_id.as_str()).text();
                    if !is_listed(&out, key.as_str()) {
                        out.push(a);
                        assert(announcement_views(out@) =~= before.push(a@));
                    }
                }
            },
            None => {},
        }
        i += 1;
    }
    assert(all.take(all.len() as int) =~= all);
    out
}

fn is_listed(list: &Vec<Announcement>, key: &str) -> (r: bool)
    ensures
        r == has_presence(announcement_views(list@), key@),
{
    let ghost views = announcement_views(list@);
    let mut i: usize = 0;
    while i < list.len()
        invariant
            i <= list@.len(),
            views == announcement_views(list@),
            forall|j: int| 0 <= j < i ==> presence_key(#[trigger] views[j]) != key@,
        decreases list@.len() - i,
    {
        let own = Route::new(list[i].pubkey.as_str(), list[i].session.session_id.as_str()).text();
        assert(own@ == presence_key(views[i as int]));
        if same_text(own.as_str(), key) {
            return true;
        }
        i += 1;
    }
    false
}

/// Every listed announcement was signed by the key that it names.
pub proof fn listed_is_verified(entries: Seq<JsonTree>, i: int)
    requires
        0 <= i < verified(entries).len(),
    ensures
        verified(entries)[i].announcer() is Ok,
    decreases entries.len(),
{
    let before = verified(entries.drop_last());
    if i < before.len() {
        listed_is_verified(entries.drop_last(), i);
    }
}

/// No session is listed twice.
pub proof fn sessions_are_listed_once(entries: Seq<JsonTree>, i: int, j: int)
    requires
        0 <= i < j < verified(entries).len(),
    ensures
        presence_key(verified(entries)[i]) != presence_key(verified(entries)[j]),
    decreases entries.len(),
{
    let before = verified(entries.drop_last());
    if j < before.len() {
        sessions_are_listed_once(entries.drop_last(), i, j);
    } else {
        assert(verified(entries)[i] == before[i]);
    }
}

/// One identity on the roster with its sessions. The name is a self-claim.
#[derive(Debug, Clone, PartialEq, Eq)]
pub struct NodeGroup {
    pub key: String,
    pub name: String,
    pub sessions: Vec<LiveSession>,
}

/// The contents of a group.
pub struct GroupView {
    pub key: Seq<char>,
    pub name: Seq<char>,
    pub sessions: Seq<LiveView>,
}

impl View for NodeGroup {
    type V = GroupView;

    open spec fn view(&self) -> GroupView {
        GroupView { key: self.key@, name: self.name@, sessions: live_views(self.sessions@) }
    }
}

/// The contents of groups.
pub open spec fn group_views(v: Seq<NodeGroup>) -> Seq<GroupView> {
    v.map_values(|g: NodeGroup| g@)
}

/// Where the group of a key stands; the length where there is none.
pub open spec fn group_index(g: Seq<GroupView>, key: Seq<char>) -> nat
    decreases g.len(),
{
    if g.len() == 0 || g[0].key == key {
        0
    } else {
        1 + group_index(g.drop_first(), key)
    }
}

proof fn group_index_is(g: Seq<GroupView>, key: Seq<char>, i: int)
    requires
        0 <= i <= g.len(),
        i < g.len() ==> g[i].key == key,
        forall|j: int| 0 <= j < i ==> (#[trigger] g[j]).key != key,
    ensures
        group_index(g, key) == i,
    decreases i,
{
    if i > 0 {
        assert(g[0].key != key);
        let s = g.drop_first();
        assert forall|j: int| 0 <= j < i - 1 implies (#[trigger] s[j]).key != key by {
            assert(s[j] == g[j + 1]);
        }
        group_index_is(s, key, i - 1);
    }
}

/// What the index of a group says.
pub proof fn group_index_says(g: Seq<GroupView>, key: Seq<char>)
    ensures
        group_index(g, key) <= g.len(),
        group_index(g, key) < g.len() ==> g[group_index(g, key) as int].key == key,
        forall|j: int| 0 <= j < group_index(g, key) ==> (#[trigger] g[j]).key != key,
    decreases g.len(),
{
    if g.len() > 0 && g[0].key != key {
        let s = g.drop_first();
        group_index_says(s, key);
        assert forall|j: int| 0 <= j < group_index(g, key) implies (#[trigger] g[j]).key != key by {
            if j > 0 {
                assert(g[j] == s[j - 1]);
            }
        }
    }
}

/// The sessions with those of an announcement: one more, unless it names none.
pub open spec fn with_session(sessions: Seq<LiveView>, a: AnnouncementView) -> Seq<LiveView> {
    if a.session.session_id.len() == 0 {
        sessions
    } else {
        sessions.push(LiveView { info: a.session, age_ms: a.age_ms })
    }
}

/// Announcements by identity, in the order in which the identities first occur. A group has the
/// name of its first announcement.
pub open spec fn grouped(anns: Seq<AnnouncementView>) -> Seq<GroupView>
    decreases anns.len(),
{
    if anns.len() == 0 {
        Seq::empty()
    } else {
        let before = grouped(anns.drop_last());
        let a = anns.last();
        let i = group_index(before, a.pubkey) as int;
        if i < before.len() {
            before.update(
                i,
                GroupView { sessions: with_session(before[i].sessions, a), ..before[i] },
            )
        } else {
            before.push(
                GroupView {
                    key: a.pubkey,
                    name: a.name,
                    sessions: with_session(Seq::empty(), a),
                },
            )
        }
    }
}

fn position(groups: &Vec<NodeGroup>, key: &str) -> (r: usize)
    ensures
        r == group_index(group_views(groups@), key@),
        r <= groups@.len(),
{
    let ghost views = group_views(groups@);
    let mut i: usize = 0;
    while i < groups.len()
        invariant
            i <= groups@.len(),
            views == group_views(groups@),
            forall|j: int| 0 <= j < i ==> (#[trigger] views[j]).key != key@,
        decreases groups@.len() - i,
    {
        if same_text(groups[i].key.as_str(), key) {
            proof {
                assert(views[i as int].key == key@);
                group_index_is(views, key@, i as int);
            }
            return i;
        }
        assert(views[i as int].key != key@);
        i += 1;
    }
    proof {
        group_index_is(views, key@, i as int);
    }
    i
}

/// Announcements by identity, in the order in which the identities first occur.
pub fn group_by_identity(anns: &Vec<Announcement>) -> (r: Vec<NodeGroup>)
    ensures
        group_views(r@) == grouped(announcement_views(anns@)),
{
    let ghost all = announcement_views(anns@);
    let mut groups: Vec<NodeGroup> = Vec::new();
    let mut n: usize = 0;
    assert(all.take(0) =~= Seq::<AnnouncementView>::empty());
    assert(group_views(groups@) =~= Seq::<GroupView>::empty());
    while n < anns.len()
        invariant
            n <= anns@.len(),
            all == announcement_views(anns@),
            group_views(groups@) == grouped(all.take(n as int)),
        decreases anns@.len() - n,
    {
        let a = &anns[n];
        let ghost before = group_views(groups@);
        assert(all.take(n + 1).drop_last() =~= all.take(n as int));
        assert(all.take(n + 1).last() == a@);
        let i = position(&groups, a.pubkey.as_str());
        if i < groups.len() {
            if !a.session.session_id.as_str().is_empty() {
                let old_group = &groups[i];
                let mut sessions = copy_sessions(&old_group.sessions);
                let ghost had = live_views(sessions@);
                sessions.push(LiveSession { info: a.session.copy(), age_ms: a.age_ms });
                assert(live_views(sessions@) =~= with_session(had, a@));
                let group = NodeGroup {
                    key: old_group.key.clone(),
                    name: old_group.name.clone(),
                    sessions,
                };
                let ghost view = group@;
                groups.set(i, group);
                assert(group_views(groups@) =~= before.update(i as int, view));
            } else {
                assert(group_views(groups@) =~= before.update(
                    i as int,
                    GroupView {
                        sessions: with_session(before[i as int].sessions, a@),
                        ..before[i as int]
                    },
                ));
            }
        } else {
            let mut sessions: Vec<LiveSession> = Vec::new();
            assert(live_views(sessions@) =~= Seq::<LiveView>::empty());
            if !a.session.session_id.as_str().is_empty() {
                sessions.push(LiveSession { info: a.session.copy(), age_ms: a.age_ms });
                assert(live_views(sessions@) =~= with_session(Seq::empty(), a@));
            }
            let group = NodeGroup { key: a.pubkey.clone(), name: a.name.clone(), sessions };
            let ghost view = group@;
            groups.push(group);
            assert(group_views(groups@) =~= before.push(view));
        }
        n += 1;
    }
    assert(all.take(all.len() as int) =~= all);
    groups
}

/// A copy of the sessions.
pub fn copy_sessions(v: &Vec<LiveSession>) -> (r: Vec<LiveSession>)
    ensures
        live_views(r@) == live_views(v@),
{
    let mut out: Vec<LiveSession> = Vec::new();
    let mut i: usize = 0;
    while i < v.len()
        invariant
            i <= v@.len(),
            out@.len() == i,
            forall|j: int| 0 <= j < i ==> (#[trigger] out@[j])@ == v@[j]@,
        decreases v@.len() - i,
    {
        out.push(v[i].copy());
        i += 1;
    }
    assert(live_views(out@) =~= live_views(v@));
    out
}

/// No identity has two groups.
pub proof fn identities_are_grouped_once(anns: Seq<AnnouncementView>, i: int, j: int)
    requires
        0 <= i < j < grouped(anns).len(),
    ensures
        grouped(anns)[i].key != grouped(anns)[j].key,
    decreases anns.len(),
{
    let before = grouped(anns.drop_last());
    let a = anns.last();
    group_index_says(before, a.pubkey);
    let k = group_index(before, a.pubkey) as int;
    if k < before.len() {
        identities_are_grouped_once(anns.drop_last(), i, j);
    } else if j < before.len() {
        identities_are_grouped_once(anns.drop_last(), i, j);
    } else {
        assert(before[i].key != a.pubkey);
    }
}

/// The sessions of a key.
pub open spec fn sessions_of(g: Seq<GroupView>, key: Seq<char>) -> Seq<LiveView> {
    let i = group_index(g, key) as int;
    if i < g.len() {
        g[i].sessions
    } else {
        Seq::empty()
    }
}

/// The sessions of a peer on the roster.
pub fn peer_sessions(groups: &Vec<NodeGroup>, key: &str) -> (r: Vec<LiveSession>)
    ensures
        live_views(r@) == sessions_of(group_views(groups@), key@),
{
    let i = position(groups, key);
    if i < groups.len() {
        copy_sessions(&groups[i].sessions)
    } else {
        let none: Vec<LiveSession> = Vec::new();
        assert(live_views(none@) =~= Seq::<LiveView>::empty());
        none
    }
}

/// The keys of the groups with this fingerprint, in order.
pub open spec fn keys_with_fingerprint(g: Seq<GroupView>, fingerprint: Seq<char>) -> Seq<Seq<char>>
    decreases g.len(),
{
    if g.len() == 0 {
        Seq::empty()
    } else {
        let before = keys_with_fingerprint(g.drop_last(), fingerprint);
        if first_chars(g.last().key, 8) == fingerprint {
            before.push(g.last().key)
        } else {
            before
        }
    }
}

/// The keys of the groups that call themselves this, in order.
pub open spec fn keys_with_name(g: Seq<GroupView>, name: Seq<char>) -> Seq<Seq<char>>
    decreases g.len(),
{
    if g.len() == 0 {
        Seq::empty()
    } else {
        let before = keys_with_name(g.drop_last(), name);
        if g.last().name == name {
            before.push(g.last().key)
        } else {
            before
        }
    }
}

fn with_fingerprint(groups: &Vec<NodeGroup>, fingerprint: &str) -> (r: Vec<String>)
    ensures
        texts(r@) == keys_with_fingerprint(group_views(groups@), fingerprint@),
{
    let ghost all = group_views(groups@);
    let mut out: Vec<String> = Vec::new();
    let mut i: usize = 0;
    assert(all.take(0) =~= Seq::<GroupView>::empty());
    assert(texts(out@) =~= Seq::<Seq<char>>::empty());
    while i < groups.len()
        invariant
            i <= groups@.len(),
            all == group_views(groups@),
            texts(out@) == keys_with_fingerprint(all.take(i as int), fingerprint@),
        decreases groups@.len() - i,
    {
        let ghost before = texts(out@);
        assert(all.take(i + 1).drop_last() =~= all.take(i as int));
        let short = take_chars(groups[i].key.as_str(), 8);
        if same_text(short.as_str(), fingerprint) {
            out.push(groups[i].key.clone());
            assert(texts(out@) =~= before.push(all[i as int].key));
        }
        i += 1;
    }
    assert(all.take(all.len() as int) =~= all);
    out
}

fn with_name(groups: &Vec<NodeGroup>, name: &str) -> (r: Vec<String>)
    ensures
        texts(r@) == keys_with_name(group_views(groups@), name@),
{
    let ghost all = group_views(groups@);
    let mut out: Vec<String> = Vec::new();
    let mut i: usize = 0;
    assert(all.take(0) =~= Seq::<GroupView>::empty());
    assert(texts(out@) =~= Seq::<Seq<char>>::empty());
    while i < groups.len()
        invariant
            i <= groups@.len(),
            all == group_views(groups@),
            texts(out@) == keys_with_name(all.take(i as int), name@),
        decreases groups@.len() - i,
    {
        let ghost before = texts(out@);
        assert(all.take(i + 1).drop_last() =~= all.take(i as int));
        if same_text(groups[i].name.as_str(), name) {
            out.push(groups[i].key.clone());
            assert(texts(out@) =~= before.push(all[i as int].key));
        }
        i += 1;
    }
    assert(all.take(all.len() as int) =~= all);
    out
}

/// Why a text does not name one identity on the roster.
#[derive(Debug, Clone, Copy, PartialEq, Eq, Structural)]
pub enum TargetError {
    NotListed,
    SharedFingerprint,
    SharedName,
}

impl TargetError {
    /// The error in words, for the text that was looked up.
    pub open spec fn words(self, target: Seq<char>) -> Seq<char> {
        match self {
            TargetError::NotListed => "no node '"@ + target
                + "' on the roster (run discover to see who's online)"@,
            TargetError::SharedFingerprint => "fingerprint '"@ + target
                + "' is ambiguous — use the full key"@,
            TargetError::SharedName => "name '"@ + target
                + "' is shared by multiple keys — use the fingerprint"@,
        }
    }

    /// The error in words, for the text that was looked up.
    pub fn message(self, target: &str) -> (r: String)
        ensures
            r@ == self.words(target@),
    {
        match self {
            TargetError::NotListed => {
                let mut out = "no node '".to_string();
                out.append(target);
                out.append("' on the roster (run discover to see who's online)");
                out
            },
            TargetError::SharedFingerprint => {
                let mut out = "fingerprint '".to_string();
                out.append(target);
                out.append("' is ambiguous — use the full key");
                out
            },
            TargetError::SharedName => {
                let mut out = "name '".to_string();
                out.append(target);
                out.append("' is shared by multiple keys — use the fingerprint");
                out
            },
        }
    }
}

/// The key that a text means: a full key, else a fingerprint, else a name, where it is one
/// identity's alone.
pub open spec fn target_of(g: Seq<GroupView>, target: Seq<char>) -> Result<Seq<char>, TargetError> {
    let by_fingerprint = keys_with_fingerprint(g, target);
    let by_name = keys_with_name(g, target);
    if group_index(g, target) < g.len() {
        Ok(target)
    } else if by_fingerprint.len() == 1 {
        Ok(by_fingerprint[0])
    } else if by_fingerprint.len() > 1 {
        Err(TargetError::SharedFingerprint)
    } else if by_name.len() == 1 {
        Ok(by_name[0])
    } else if by_name.len() > 1 {
        Err(TargetError::SharedName)
    } else {
        Err(TargetError::NotListed)
    }
}

/// The key that a full key, a fingerprint or a name on the roster means.
pub fn resolve_target(groups: &Vec<NodeGroup>, target: &str) -> (r: Result<String, TargetError>)
    ensures
        match r {
            Ok(key) => target_of(group_views(groups@), target@) == Ok::<Seq<char>, TargetError>(
                key@,
            ),
            Err(e) => target_of(group_views(groups@), target@) == Err::<Seq<char>, TargetError>(e),
        },
{
    if position(groups, target) < groups.len() {
        return Ok(target.to_string());
    }
    let by_fingerprint = with_fingerprint(groups, target);
    assert(texts(by_fingerprint@).len() == by_fingerprint@.len());
    if by_fingerprint.len() == 1 {
        assert(texts(by_fingerprint@)[0] == by_fingerprint@[0]@);
        return Ok(by_fingerprint[0].clone());
    }
    if by_fingerprint.len() > 1 {
        return Err(TargetError::SharedFingerprint);
    }
    let by_name = with_name(groups, target);
    assert(texts(by_name@).len() == by_name@.len());
    if by_name.len() == 1 {
        assert(texts(by_name@)[0] == by_name@[0]@);
        Ok(by_name[0].clone())
    } else if by_name.len() == 0 {
        Err(TargetError::NotListed)
    } else {
        Err(TargetError::SharedName)
    }
}

/// The key text of a peer on the allowlist.
pub open spec fn is_peer_key(policy: Seq<(Seq<char>, Seq<u8>)>, key: Seq<char>) -> bool {
    match parse_id(key) {
        Ok(id) => petname_of(policy, id) is Some,
        Err(_) => false,
    }
}

/// What a listing remarks of an identity: that it is this node or a peer, and that others have
/// its name too.
pub open spec fn tags_of(
    g: GroupView,
    all: Seq<GroupView>,
    me: Seq<char>,
    policy: Seq<(Seq<char>, Seq<u8>)>,
) -> Seq<Seq<char>> {
    let t = if g.key == me {
        seq!["you"@]
    } else if is_peer_key(policy, g.key) {
        seq!["already a peer"@]
    } else {
        Seq::empty()
    };
    if keys_with_name(all, g.name).len() > 1 {
        t.push("name shared — verify fingerprint"@)
    } else {
        t
    }
}

/// The remarks in brackets, if there are any.
pub open spec fn tag_text(tags: Seq<Seq<char>>) -> Seq<char> {
    if tags.len() == 0 {
        Seq::empty()
    } else {
        "  ["@ + joined(tags, ", "@) + "]"@
    }
}

/// The lines of the sessions, with this very session marked.
pub open spec fn session_lines(sessions: Seq<LiveView>, own: Option<Seq<char>>) -> Seq<char>
    decreases sessions.len(),
{
    if sessions.len() == 0 {
        Seq::empty()
    } else {
        session_lines(sessions.drop_last(), own) + "\n    → "@ + line_of(sessions.last()) + if own
            == Some(sessions.last().id()) {
            "  ← this session"@
        } else {
            Seq::empty()
        }
    }
}

/// What a listing says of one identity.
pub open spec fn block_of(
    g: GroupView,
    all: Seq<GroupView>,
    me: Seq<char>,
    my_session: Seq<char>,
    policy: Seq<(Seq<char>, Seq<u8>)>,
) -> Seq<char> {
    g.name + " ("@ + first_chars(g.key, 8) + "…)"@ + tag_text(tags_of(g, all, me, policy))
        + "\n    key: "@ + g.key + session_lines(
        g.sessions,
        if g.key == me {
            Some(my_session)
        } else {
            None
        },
    )
}

/// What a listing says of the identities.
pub open spec fn listing_of(
    all: Seq<GroupView>,
    me: Seq<char>,
    my_session: Seq<char>,
    policy: Seq<(Seq<char>, Seq<u8>)>,
) -> Seq<char> {
    if all.len() == 0 {
        "no matching nodes on the bus roster"@
    } else {
        joined(
            all.map_values(|g: GroupView| block_of(g, all, me, my_session, policy)),
            "\n"@,
        )
    }
}

/// The group of one key, if it is there.
pub open spec fn only_group(g: Seq<GroupView>, key: Seq<char>) -> Seq<GroupView> {
    let i = group_index(g, key) as int;
    if i < g.len() {
        seq![g[i]]
    } else {
        Seq::empty()
    }
}

/// The key that a listing is restricted to: a petname's first, else that of an identity on the
/// roster.
pub open spec fn discovered_key(
    g: Seq<GroupView>,
    policy: Seq<(Seq<char>, Seq<u8>)>,
    target: Seq<char>,
) -> Result<Seq<char>, TargetError> {
    match key_value(policy, target) {
        Some(id) => Ok(b64_text(id)),
        None => target_of(g, target),
    }
}

/// The listing of the roster, restricted to one identity where a text that is not blank names it.
pub open spec fn discovered(
    entries: Seq<JsonTree>,
    target: Option<Seq<char>>,
    me: Seq<char>,
    my_session: Seq<char>,
    policy: Seq<(Seq<char>, Seq<u8>)>,
) -> Result<Seq<char>, TargetError> {
    let all = grouped(verified(entries));
    match target {
        Some(t) => if trimmed(t).len() == 0 {
            Ok(listing_of(all, me, my_session, policy))
        } else {
            match discovered_key(all, policy, trimmed(t)) {
                Ok(key) => Ok(listing_of(only_group(all, key), me, my_session, policy)),
                Err(e) => Err(e),
            }
        },
        None => Ok(listing_of(all, me, my_session, policy)),
    }
}

fn peer_key(policy: &Policy, key: &str) -> (r: bool)
    ensures
        r == is_peer_key(policy@, key@),
{
    match AgentId::from_b64(key) {
        Ok(id) => policy.peer(id).is_some(),
        Err(_) => false,
    }
}

fn render_sessions(out: &mut String, sessions: &Vec<LiveSession>, own: Option<&str>)
    ensures
        final(out)@ == old(out)@ + session_lines(live_views(sessions@), opt_str(own)),
{
    let ghost start = out@;
    let ghost all = live_views(sessions@);
    let mut i: usize = 0;
    assert(all.take(0) =~= Seq::<LiveView>::empty());
    assert(start + session_lines(all.take(0), opt_str(own)) =~= start);
    while i < sessions.len()
        invariant
            i <= sessions@.len(),
            all == live_views(sessions@),
            out@ == start + session_lines(all.take(i as int), opt_str(own)),
        decreases sessions@.len() - i,
    {
        let ghost done = session_lines(all.take(i as int), opt_str(own));
        assert(all.take(i + 1).drop_last() =~= all.take(i as int));
        out.append("\n    → ");
        out.append(session_line(&sessions[i]).as_str());
        let mine = match own {
            Some(id) => same_text(id, sessions[i].info.session_id.as_str()),
            None => false,
        };
        if mine {
            out.append("  ← this session");
        }
        assert(out@ =~= start + session_lines(all.take(i + 1), opt_str(own)));
        i += 1;
    }
    assert(all.take(all.len() as int) =~= all);
}

fn render_group(
    g: &NodeGroup,
    groups: &Vec<NodeGroup>,
    me: &str,
    my_session: &str,
    policy: &Policy,
) -> (r: String)
    ensures
        r@ == block_of(g@, group_views(groups@), me@, my_session@, policy@),
{
    let mut tags: Vec<String> = Vec::new();
    assert(texts(tags@) =~= Seq::<Seq<char>>::empty());
    let is_me = same_text(g.key.as_str(), me);
    if is_me {
        tags.push("you".to_string());
        assert(texts(tags@) =~= seq!["you"@]);
    } else if peer_key(policy, g.key.as_str()) {
        tags.push("already a peer".to_string());
        assert(texts(tags@) =~= seq!["already a peer"@]);
    }
    let ghost before = texts(tags@);
    let named = with_name(groups, g.name.as_str());
    assert(texts(named@).len() == named@.len());
    if named.len() > 1 {
        tags.push("name shared — verify fingerprint".to_string());
        assert(texts(tags@) =~= before.push("name shared — verify fingerprint"@));
    }
    assert(texts(tags@) == tags_of(g@, group_views(groups@), me@, policy@));
    let mut tag = String::new();
    if tags.len() > 0 {
        tag.append("  [");
        tag.append(join(&tags, ", ").as_str());
        tag.append("]");
        assert(tag@ =~= "  ["@ + joined(texts(tags@), ", "@) + "]"@);
    }
    assert(texts(tags@).len() == tags@.len());
    assert(tag@ =~= tag_text(texts(tags@)));
    let mut out = g.name.clone();
    out.append(" (");
    out.append(take_chars(g.key.as_str(), 8).as_str());
    out.append("…)");
    out.append(tag.as_str());
    out.append("\n    key: ");
    out.append(g.key.as_str());
    render_sessions(
        &mut out,
        &g.sessions,
        if is_me {
            Some(my_session)
        } else {
            None
        },
    );
    out
}

fn render_groups(groups: &Vec<NodeGroup>, me: &str, my_session: &str, policy: &Policy) -> (r: String)
    ensures
        r@ == listing_of(group_views(groups@), me@, my_session@, policy@),
{
    let ghost all = group_views(groups@);
    if groups.len() == 0 {
        return "no matching nodes on the bus roster".to_string();
    }
    let ghost blocks = all.map_values(|g: GroupView| block_of(g, all, me@, my_session@, policy@));
    let mut out: Vec<String> = Vec::new();
    let mut i: usize = 0;
    while i < groups.len()
        invariant
            i <= groups@.len(),
            all == group_views(groups@),
            blocks == all.map_values(
                |g: GroupView| block_of(g, all, me@, my_session@, policy@),
            ),
            texts(out@) == blocks.take(i as int),
        decreases groups@.len() - i,
    {
        let ghost before = texts(out@);
        let block = render_group(&groups[i], groups, me, my_session, policy);
        assert(block@ == blocks[i as int]);
        out.push(block);
        assert(texts(out@) =~= before.push(blocks[i as int]));
        assert(blocks.take(i + 1) =~= blocks.take(i as int).push(blocks[i as int]));
        i += 1;
    }
    assert(blocks.take(blocks.len() as int) =~= blocks);
    join(&out, "\n")
}

/// Lists who is on the roster, grouped by identity, from the entries that the relays gave. Where
/// `target` is not blank it is the one identity listed: a petname, a name, a fingerprint or a key.
pub fn discover(
    entries: &Vec<Json>,
    target: Option<&str>,
    me: &str,
    my_session: &str,
    policy: &Policy,
) -> (r: Result<String, TargetError>)
    ensures
        match r {
            Ok(text) => discovered(
                crate::bus::trees(entries@),
                opt_str(target),
                me@,
                my_session@,
                policy@,
            ) == Ok::<Seq<char>, TargetError>(text@),
            Err(e) => discovered(
                crate::bus::trees(entries@),
                opt_str(target),
                me@,
                my_session@,
                policy@,
            ) == Err::<Seq<char>, TargetError>(e),
        },
{
    let anns = verified_roster(entries);
    let groups = group_by_identity(&anns);
    let wanted: String = match target {
        Some(t) => trim(t),
        None => String::new(),
    };
    if wanted.as_str().is_empty() {
        return Ok(render_groups(&groups, me, my_session, policy));
    }
    let key = match policy.resolve(wanted.as_str()) {
        Ok(id) => id.to_b64(),
        Err(_) => match resolve_target(&groups, wanted.as_str()) {
            Ok(key) => key,
            Err(e) => return Err(e),
        },
    };
    let i = position(&groups, key.as_str());
    let mut only: Vec<NodeGroup> = Vec::new();
    if i < groups.len() {
        let g = &groups[i];
        only.push(
            NodeGroup {
                key: g.key.clone(),
                name: g.name.clone(),
                sessions: copy_sessions(&g.sessions),
            },
        );
    }
    assert(group_views(only@) =~= only_group(group_views(groups@), key@));
    Ok(render_groups(&only, me, my_session, policy))
}

/// The roster key of an announcement is its key, with its session behind a `#` where it names one.
pub proof fn presence_is_key_and_session(a: AnnouncementView)
    ensures
        presence_key(a) == if a.session.session_id.len() == 0 {
            a.pubkey
        } else {
            a.pubkey + seq!['#'] + a.session.session_id
        },
{
    crate::route::route_is_written(a.pubkey, a.session.session_id);
}

/// Every entry that is an announcement whose signature holds is on the verified list, itself where
/// it is the first of its session, and otherwise by that first one.
pub proof fn announced_is_listed(entries: Seq<JsonTree>, i: int, a: AnnouncementView)
    requires
        0 <= i < entries.len(),
        announcement_of(entries[i]) == Some(a),
        a.announcer() is Ok,
    ensures
        exists|k: int|
            0 <= k < verified(entries).len() && presence_key(#[trigger] verified(entries)[k])
                == presence_key(a),
        (forall|j: int|
            0 <= j < i ==> (announcement_of(#[trigger] entries[j]) matches Some(b) ==> b.announcer()
                is Ok ==> presence_key(b) != presence_key(a))) ==> verified(entries).contains(a),
    decreases entries.len(),
{
    let front = entries.drop_last();
    let before = verified(front);
    let all = verified(entries);
    if i < front.len() {
        assert(front[i] == entries[i]);
        announced_is_listed(front, i, a);
        let k = choose|k: int|
            0 <= k < before.len() && presence_key(#[trigger] before[k]) == presence_key(a);
        assert(all[k] == before[k]);
        if forall|j: int|
            0 <= j < i ==> (announcement_of(#[trigger] entries[j]) matches Some(b) ==> b.announcer()
                is Ok ==> presence_key(b) != presence_key(a)) {
            assert forall|j: int| 0 <= j < i implies (announcement_of(#[trigger] front[j])
                matches Some(b) ==> b.announcer() is Ok ==> presence_key(b) != presence_key(a)) by {
                assert(front[j] == entries[j]);
            }
            assert(before.contains(a));
            let n = choose|n: int| 0 <= n < before.len() && before[n] == a;
            assert(all[n] == a);
        }
    } else if has_presence(before, presence_key(a)) {
        let k = choose|k: int|
            0 <= k < before.len() && presence_key(#[trigger] before[k]) == presence_key(a);
        assert(all[k] == before[k]);
        let n = listed_comes_from_an_entry(front, k);
        assert(entries[n] == front[n]);
    } else {
        assert(all[before.len() as int] == a);
    }
}

/// Every announcement on the verified list is an entry, whose signature holds, and the first of
/// its session.
pub proof fn listed_comes_from_an_entry(entries: Seq<JsonTree>, k: int) -> (i: int)
    requires
        0 <= k < verified(entries).len(),
    ensures
        0 <= i < entries.len(),
        announcement_of(entries[i]) == Some(verified(entries)[k]),
        verified(entries)[k].announcer() is Ok,
        forall|j: int|
            0 <= j < i ==> (announcement_of(#[trigger] entries[j]) matches Some(b) ==> b.announcer()
                is Ok ==> presence_key(b) != presence_key(verified(entries)[k])),
    decreases entries.len(),
{
    let front = entries.drop_last();
    let before = verified(front);
    let a = verified(entries)[k];
    if k < before.len() {
        let i = listed_comes_from_an_entry(front, k);
        assert forall|j: int| 0 <= j < i implies (announcement_of(#[trigger] entries[j])
            matches Some(b) ==> b.announcer() is Ok ==> presence_key(b) != presence_key(a)) by {
            assert(front[j] == entries[j]);
        }
        i
    } else {
        assert forall|j: int| 0 <= j < front.len() implies (announcement_of(#[trigger] entries[j])
            matches Some(b) ==> b.announcer() is Ok ==> presence_key(b) != presence_key(a)) by {
            if let Some(b) = announcement_of(entries[j]) {
                if b.announcer() is Ok && presence_key(b) == presence_key(a) {
                    assert(front[j] == entries[j]);
                    announced_is_listed(front, j, b);
                    let n = choose|n: int|
                        0 <= n < before.len() && presence_key(#[trigger] before[n])
                            == presence_key(b);
                    assert(has_presence(before, presence_key(a)));
                }
            }
        }
        front.len() as int
    }
}

/// What later entries say changes nothing of what the earlier ones put on the list.
pub proof fn later_entries_are_listed_behind(a: Seq<JsonTree>, b: Seq<JsonTree>)
    ensures
        verified(a).is_prefix_of(verified(a + b)),
    decreases b.len(),
{
    if b.len() == 0 {
        assert(a + b =~= a);
        assert(verified(a).subrange(0, verified(a).len() as int) =~= verified(a));
    } else {
        later_entries_are_listed_behind(a, b.drop_last());
        assert((a + b).drop_last() =~= a + b.drop_last());
        let mid = verified(a + b.drop_last());
        assert(verified(a + b).subrange(0, verified(a).len() as int) =~= mid.subrange(
            0,
            verified(a).len() as int,
        ));
    }
}

/// An identity is grouped if and only if it announced itself, under the name that it announced
/// first; each announcement that names a session adds that session to its identity's, behind the
/// others, and to no other identity's.
pub proof fn announcement_joins_its_identity(
    anns: Seq<AnnouncementView>,
    a: AnnouncementView,
    key: Seq<char>,
)
    ensures
        sessions_of(grouped(Seq::empty()), key).len() == 0,
        sessions_of(grouped(anns.push(a)), key) == if a.pubkey == key
            && a.session.session_id.len() > 0 {
            sessions_of(grouped(anns), key).push(LiveView { info: a.session, age_ms: a.age_ms })
        } else {
            sessions_of(grouped(anns), key)
        },
        ({
            let before = grouped(anns);
            let after = grouped(anns.push(a));
            let known = exists|i: int| 0 <= i < before.len() && (#[trigger] before[i]).key == a.pubkey;
            &&& after.len() == if known {
                before.len()
            } else {
                before.len() + 1
            }
            &&& forall|i: int|
                0 <= i < before.len() ==> (#[trigger] after[i]).key == before[i].key
                    && after[i].name == before[i].name
            &&& !known ==> after.last().key == a.pubkey && after.last().name == a.name
        }),
{
    let before = grouped(anns);
    let after = grouped(anns.push(a));
    assert(anns.push(a).drop_last() =~= anns);
    group_index_says(before, a.pubkey);
    group_index_says(before, key);
    let n = group_index(before, a.pubkey) as int;
    let k = group_index(before, key) as int;
    if n < before.len() {
        assert(before[n].key == a.pubkey);
        assert forall|j: int| 0 <= j < k implies (#[trigger] after[j]).key != key by {
            assert(before[j].key != key);
        }
        group_index_is(after, key, k);
        if key == a.pubkey {
            assert(k == n);
        } else if k < before.len() {
            assert(before[k].key == key);
            assert(k != n);
        }
    } else {
        assert forall|j: int| 0 <= j < before.len() implies #[trigger] after[j] == before[j] by {}
        if k < before.len() {
            assert forall|j: int| 0 <= j < k implies (#[trigger] after[j]).key != key by {
                assert(before[j].key != key);
            }
            group_index_is(after, key, k);
        } else if key == a.pubkey {
            assert forall|j: int| 0 <= j < before.len() implies (#[trigger] after[j]).key != key by {
                assert(before[j].key != key);
            }
            group_index_is(after, key, before.len() as int);
            assert(with_session(Seq::empty(), a) =~= if a.session.session_id.len() > 0 {
                Seq::<LiveView>::empty().push(LiveView { info: a.session, age_ms: a.age_ms })
            } else {
                Seq::empty()
            });
        } else {
            assert forall|j: int| 0 <= j < after.len() implies (#[trigger] after[j]).key != key by {
                if j < before.len() {
                    assert(before[j].key != key);
                }
            }
            group_index_is(after, key, after.len() as int);
        }
    }
}

/// A session that is validly announced, and first so, is among the sessions of its identity on
/// the roster, with what it says of itself and with its age.
pub proof fn announced_session_is_reached(entries: Seq<JsonTree>, i: int, a: AnnouncementView)
    requires
        0 <= i < entries.len(),
        announcement_of(entries[i]) == Some(a),
        a.announcer() is Ok,
        a.session.session_id.len() > 0,
        forall|j: int|
            0 <= j < i ==> (announcement_of(#[trigger] entries[j]) matches Some(b) ==> b.announcer()
                is Ok ==> presence_key(b) != presence_key(a)),
    ensures
        sessions_of(grouped(verified(entries)), a.pubkey).contains(
            LiveView { info: a.session, age_ms: a.age_ms },
        ),
{
    announced_is_listed(entries, i, a);
    let anns = verified(entries);
    let k = choose|k: int| 0 <= k < anns.len() && anns[k] == a;
    announced_is_among_sessions(anns, k);
}

proof fn announced_is_among_sessions(anns: Seq<AnnouncementView>, k: int)
    requires
        0 <= k < anns.len(),
        anns[k].session.session_id.len() > 0,
    ensures
        sessions_of(grouped(anns), anns[k].pubkey).contains(
            LiveView { info: anns[k].session, age_ms: anns[k].age_ms },
        ),
    decreases anns.len(),
{
    let front = anns.drop_last();
    let key = anns[k].pubkey;
    let x = LiveView { info: anns[k].session, age_ms: anns[k].age_ms };
    announcement_joins_its_identity(front, anns.last(), key);
    assert(front.push(anns.last()) =~= anns);
    let before = sessions_of(grouped(front), key);
    let after = sessions_of(grouped(anns), key);
    if k < front.len() {
        announced_is_among_sessions(front, k);
        let n = choose|n: int| 0 <= n < before.len() && before[n] == x;
        assert(after[n] == x);
    } else {
        assert(after[before.len() as int] == x);
    }
}

/// Every session of an identity on the roster was announced by that identity, in an entry whose
/// signature holds.
pub proof fn reached_session_is_announced(entries: Seq<JsonTree>, key: Seq<char>, n: int) -> (i: int)
    requires
        0 <= n < sessions_of(grouped(verified(entries)), key).len(),
    ensures
        0 <= i < entries.len(),
        announcement_of(entries[i]) matches Some(a) && a.announcer() is Ok && a.pubkey == key
            && a.session.session_id.len() > 0 && sessions_of(grouped(verified(entries)), key)[n]
            == (LiveView { info: a.session, age_ms: a.age_ms }),
{
    let k = session_has_an_announcement(verified(entries), key, n);
    listed_comes_from_an_entry(entries, k)
}

proof fn session_has_an_announcement(anns: Seq<AnnouncementView>, key: Seq<char>, n: int) -> (k: int)
    requires
        0 <= n < sessions_of(grouped(anns), key).len(),
    ensures
        0 <= k < anns.len(),
        anns[k].pubkey == key,
        anns[k].session.session_id.len() > 0,
        sessions_of(grouped(anns), key)[n] == (LiveView {
            info: anns[k].session,
            age_ms: anns[k].age_ms,
        }),
    decreases anns.len(),
{
    if anns.len() == 0 {
        assert(grouped(anns).len() == 0);
        0
    } else {
        let front = anns.drop_last();
        announcement_joins_its_identity(front, anns.last(), key);
        assert(front.push(anns.last()) =~= anns);
        let before = sessions_of(grouped(front), key);
        if n < before.len() {
            let k = session_has_an_announcement(front, key, n);
            assert(anns[k] == front[k]);
            k
        } else {
            front.len() as int
        }
    }
}

spec fn has_mark(g: Seq<GroupView>, target: Seq<char>, i: int) -> bool {
    0 <= i < g.len() && first_chars(g[i].key, 8) == target
}

spec fn has_name(g: Seq<GroupView>, target: Seq<char>, i: int) -> bool {
    0 <= i < g.len() && g[i].name == target
}

proof fn marked_by_place(g: Seq<GroupView>, target: Seq<char>) -> (p: (int, int))
    ensures
        keys_with_fingerprint(g, target).len() == 0 <==> forall|i: int|
            !#[trigger] has_mark(g, target, i),
        keys_with_fingerprint(g, target).len() > 0 ==> has_mark(g, target, p.0)
            && keys_with_fingerprint(g, target)[0] == g[p.0].key,
        keys_with_fingerprint(g, target).len() == 1 ==> forall|i: int| #[trigger]
            has_mark(g, target, i) ==> i == p.0,
        keys_with_fingerprint(g, target).len() > 1 ==> has_mark(g, target, p.1) && p.0 != p.1,
    decreases g.len(),
{
    if g.len() == 0 {
        (0, 0)
    } else {
        let front = g.drop_last();
        let n = front.len() as int;
        let p = marked_by_place(front, target);
        assert forall|i: int|
            #![trigger has_mark(g, target, i)]
            #![trigger has_mark(front, target, i)]
            i < n implies has_mark(g, target, i) == has_mark(front, target, i) by {
            if i >= 0 {
                assert(g[i] == front[i]);
            }
        }
        assert(g[n] == g.last());
        assert(!has_mark(front, target, n));
        assert(has_mark(g, target, n) || !has_mark(g, target, n));
        let before = keys_with_fingerprint(front, target);
        let c = keys_with_fingerprint(g, target);
        let r = if before.len() == 0 {
            (n, n)
        } else if before.len() == 1 {
            (p.0, n)
        } else {
            p
        };
        assert(c.len() == 0 ==> forall|i: int| !#[trigger] has_mark(g, target, i));
        assert(c.len() > 0 ==> has_mark(g, target, r.0) && c[0] == g[r.0].key);
        assert(c.len() == 1 ==> forall|i: int| #[trigger] has_mark(g, target, i) ==> i == r.0);
        assert(c.len() > 1 ==> has_mark(g, target, r.1) && r.0 != r.1);
        r
    }
}

proof fn named_by_place(g: Seq<GroupView>, target: Seq<char>) -> (p: (int, int))
    ensures
        keys_with_name(g, target).len() == 0 <==> forall|i: int| !#[trigger] has_name(g, target, i),
        keys_with_name(g, target).len() > 0 ==> has_name(g, target, p.0) && keys_with_name(
            g,
            target,
        )[0] == g[p.0].key,
        keys_with_name(g, target).len() == 1 ==> forall|i: int| #[trigger]
            has_name(g, target, i) ==> i == p.0,
        keys_with_name(g, target).len() > 1 ==> has_name(g, target, p.1) && p.0 != p.1,
    decreases g.len(),
{
    if g.len() == 0 {
        (0, 0)
    } else {
        let front = g.drop_last();
        let n = front.len() as int;
        let p = named_by_place(front, target);
        assert forall|i: int|
            #![trigger has_name(g, target, i)]
            #![trigger has_name(front, target, i)]
            i < n implies has_name(g, target, i) == has_name(front, target, i) by {
            if i >= 0 {
                assert(g[i] == front[i]);
            }
        }
        assert(g[n] == g.last());
        assert(!has_name(front, target, n));
        assert(has_name(g, target, n) || !has_name(g, target, n));
        let before = keys_with_name(front, target);
        let c = keys_with_name(g, target);
        let r = if before.len() == 0 {
            (n, n)
        } else if before.len() == 1 {
            (p.0, n)
        } else {
            p
        };
        assert(c.len() == 0 ==> forall|i: int| !#[trigger] has_name(g, target, i));
        assert(c.len() > 0 ==> has_name(g, target, r.0) && c[0] == g[r.0].key);
        assert(c.len() == 1 ==> forall|i: int| #[trigger] has_name(g, target, i) ==> i == r.0);
        assert(c.len() > 1 ==> has_name(g, target, r.1) && r.0 != r.1);
        r
    }
}

/// What a text means on the roster: the identity whose key it is; else the only one whose key
/// begins with these eight characters; else the only one that calls itself this. Where several
/// would be meant, however many, none is.
pub proof fn target_is_one_identity(g: Seq<GroupView>, target: Seq<char>, i: int, j: int)
    ensures
        0 <= i < g.len() && g[i].key == target ==> target_of(g, target) == Ok::<
            Seq<char>,
            TargetError,
        >(target),
        (forall|k: int| 0 <= k < g.len() ==> (#[trigger] g[k]).key != target) && target.len() == 8
            && 0 <= i < j < g.len() && target.is_prefix_of(g[i].key) && target.is_prefix_of(
            g[j].key,
        ) ==> target_of(g, target) == Err::<Seq<char>, TargetError>(
            TargetError::SharedFingerprint,
        ),
        target.len() == 8 && 0 <= i < g.len() && target.is_prefix_of(g[i].key) && (forall|k: int|
            0 <= k < g.len() && k != i ==> !target.is_prefix_of((#[trigger] g[k]).key)) ==> target_of(
            g,
            target,
        ) == Ok::<Seq<char>, TargetError>(g[i].key),
        (forall|k: int|
            0 <= k < g.len() ==> (#[trigger] g[k]).key != target && !(target.len() == 8
                && target.is_prefix_of(g[k].key))) ==> {
            &&& 0 <= i < j < g.len() && g[i].name == target && g[j].name == target ==> target_of(
                g,
                target,
            ) == Err::<Seq<char>, TargetError>(TargetError::SharedName)
            &&& 0 <= i < g.len() && g[i].name == target && (forall|k: int|
                0 <= k < g.len() && k != i ==> (#[trigger] g[k]).name != target) ==> target_of(
                g,
                target,
            ) == Ok::<Seq<char>, TargetError>(g[i].key)
            &&& (forall|k: int| 0 <= k < g.len() ==> (#[trigger] g[k]).name != target) ==> target_of(
                g,
                target,
            ) == Err::<Seq<char>, TargetError>(TargetError::NotListed)
        },
{
    group_index_says(g, target);
    if 0 <= i < g.len() && g[i].key == target {
        assert(group_index(g, target) < g.len());
    }
    if target.len() == 8 && 0 <= i < g.len() && target.is_prefix_of(g[i].key) && forall|k: int|
        0 <= k < g.len() && k != i ==> !target.is_prefix_of((#[trigger] g[k]).key) {
        only_one_is_marked(g, target, i);
    }
    if (forall|k: int| 0 <= k < g.len() ==> (#[trigger] g[k]).key != target) && target.len() == 8
        && 0 <= i < j < g.len() && target.is_prefix_of(g[i].key) && target.is_prefix_of(g[j].key) {
        several_are_marked(g, target, i, j);
    }
    if forall|k: int|
        0 <= k < g.len() ==> (#[trigger] g[k]).key != target && !(target.len() == 8
            && target.is_prefix_of(g[k].key)) {
        none_is_marked(g, target);
        named_decide(g, target, i, j);
    }
}

proof fn mark_is_prefix(g: Seq<GroupView>, target: Seq<char>, k: int)
    requires
        0 <= k < g.len(),
    ensures
        has_mark(g, target, k) <==> (g[k].key == target && target.len() < 8 || target.len() == 8
            && target.is_prefix_of(g[k].key)),
{
    crate::text::first_chars_begin_the_text(g[k].key, 8);
    if target.len() == 8 && target.is_prefix_of(g[k].key) {
        assert(first_chars(g[k].key, 8) =~= target);
    }
}

proof fn only_one_is_marked(g: Seq<GroupView>, target: Seq<char>, i: int)
    requires
        target.len() == 8,
        0 <= i < g.len(),
        target.is_prefix_of(g[i].key),
        forall|k: int| 0 <= k < g.len() && k != i ==> !target.is_prefix_of((#[trigger] g[k]).key),
    ensures
        target_of(g, target) == Ok::<Seq<char>, TargetError>(g[i].key),
{
    let p = marked_by_place(g, target);
    let marked = keys_with_fingerprint(g, target);
    mark_is_prefix(g, target, i);
    assert(has_mark(g, target, i));
    assert(marked.len() > 0);
    mark_is_prefix(g, target, p.0);
    assert(p.0 == i);
    if marked.len() > 1 {
        mark_is_prefix(g, target, p.1);
        assert(target.is_prefix_of(g[p.1].key));
    }
    group_index_says(g, target);
    let n = group_index(g, target) as int;
    if n < g.len() {
        assert(target.is_prefix_of(target)) by {
            assert(target.subrange(0, target.len() as int) =~= target);
        }
        assert(target.is_prefix_of(g[n].key));
        assert(n == i);
    }
}

proof fn several_are_marked(g: Seq<GroupView>, target: Seq<char>, i: int, j: int)
    requires
        target.len() == 8,
        0 <= i < j < g.len(),
        target.is_prefix_of(g[i].key),
        target.is_prefix_of(g[j].key),
        forall|k: int| 0 <= k < g.len() ==> (#[trigger] g[k]).key != target,
    ensures
        target_of(g, target) == Err::<Seq<char>, TargetError>(TargetError::SharedFingerprint),
{
    let p = marked_by_place(g, target);
    let marked = keys_with_fingerprint(g, target);
    mark_is_prefix(g, target, i);
    mark_is_prefix(g, target, j);
    assert(has_mark(g, target, i) && has_mark(g, target, j));
    assert(marked.len() != 0);
    assert(marked.len() != 1);
    group_index_says(g, target);
}

proof fn none_is_marked(g: Seq<GroupView>, target: Seq<char>)
    requires
        forall|k: int|
            0 <= k < g.len() ==> (#[trigger] g[k]).key != target && !(target.len() == 8
                && target.is_prefix_of(g[k].key)),
    ensures
        keys_with_fingerprint(g, target).len() == 0,
        group_index(g, target) == g.len(),
{
    let p = marked_by_place(g, target);
    if keys_with_fingerprint(g, target).len() > 0 {
        mark_is_prefix(g, target, p.0);
        assert(g[p.0].key != target);
    }
    group_index_says(g, target);
}

proof fn named_decide(g: Seq<GroupView>, target: Seq<char>, i: int, j: int)
    requires
        keys_with_fingerprint(g, target).len() == 0,
        group_index(g, target) == g.len(),
    ensures
        0 <= i < j < g.len() && g[i].name == target && g[j].name == target ==> target_of(g, target)
            == Err::<Seq<char>, TargetError>(TargetError::SharedName),
        0 <= i < g.len() && g[i].name == target && (forall|k: int|
            0 <= k < g.len() && k != i ==> (#[trigger] g[k]).name != target) ==> target_of(g, target)
            == Ok::<Seq<char>, TargetError>(g[i].key),
        (forall|k: int| 0 <= k < g.len() ==> (#[trigger] g[k]).name != target) ==> target_of(
            g,
            target,
        ) == Err::<Seq<char>, TargetError>(TargetError::NotListed),
{
    let q = named_by_place(g, target);
    let named = keys_with_name(g, target);
    assert(has_name(g, target, i) || !has_name(g, target, i));
    assert(has_name(g, target, j) || !has_name(g, target, j));
    if has_name(g, target, i) && has_name(g, target, j) && i < j {
        assert(named.len() != 0);
        assert(named.len() != 1);
    }
    if named.len() > 0 {
        assert(g[q.0].name == target);
    }
    if named.len() > 1 {
        assert(g[q.1].name == target);
    }
}

/// The age of a session in words: whole minutes within the hour, whole hours within two days, and
/// whole days from then on.
pub proof fn ages_are_told_in_whole_units(n: u64, rest: u64)
    ensures
        60_000 * n + rest < 3_600_000 && rest < 60_000 ==> age_words((60_000 * n + rest) as u64)
            == decimal_text(n as nat) + "m"@,
        3_600_000 <= 3_600_000 * n + rest < 2 * 86_400_000 && rest < 3_600_000 ==> age_words(
            (3_600_000 * n + rest) as u64,
        ) == decimal_text(n as nat) + "h"@,
        2 * 86_400_000 <= 86_400_000 * n + rest <= u64::MAX && rest < 86_400_000 ==> age_words(
            (86_400_000 * n + rest) as u64,
        ) == decimal_text(n as nat) + " days"@,
{
    assert(rest < 60_000 ==> (60_000 * n + rest) / 60_000 == n);
    assert(rest < 3_600_000 ==> (3_600_000 * n + rest) / 3_600_000 == n);
    assert(rest < 86_400_000 ==> (86_400_000 * n + rest) / 86_400_000 == n);
}

/// The line of a session begins with its id and then says all that the session says of itself,
/// and that it is away where it is.
pub proof fn line_says_what_is_known(s: LiveView)
    ensures
        line_of(s) == joined(line_parts(s), " · "@),
        line_parts(s)[0] == s.info.session_id,
        s.info.cwd.len() > 0 ==> line_parts(s).contains(s.info.cwd),
        s.info.git_root.len() > 0 ==> line_parts(s).contains("git:"@ + s.info.git_root),
        s.info.summary.len() > 0 ==> line_parts(s).contains("\""@ + s.info.summary + "\""@),
        !s.live() ==> line_parts(s).last() == "away (last seen "@ + age_words(s.age_ms->0)
            + " ago)"@,
        line_parts(s).len() == 1 + (if s.info.cwd.len() > 0 {
            1int
        } else {
            0
        }) + (if s.info.git_root.len() > 0 {
            1int
        } else {
            0
        }) + (if s.info.summary.len() > 0 {
            1int
        } else {
            0
        }) + (if s.live() {
            0int
        } else {
            1
        }),
{
    let p = line_parts(s);
    let c: int = if s.info.cwd.len() > 0 {
        1
    } else {
        0
    };
    let g: int = if s.info.git_root.len() > 0 {
        1
    } else {
        0
    };
    if s.info.cwd.len() > 0 {
        assert(p[1] == s.info.cwd);
    }
    if s.info.git_root.len() > 0 {
        assert(p[1 + c] == "git:"@ + s.info.git_root);
    }
    if s.info.summary.len() > 0 {
        assert(p[1 + c + g] == "\""@ + s.info.summary + "\""@);
    }
}

/// A listing remarks of an identity that it is this node, if it is; of another that it is a peer,
/// if its key is on the allowlist; and of either that its name is shared, if several identities
/// have it.
pub proof fn remarks_are_true(
    g: GroupView,
    all: Seq<GroupView>,
    me: Seq<char>,
    policy: Seq<(Seq<char>, Seq<u8>)>,
    i: int,
    j: int,
)
    requires
        all.contains(g),
    ensures
        tags_of(g, all, me, policy).contains("you"@) <==> g.key == me,
        tags_of(g, all, me, policy).contains("already a peer"@) <==> g.key != me && parse_id(g.key)
            is Ok && petname_of(policy, parse_id(g.key)->Ok_0) is Some,
        0 <= i < j < all.len() && all[i].name == g.name && all[j].name == g.name ==> tags_of(
            g,
            all,
            me,
            policy,
        ).contains("name shared — verify fingerprint"@),
        tags_of(g, all, me, policy).contains("name shared — verify fingerprint"@) ==> exists|a: int, b:
            int|
            0 <= a < all.len() && 0 <= b < all.len() && a != b && (#[trigger] all[a]).name == g.name
                && (#[trigger] all[b]).name == g.name,
{
    reveal_strlit("you");
    reveal_strlit("already a peer");
    reveal_strlit("name shared — verify fingerprint");
    assert("you"@.len() == 3 && "already a peer"@.len() == 14);
    assert("name shared — verify fingerprint"@.len() == 32);
    let t = tags_of(g, all, me, policy);
    let p = named_by_place(all, g.name);
    assert(has_name(all, g.name, i) || !has_name(all, g.name, i));
    assert(has_name(all, g.name, j) || !has_name(all, g.name, j));
    if has_name(all, g.name, i) && has_name(all, g.name, j) && i < j {
        assert(keys_with_name(all, g.name).len() != 0);
        assert(keys_with_name(all, g.name).len() != 1);
    }
    if g.key == me || is_peer_key(policy, g.key) {
        assert(t[0] == if g.key == me {
            "you"@
        } else {
            "already a peer"@
        });
    }
    if keys_with_name(all, g.name).len() > 1 {
        assert(t.last() == "name shared — verify fingerprint"@);
        assert(t[t.len() - 1] == t.last());
        assert(has_name(all, g.name, p.0) && has_name(all, g.name, p.1));
    }
}

/// Each session has a line of its own in what is listed of its identity, in their order; the mark
/// behind a line says that it is this very session, and stands behind no other.
pub proof fn session_lines_follow_each_other(
    a: Seq<LiveView>,
    s: LiveView,
    own: Option<Seq<char>>,
)
    ensures
        session_lines(Seq::empty(), own).len() == 0,
        session_lines(a.push(s), own) == session_lines(a, own) + "\n    → "@ + line_of(s) + if own
            == Some(s.info.session_id) {
            "  ← this session"@
        } else {
            Seq::empty()
        },
{
    assert(a.push(s).drop_last() =~= a);
}

/// Every identity on the roster has its block in the listing, which says its name, its fingerprint
/// and its key.
pub proof fn listing_has_every_identity(
    all: Seq<GroupView>,
    me: Seq<char>,
    my_session: Seq<char>,
    policy: Seq<(Seq<char>, Seq<u8>)>,
    i: int,
) -> (around: (Seq<char>, Seq<char>, Seq<char>, Seq<char>))
    requires
        0 <= i < all.len(),
    ensures
        listing_of(all, me, my_session, policy) == around.0 + block_of(
            all[i],
            all,
            me,
            my_session,
            policy,
        ) + around.1,
        block_of(all[i], all, me, my_session, policy) == all[i].name + " ("@ + first_chars(
            all[i].key,
            8,
        ) + "…)"@ + around.2 + "\n    key: "@ + all[i].key + around.3,
        around.3 == session_lines(
            all[i].sessions,
            if all[i].key == me {
                Some(my_session)
            } else {
                None
            },
        ),
{
    let blocks = all.map_values(|g: GroupView| block_of(g, all, me, my_session, policy));
    let (a, b) = part_stands_in_joined(blocks, "\n"@, i);
    (
        a,
        b,
        tag_text(tags_of(all[i], all, me, policy)),
        session_lines(
            all[i].sessions,
            if all[i].key == me {
                Some(my_session)
            } else {
                None
            },
        ),
    )
}

/// The remarks stand in brackets, and without any there are none; an empty listing says so.
pub proof fn remarks_are_bracketed(
    tags: Seq<Seq<char>>,
    me: Seq<char>,
    my_session: Seq<char>,
    policy: Seq<(Seq<char>, Seq<u8>)>,
)
    ensures
        tags.len() == 0 ==> tag_text(tags).len() == 0,
        tags.len() > 0 ==> tag_text(tags) == "  ["@ + joined(tags, ", "@) + "]"@,
        listing_of(Seq::empty(), me, my_session, policy) == "no matching nodes on the bus roster"@,
{
}

/// What is asked for is listed: everything where nothing is named; else the one identity, by its
/// petname first.
pub proof fn discovery_lists_what_is_asked_for(
    entries: Seq<JsonTree>,
    target: Option<Seq<char>>,
    me: Seq<char>,
    my_session: Seq<char>,
    policy: Seq<(Seq<char>, Seq<u8>)>,
    i: int,
)
    ensures
        ({
            let all = grouped(verified(entries));
            let found = discovered(entries, target, me, my_session, policy);
            match crate::text::unless_blank(target) {
                None => found == Ok::<Seq<char>, TargetError>(
                    listing_of(all, me, my_session, policy),
                ),
                Some(t) => match key_value(policy, t) {
                    Some(id) => 0 <= i < all.len() && all[i].key == b64_text(id) ==> found == Ok::<
                        Seq<char>,
                        TargetError,
                    >(listing_of(seq![all[i]], me, my_session, policy)),
                    None => match target_of(all, t) {
                        Err(e) => found == Err::<Seq<char>, TargetError>(e),
                        Ok(key) => 0 <= i < all.len() && all[i].key == key ==> found == Ok::<
                            Seq<char>,
                            TargetError,
                        >(listing_of(seq![all[i]], me, my_session, policy)),
                    },
                },
            }
        }),
{
    let all = grouped(verified(entries));
    if 0 <= i < all.len() {
        assert forall|j: int| 0 <= j < i implies (#[trigger] all[j]).key != all[i].key by {
            identities_are_grouped_once(verified(entries), j, i);
        }
        group_index_is(all, all[i].key, i);
    }
}

proof fn session_line_stands(sessions: Seq<LiveView>, own: Option<Seq<char>>, k: int) -> (around: (
    Seq<char>,
    Seq<char>,
))
    requires
        0 <= k < sessions.len(),
    ensures
        session_lines(sessions, own) == around.0 + ("\n    → "@ + line_of(sessions[k])) + around.1,
    decreases sessions.len(),
{
    let front = sessions.drop_last();
    let before = session_lines(front, own);
    let last = "\n    → "@ + line_of(sessions.last());
    let mark = if own == Some(sessions.last().id()) {
        "  ← this session"@
    } else {
        Seq::empty()
    };
    if k == front.len() {
        assert(session_lines(sessions, own) =~= before + last + mark);
        (before, mark)
    } else {
        let (a, b) = session_line_stands(front, own, k);
        let line = "\n    → "@ + line_of(sessions[k]);
        assert(session_lines(sessions, own) =~= a + line + (b + last + mark));
        (a, b + last + mark)
    }
}

/// Who discovers sees every session that is validly announced, and first so, on a line of its own
/// with what the session says of itself.
pub proof fn announced_session_is_discovered(
    entries: Seq<JsonTree>,
    i: int,
    a: AnnouncementView,
    me: Seq<char>,
    my_session: Seq<char>,
    policy: Seq<(Seq<char>, Seq<u8>)>,
) -> (around: (Seq<char>, Seq<char>))
    requires
        0 <= i < entries.len(),
        announcement_of(entries[i]) == Some(a),
        a.announcer() is Ok,
        a.session.session_id.len() > 0,
        forall|j: int|
            0 <= j < i ==> (announcement_of(#[trigger] entries[j]) matches Some(b) ==> b.announcer()
                is Ok ==> presence_key(b) != presence_key(a)),
    ensures
        discovered(entries, None, me, my_session, policy) == Ok::<Seq<char>, TargetError>(
            around.0 + ("\n    → "@ + line_of(LiveView { info: a.session, age_ms: a.age_ms }))
                + around.1,
        ),
{
    announced_session_is_reached(entries, i, a);
    let all = grouped(verified(entries));
    let x = LiveView { info: a.session, age_ms: a.age_ms };
    let g = group_index(all, a.pubkey) as int;
    assert(0 <= g < all.len());
    let sessions = all[g].sessions;
    let k = choose|k: int| 0 <= k < sessions.len() && sessions[k] == x;
    let own = if all[g].key == me {
        Some(my_session)
    } else {
        None
    };
    let (p, q) = session_line_stands(sessions, own, k);
    let line = "\n    → "@ + line_of(x);
    let (front, back, tags, lines) = listing_has_every_identity(all, me, my_session, policy, g);
    let head = all[g].name + " ("@ + first_chars(all[g].key, 8) + "…)"@ + tags + "\n    key: "@
        + all[g].key;
    stands_behind(head, p, line, q);
    assert(block_of(all[g], all, me, my_session, policy) == (head + p) + line + q);
    stands_within(front, head + p, line, q, back);
    (front + (head + p), q + back)
}

} // verus!
