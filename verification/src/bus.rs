//! The broker: a queue per recipient that keeps each message until it is acknowledged, and a
//! bulletin board of presence announcements.
//!
//! The bus routes an opaque payload to a recipient. It never inspects it, never verifies a
//! signature and holds no keys. Delivery is at least once; the recipient drops what it has seen.
use crate::codec::{announcement_of, empty_object_is, with_sets};
use crate::identity::AnnouncementView;
use crate::json::{empty_object, plain_is_nested, rendered_json, with_is_plain, Json, JsonTree};
use crate::queue::{ack_removes_one, keyed_below, message_key, queue_of};
use crate::record::{
    is_one_record, read_one_record, spells_alone, text_field, value_field, written_field_is_found,
};
use crate::route::{route_text, route_to, Route};
use crate::store::{Store, StoreError};
use crate::text::{push_char, starts_with};
use vstd::prelude::*;
use vstd::utf8::encode_utf8;

verus! {

/// How long a receiver waits where it does not say: 25 seconds.
pub const DEFAULT_RECV_TIMEOUT_MS: u64 = 25_000;

/// How long an announcement is kept without a refresh: three days, because a silent session may
/// only be asleep.
pub const AWAY_RETAIN_MS: u64 = 259_200_000;

/// How many announcements are kept at most.
pub const ROSTER_CAP: usize = 4096;

/// A `dashmap` map.
#[verifier::external_type_specification]
#[verifier::external_body]
#[verifier::reject_recursive_types(K)]
#[verifier::reject_recursive_types(V)]
#[verifier::reject_recursive_types(S)]
pub struct ExDashMap<K, V, S>(dashmap::DashMap<K, V, S>);

/// What the bulletin board holds: announcements with the times of their arrival, by roster key.
pub uninterp spec fn board(m: dashmap::DashMap<String, (Json, u64)>) -> Map<
    Seq<char>,
    (JsonTree, u64),
>;

/// The age of what arrived at `at`.
pub open spec fn age_of(at: u64, now: u64) -> u64 {
    if now > at {
        (now - at) as u64
    } else {
        0
    }
}

/// Whether what arrived at `at` is still kept.
pub open spec fn is_retained(at: u64, now: u64) -> bool {
    age_of(at, now) < AWAY_RETAIN_MS
}

/// Whether what arrived at `at` is still kept.
pub fn retained(at: u64, now: u64) -> (r: bool)
    ensures
        r == is_retained(at, now),
{
    now.saturating_sub(at) < AWAY_RETAIN_MS
}

/// What is left of the board when the expired announcements are gone.
pub open spec fn unexpired(b: Map<Seq<char>, (JsonTree, u64)>, now: u64) -> Map<
    Seq<char>,
    (JsonTree, u64),
> {
    b.restrict(b.dom().filter(|k: Seq<char>| is_retained(b[k].1, now)))
}

/// `DashMap::new`: a map without entries.
#[verifier::external_body]
fn new_board() -> (r: dashmap::DashMap<String, (Json, u64)>)
    ensures
        board(r).dom().len() == 0,
        board(r).dom().finite(),
{
    dashmap::DashMap::new()
}

/// `DashMap::retain`: the entries for which the test fails leave, and the others stay.
#[verifier::external_body]
fn prune_board(m: &mut dashmap::DashMap<String, (Json, u64)>, now: u64)
    ensures
        board(*final(m)) == unexpired(board(*old(m)), now),
{
    m.retain(|_, entry| retained(entry.1, now));
}

/// `DashMap::len`: how many entries there are.
#[verifier::external_body]
fn board_len(m: &dashmap::DashMap<String, (Json, u64)>) -> (r: usize)
    ensures
        r == board(*m).dom().len(),
{
    m.len()
}

/// `DashMap::contains_key`: whether there is an entry under the key.
#[verifier::external_body]
fn board_has(m: &dashmap::DashMap<String, (Json, u64)>, key: &str) -> (r: bool)
    ensures
        r == board(*m).contains_key(key@),
{
    m.contains_key(key)
}

/// `DashMap::insert`: the entry stands under the key, in place of one that was there.
#[verifier::external_body]
fn board_put(m: &mut dashmap::DashMap<String, (Json, u64)>, key: String, value: Json, at: u64)
    ensures
        board(*final(m)) == board(*old(m)).insert(key@, (value.tree(), at)),
{
    m.insert(key, (value, at));
}

/// `DashMap::remove`: no entry stands under the key.
#[verifier::external_body]
fn board_remove(m: &mut dashmap::DashMap<String, (Json, u64)>, key: &str)
    ensures
        board(*final(m)) == board(*old(m)).remove(key@),
{
    m.remove(key);
}

/// `DashMap::iter`: every entry once, in an order of which nothing is said.
#[verifier::external_body]
fn board_entries(m: &dashmap::DashMap<String, (Json, u64)>) -> (r: Vec<(String, Json, u64)>)
    ensures
        lists_board(board(*m), r@),
{
    m.iter().map(|e| (e.key().clone(), e.value().0.copy(), e.value().1)).collect()
}

/// The list holds every entry of the board once.
pub open spec fn lists_board(
    b: Map<Seq<char>, (JsonTree, u64)>,
    entries: Seq<(String, Json, u64)>,
) -> bool {
    &&& forall|i: int, j: int|
        0 <= i < j < entries.len() ==> (#[trigger] entries[i]).0@ != (#[trigger] entries[j]).0@
    &&& forall|i: int|
        0 <= i < entries.len() ==> b.contains_key((#[trigger] entries[i]).0@) && b[entries[i].0@]
            == (entries[i].1.tree(), entries[i].2)
    &&& forall|key: Seq<char>| #[trigger]
        b.contains_key(key) ==> exists|i: int|
            0 <= i < entries.len() && (#[trigger] entries[i]).0@ == key
}

/// The key of an entry that arrived before all others, or with them.
fn oldest_entry(m: &dashmap::DashMap<String, (Json, u64)>) -> (r: String)
    requires
        board(*m).dom().len() > 0,
        board(*m).dom().finite(),
    ensures
        is_oldest(board(*m), r@),
{
    let ghost b = board(*m);
    let entries = board_entries(m);
    proof {
        assert(b.contains_key(b.dom().choose()));
    }
    let mut best: usize = 0;
    let mut i: usize = 0;
    while i < entries.len()
        invariant
            i <= entries@.len(),
            best < entries@.len(),
            lists_board(b, entries@),
            forall|j: int| 0 <= j < i ==> entries@[best as int].2 <= (#[trigger] entries@[j]).2,
        decreases entries@.len() - i,
    {
        if entries[i].2 < entries[best].2 {
            best = i;
        }
        i += 1;
    }
    proof {
        assert forall|other: Seq<char>| #[trigger] b.contains_key(other) implies b[
            entries@[best as int].0@
        ].1 <= b[other].1 by {
            let j = choose|j: int| 0 <= j < entries@.len() && (#[trigger] entries@[j]).0@ == other;
            assert(b[entries@[j].0@] == (entries@[j].1.tree(), entries@[j].2));
        }
    }
    entries[best].0.clone()
}

/// Every announcement on the board is well-formed.
pub open spec fn notices_are_wf(b: Map<Seq<char>, (JsonTree, u64)>) -> bool {
    forall|key: Seq<char>| #[trigger] b.contains_key(key) ==> b[key].0.wf()
}

/// An announcement with its age written in. Signed fields are untouched.
pub open spec fn stamped(t: JsonTree, age: u64) -> JsonTree {
    t.with("age_ms"@, JsonTree::Whole(age))
}

/// The age that the bus writes into an announcement is read from it, in place of one that its
/// sender claimed, and touches nothing that is signed.
pub proof fn stamp_is_not_signed(t: JsonTree, a: AnnouncementView, age: u64)
    requires
        t.wf(),
        t is Object,
        announcement_of(t) == Some(a),
    ensures
        announcement_of(stamped(t, age)) == Some(AnnouncementView { age_ms: Some(age), ..a }),
        (AnnouncementView { age_ms: Some(age), ..a }).announcer() == a.announcer(),
{
    reveal_strlit("age_ms");
    reveal_strlit("pubkey");
    reveal_strlit("name");
    reveal_strlit("session");
    reveal_strlit("ts");
    reveal_strlit("sig");
    assert("age_ms"@.len() == 6 && "pubkey"@.len() == 6 && "name"@.len() == 4);
    assert("session"@.len() == 7 && "ts"@.len() == 2 && "sig"@.len() == 3);
    assert("age_ms"@[0] == 'a' && "pubkey"@[0] == 'p');
    with_sets(t, "age_ms"@, JsonTree::Whole(age));
    let s = stamped(t, age);
    assert(s.get("pubkey"@) == t.get("pubkey"@));
    assert(s.get("name"@) == t.get("name"@));
    assert(s.get("session"@) == t.get("session"@));
    assert(s.get("ts"@) == t.get("ts"@));
    assert(s.get("sig"@) == t.get("sig"@));
    assert(s.get("age_ms"@) == Some(JsonTree::Whole(age)));
}

/// The list holds, for each of the keys, its announcement with its age.
pub open spec fn is_roster(
    b: Map<Seq<char>, (JsonTree, u64)>,
    now: u64,
    keys: Seq<Seq<char>>,
    roster: Seq<Json>,
) -> bool {
    &&& keys.no_duplicates()
    &&& forall|key: Seq<char>|
        keys.contains(key) <==> (#[trigger] b.contains_key(key) && is_retained(b[key].1, now))
    &&& roster.len() == keys.len()
    &&& forall|i: int|
        0 <= i < keys.len() ==> (#[trigger] roster[i]).tree() == stamped(
            b[keys[i]].0,
            age_of(b[keys[i]].1, now),
        )
}

/// No entry of the board arrived before this one.
pub open spec fn is_oldest(b: Map<Seq<char>, (JsonTree, u64)>, key: Seq<char>) -> bool {
    &&& b.contains_key(key)
    &&& forall|other: Seq<char>| #[trigger] b.contains_key(other) ==> b[key].1 <= b[other].1
}

/// The board is full, and has no place under this key.
pub open spec fn lacks_place(kept: Map<Seq<char>, (JsonTree, u64)>, key: Seq<char>) -> bool {
    kept.dom().len() >= ROSTER_CAP && !kept.contains_key(key)
}

/// The board after an announcement. The expired ones leave, and an oldest one leaves where a
/// newcomer finds the board full. Which it is of several that arrived at one time is open.
pub open spec fn is_announced(
    b: Map<Seq<char>, (JsonTree, u64)>,
    key: Seq<char>,
    announcement: JsonTree,
    now: u64,
    after: Map<Seq<char>, (JsonTree, u64)>,
) -> bool {
    let kept = unexpired(b, now);
    if lacks_place(kept, key) {
        exists|oldest: Seq<char>| #[trigger]
            is_oldest(kept, oldest) && after == kept.remove(oldest).insert(key, (announcement, now))
    } else {
        after == kept.insert(key, (announcement, now))
    }
}

/// An announcement is kept until it is too old, in place of an earlier one under its key. Those
/// under other keys stay, but for an oldest one where the board was full.
pub proof fn announcement_lives_until_it_expires(
    b: Map<Seq<char>, (JsonTree, u64)>,
    key: Seq<char>,
    announcement: JsonTree,
    now: u64,
    after: Map<Seq<char>, (JsonTree, u64)>,
    later: u64,
    other: Seq<char>,
)
    requires
        is_announced(b, key, announcement, now, after),
        now <= later,
        other != key,
    ensures
        after.contains_key(key) && after[key] == (announcement, now),
        unexpired(after, later).contains_key(key) <==> later - now < AWAY_RETAIN_MS,
        b.contains_key(other) && is_retained(b[other].1, now) ==> {
            ||| after.contains_key(other) && after[other] == b[other]
            ||| lacks_place(unexpired(b, now), key) && is_oldest(unexpired(b, now), other)
        },
        after.contains_key(other) ==> b.contains_key(other) && after[other] == b[other],
{
    let kept = unexpired(b, now);
    if lacks_place(kept, key) {
        let oldest = choose|oldest: Seq<char>| #[trigger]
            is_oldest(kept, oldest) && after == kept.remove(oldest).insert(key, (announcement, now));
        assert(is_oldest(kept, oldest));
    }
}

/// The board never holds more than its bound.
pub proof fn roster_stays_bounded(
    b: Map<Seq<char>, (JsonTree, u64)>,
    key: Seq<char>,
    announcement: JsonTree,
    now: u64,
    after: Map<Seq<char>, (JsonTree, u64)>,
)
    requires
        b.dom().finite(),
        b.dom().len() <= ROSTER_CAP,
        is_announced(b, key, announcement, now, after),
    ensures
        after.dom().finite(),
        after.dom().len() <= ROSTER_CAP,
{
    let kept = unexpired(b, now);
    assert(kept.dom() =~= b.dom().filter(|k: Seq<char>| is_retained(b[k].1, now)));
    vstd::set_lib::lemma_len_subset(kept.dom(), b.dom());
    if lacks_place(kept, key) {
        let oldest = choose|oldest: Seq<char>| #[trigger]
            is_oldest(kept, oldest) && after == kept.remove(oldest).insert(key, (announcement, now));
        assert(after.dom() =~= kept.dom().remove(oldest).insert(key));
    } else {
        assert(after.dom() =~= kept.dom().insert(key));
    }
}

/// A payload for a recipient, stamped on arrival.
#[derive(Debug, PartialEq)]
pub struct Envelope {
    pub payload: Json,
    /// When the message was enqueued, in Unix milliseconds.
    pub ts: u64,
}

/// The JSON object for an envelope.
pub open spec fn envelope_tree(payload: JsonTree, ts: u64) -> JsonTree {
    empty_object().with("payload"@, payload).with("ts"@, JsonTree::Whole(ts))
}

/// The bytes that are stored for an envelope.
pub open spec fn envelope_bytes(payload: JsonTree, ts: u64) -> Seq<u8> {
    encode_utf8(rendered_json(envelope_tree(payload, ts)))
}

/// The payload and the time that stored bytes write: of an object its two fields, of a list its
/// two members.
pub open spec fn envelope_of_bytes(b: Seq<u8>) -> Option<(JsonTree, u64)> {
    match (value_field(b, "payload"@, 0, 2), value_field(b, "ts"@, 1, 2)) {
        (Some(payload), Some(JsonTree::Whole(ts))) => if is_one_record(b) {
            Some((payload, ts))
        } else {
            None
        },
        _ => None,
    }
}

proof fn envelope_fields(payload: JsonTree, ts: u64)
    requires
        payload.wf(),
    ensures
        envelope_tree(payload, ts).wf(),
        envelope_tree(payload, ts).get("payload"@) == Some(payload),
        envelope_tree(payload, ts).get("ts"@) == Some(JsonTree::Whole(ts)),
        payload.plain(126) ==> envelope_tree(payload, ts).plain(127),
{
    reveal_strlit("payload");
    reveal_strlit("ts");
    assert("payload"@.len() == 7 && "ts"@.len() == 2);
    empty_object_is(127);
    let t0 = empty_object();
    let t1 = t0.with("payload"@, payload);
    with_sets(t0, "payload"@, payload);
    with_sets(t1, "ts"@, JsonTree::Whole(ts));
    if payload.plain(126) {
        with_is_plain(t0, "payload"@, payload, 127);
        with_is_plain(t1, "ts"@, JsonTree::Whole(ts), 127);
    }
}

/// What is written for an envelope reads as that envelope, where its payload is nested no deeper
/// than a reader goes.
pub proof fn envelope_round_trips(written: Seq<u8>, payload: JsonTree, ts: u64)
    requires
        payload.wf(),
        payload.nested(126),
        spells_alone(written, envelope_tree(payload, ts)),
    ensures
        envelope_of_bytes(written) == Some((payload, ts)),
{
    envelope_fields(payload, ts);
    written_field_is_found(written, envelope_tree(payload, ts), "payload"@, 0, 2);
    written_field_is_found(written, envelope_tree(payload, ts), "ts"@, 1, 2);
}

impl Envelope {
    /// The envelope's JSON form.
    pub fn to_json(self) -> (r: Json)
        requires
            self.payload.tree().wf(),
        ensures
            r.tree() == envelope_tree(self.payload.tree(), self.ts),
            r.tree().wf(),
    {
        Json::object().with("payload", self.payload).with("ts", Json::Whole(self.ts))
    }

    /// Reads an envelope from stored bytes.
    pub fn from_bytes(bytes: &[u8]) -> (r: Option<Envelope>)
        ensures
            match r {
                Some(e) => envelope_of_bytes(bytes@) == Some((e.payload.tree(), e.ts))
                    && e.payload.tree().wf(),
                None => envelope_of_bytes(bytes@) is None,
            },
    {
        match read_one_record(bytes) {
            Some(record) => match (
                record.value(bytes, "payload", 0, 2),
                record.value(bytes, "ts", 1, 2),
            ) {
                (Some(payload), Some(Json::Whole(ts))) => Some(Envelope { payload, ts }),
                _ => None,
            },
            None => None,
        }
    }
}

/// The table without the `n` oldest messages of a recipient.
pub open spec fn drop_oldest(
    table: Map<Seq<char>, Seq<u8>>,
    recipient: Seq<char>,
    n: nat,
) -> Map<Seq<char>, Seq<u8>>
    decreases n,
{
    if n == 0 {
        table
    } else {
        drop_oldest(
            table.remove(queue_of(table, recipient)[0].0),
            recipient,
            (n - 1) as nat,
        )
    }
}

/// How many messages are too many.
pub open spec fn excess(len: nat, cap: nat) -> nat {
    if len > cap {
        (len - cap) as nat
    } else {
        0
    }
}

/// Without its oldest messages a queue is what was behind them.
pub proof fn dropping_keeps_the_newest(
    table: Map<Seq<char>, Seq<u8>>,
    recipient: Seq<char>,
    n: nat,
)
    requires
        table.dom().finite(),
        n <= queue_of(table, recipient).len(),
    ensures
        queue_of(drop_oldest(table, recipient, n), recipient) == queue_of(table, recipient).skip(
            n as int,
        ),
        drop_oldest(table, recipient, n).dom().finite(),
    decreases n,
{
    let q = queue_of(table, recipient);
    if n == 0 {
        assert(q.skip(0) =~= q);
    } else {
        ack_removes_one(table, recipient, 0);
        let rest = table.remove(q[0].0);
        assert(q.remove(0) =~= q.skip(1));
        dropping_keeps_the_newest(rest, recipient, (n - 1) as nat);
        assert(q.skip(1).skip(n - 1) =~= q.skip(n as int));
    }
}

/// Dropping one more takes the oldest of what is left.
proof fn drop_one_more(table: Map<Seq<char>, Seq<u8>>, recipient: Seq<char>, n: nat)
    ensures
        drop_oldest(table, recipient, n + 1) == drop_oldest(table, recipient, n).remove(
            queue_of(drop_oldest(table, recipient, n), recipient)[0].0,
        ),
    decreases n,
{
    if n > 0 {
        drop_one_more(
            table.remove(queue_of(table, recipient)[0].0),
            recipient,
            (n - 1) as nat,
        );
    } else {
        let next = table.remove(queue_of(table, recipient)[0].0);
        assert(drop_oldest(next, recipient, 0) == next);
    }
}

/// What a receiver is told.
#[derive(Debug, PartialEq)]
pub enum RecvStep {
    /// The oldest message, which stays until its key is acknowledged.
    Message(Envelope, String),
    /// Nothing waits, and the time is up.
    Timeout,
    /// Nothing waits: wait for an arrival as long as there is time.
    Wait,
}

/// The broker's state.
pub struct Broker {
    store: Store,
    roster: dashmap::DashMap<String, (Json, u64)>,
    cap: usize,
}

impl Broker {
    /// The message queues.
    pub closed spec fn queues(&self) -> Store {
        self.store
    }

    /// The bulletin board.
    pub closed spec fn notices(&self) -> Map<Seq<char>, (JsonTree, u64)> {
        board(self.roster)
    }

    /// How many messages a recipient's queue holds at most.
    pub closed spec fn limit(&self) -> nat {
        self.cap as nat
    }

    /// What waits for a recipient, oldest first.
    pub open spec fn queue(&self, recipient: Seq<char>) -> Seq<(Seq<char>, Seq<u8>)> {
        self.queues().queue(recipient)
    }

    /// The queues are finite, each may hold a message, and the announcements are well-formed and no
    /// more than the board holds.
    pub open spec fn wf(&self) -> bool {
        &&& self.queues().wf()
        &&& self.limit() >= 1
        &&& notices_are_wf(self.notices())
        &&& self.notices().dom().finite()
        &&& self.notices().dom().len() <= ROSTER_CAP
    }

    /// A broker on a store, with queues of at most `cap` messages, at least one.
    pub fn new(store: Store, cap: usize) -> (r: Broker)
        requires
            store.wf(),
        ensures
            r.wf(),
            r.queues() == store,
            r.notices().dom().len() == 0,
            r.limit() == if cap == 0 {
                1
            } else {
                cap as nat
            },
    {
        Broker {
            store,
            roster: new_board(),
            cap: if cap == 0 {
                1
            } else {
                cap
            },
        }
    }

    /// Puts an announcement on the board under its roster key, as it is. The bus inspects nothing
    /// of it.
    pub fn announce(&mut self, key: String, announcement: Json, now: u64)
        requires
            old(self).wf(),
            announcement.tree().wf(),
        ensures
            final(self).wf(),
            final(self).queues() == old(self).queues(),
            final(self).limit() == old(self).limit(),
            is_announced(
                old(self).notices(),
                key@,
                announcement.tree(),
                now,
                final(self).notices(),
            ),
    {
        let ghost notice = announcement.tree();
        prune_board(&mut self.roster, now);
        let ghost kept = self.notices();
        proof {
            assert(kept.dom().subset_of(old(self).notices().dom()));
        }
        if board_len(&self.roster) >= ROSTER_CAP && !board_has(&self.roster, key.as_str()) {
            let oldest = oldest_entry(&self.roster);
            board_remove(&mut self.roster, oldest.as_str());
            assert(is_oldest(kept, oldest@));
        }
        let ghost place = key@;
        board_put(&mut self.roster, key, announcement, now);
        proof {
            assert(is_announced(old(self).notices(), place, notice, now, self.notices()));
            roster_stays_bounded(old(self).notices(), place, notice, now, self.notices());
        }
    }

    /// Takes a session's announcement off the board at once.
    pub fn unregister(&mut self, key: &str)
        requires
            old(self).wf(),
        ensures
            final(self).wf(),
            final(self).queues() == old(self).queues(),
            final(self).limit() == old(self).limit(),
            final(self).notices() == old(self).notices().remove(key@),
    {
        board_remove(&mut self.roster, key);
    }

    /// The announcements that are kept, each with its age, in no particular order.
    pub fn roster(&self, now: u64) -> (r: Vec<Json>)
        requires
            self.wf(),
        ensures
            exists|keys: Seq<Seq<char>>| #[trigger] is_roster(self.notices(), now, keys, r@),
            forall|i: int| 0 <= i < r@.len() ==> (#[trigger] r@[i]).tree().wf(),
    {
        let entries = board_entries(&self.roster);
        let ghost b = self.notices();
        let ghost mut keys: Seq<Seq<char>> = Seq::empty();
        let mut out: Vec<Json> = Vec::new();
        let mut i: usize = 0;
        while i < entries.len()
            invariant
                i <= entries@.len(),
                lists_board(b, entries@),
                notices_are_wf(b),
                forall|k: int| 0 <= k < out@.len() ==> (#[trigger] out@[k]).tree().wf(),
                out@.len() == keys.len(),
                keys.no_duplicates(),
                forall|k: int|
                    0 <= k < keys.len() ==> b.contains_key(#[trigger] keys[k]) && is_retained(
                        b[keys[k]].1,
                        now,
                    ) && out@[k].tree() == stamped(b[keys[k]].0, age_of(b[keys[k]].1, now)),
                forall|k: int|
                    0 <= k < keys.len() ==> exists|j: int|
                        0 <= j < i && (#[trigger] entries@[j]).0@ == #[trigger] keys[k],
                forall|j: int|
                    0 <= j < i && is_retained((#[trigger] entries@[j]).2, now) ==> keys.contains(
                        entries@[j].0@,
                    ),
            decreases entries@.len() - i,
        {
            let at: u64 = entries[i].2;
            let ghost key = entries@[i as int].0@;
            assert(b.contains_key(entries@[i as int].0@));
            if retained(at, now) {
                let age: u64 = now.saturating_sub(at);
                let stamp = entries[i].1.copy().with("age_ms", Json::Whole(age));
                let ghost before = keys;
                proof {
                    if keys.contains(key) {
                        let k = choose|k: int| 0 <= k < keys.len() && keys[k] == key;
                        let j = choose|j: int|
                            0 <= j < i && (#[trigger] entries@[j]).0@ == keys[k];
                        assert(entries@[j].0@ != entries@[i as int].0@);
                    }
                    keys = keys.push(key);
                    assert(keys.last() == key);
                    assert forall|j: int|
                        0 <= j < i + 1 && is_retained(
                            (#[trigger] entries@[j]).2,
                            now,
                        ) implies keys.contains(entries@[j].0@) by {
                        if j < i {
                            let k = choose|k: int|
                                0 <= k < before.len() && before[k] == entries@[j].0@;
                            assert(keys[k] == entries@[j].0@);
                        } else {
                            assert(keys[before.len() as int] == entries@[j].0@);
                        }
                    }
                    assert forall|k: int| 0 <= k < keys.len() implies exists|j: int|
                        0 <= j < i + 1 && (#[trigger] entries@[j]).0@ == #[trigger] keys[k] by {
                        if k < before.len() {
                            let j = choose|j: int|
                                0 <= j < i && (#[trigger] entries@[j]).0@ == before[k];
                            assert(entries@[j].0@ == keys[k]);
                        } else {
                            assert(entries@[i as int].0@ == keys[k]);
                        }
                    }
                }
                out.push(stamp);
            }
            i += 1;
        }
        proof {
            assert forall|key: Seq<char>|
                keys.contains(key) <==> (#[trigger] b.contains_key(key) && is_retained(
                    b[key].1,
                    now,
                )) by {
                if keys.contains(key) {
                    let k = choose|k: int| 0 <= k < keys.len() && keys[k] == key;
                    assert(b.contains_key(keys[k]));
                }
                if b.contains_key(key) && is_retained(b[key].1, now) {
                    let j = choose|j: int|
                        0 <= j < entries@.len() && (#[trigger] entries@[j]).0@ == key;
                    assert(is_retained(entries@[j].2, now));
                }
            }
            assert(is_roster(b, now, keys, out@));
        }
        out
    }

    /// Puts a payload into a recipient's queue. The oldest messages beyond the bound are dropped,
    /// so that a recipient that never returns cannot make the store grow.
    pub fn enqueue(&mut self, to: &str, payload: Json, ts: u64) -> (r: Result<(), StoreError>)
        requires
            old(self).wf(),
            payload.tree().wf(),
        ensures
            final(self).wf(),
            final(self).queues().file() == old(self).queues().file(),
            final(self).limit() == old(self).limit(),
            final(self).notices() == old(self).notices(),
            match r {
                Ok(()) => {
                    let key = message_key(to@, old(self).queues().next_seq() as nat);
                    let bytes = envelope_bytes(payload.tree(), ts);
                    let all = old(self).queues().messages().insert(key, bytes);
                    let n = excess(queue_of(all, to@).len(), old(self).limit());
                    &&& old(self).queues().next_seq() < u64::MAX
                    &&& final(self).queues().next_seq() == old(self).queues().next_seq() + 1
                    &&& final(self).queues().messages() == drop_oldest(all, to@, n)
                    &&& final(self).queue(to@) == queue_of(all, to@).skip(n as int)
                    &&& final(self).queues().same_log(&old(self).queues())
                    &&& payload.tree().plain(126) ==> envelope_of_bytes(bytes) == Some(
                        (payload.tree(), ts),
                    )
                },
                Err(e) => {
                    &&& e !is Undecodable
                    &&& e is Exhausted ==> old(self).queues().next_seq() == u64::MAX
                        && final(self).queues() == old(self).queues()
                },
            },
    {
        proof {
            envelope_fields(payload.tree(), ts);
        }
        let ghost tree = payload.tree();
        let text = (Envelope { payload, ts }).to_json().to_text();
        proof {
            if tree.plain(126) {
                plain_is_nested(tree, 126);
                envelope_round_trips(encode_utf8(text@), tree, ts);
            }
        }
        let mut bytes: Vec<u8> = Vec::new();
        crate::wire::push_bytes(&mut bytes, text.as_str().as_bytes());
        assert(bytes@ =~= envelope_bytes(tree, ts));
        match self.store.enqueue(to.to_string(), bytes) {
            Ok(_) => {},
            Err(e) => return Err(e),
        }
        let ghost all = self.store.messages();
        let ghost mid = self.store;
        let ghost mut n: nat = 0;
        proof {
            mid.is_finite();
            assert(queue_of(all, to@).skip(0) =~= queue_of(all, to@));
        }
        loop
            invariant
                self.wf(),
                mid.wf(),
                self.queues().file() == old(self).queues().file(),
                all.dom().finite(),
                all == mid.messages(),
                self.limit() == old(self).limit(),
                self.notices() == old(self).notices(),
                self.store.next_seq() == mid.next_seq(),
                self.store.same_log(&mid),
                self.store.messages() == drop_oldest(all, to@, n),
                n <= queue_of(all, to@).len(),
                n > 0 ==> queue_of(all, to@).len() - n >= self.limit(),
            ensures
                n == excess(queue_of(all, to@).len(), self.limit()),
            decreases queue_of(all, to@).len() - n,
        {
            proof {
                dropping_keeps_the_newest(all, to@, n);
            }
            let depth: usize = match self.store.depth(to.to_string()) {
                Ok(depth) => depth,
                Err(e) => return Err(e),
            };
            if depth <= self.cap {
                break;
            }
            let oldest = match self.store.peek_oldest(to.to_string()) {
                Ok(Some((key, _))) => key,
                Ok(None) => break,
                Err(e) => return Err(e),
            };
            proof {
                drop_one_more(all, to@, n);
            }
            match self.store.ack(oldest) {
                Ok(()) => {},
                Err(e) => return Err(e),
            }
            proof {
                n = n + 1;
            }
        }
        proof {
            dropping_keeps_the_newest(all, to@, n);
        }
        Ok(())
    }

    /// What a receiver is told that has waited and may wait `remaining_ms` more: the oldest
    /// message, where there is one.
    pub fn recv(&self, id: &str, remaining_ms: u64) -> (r: Result<RecvStep, StoreError>)
        ensures
            match r {
                Ok(RecvStep::Message(envelope, key)) => {
                    &&& self.queue(id@).len() > 0
                    &&& key@ == self.queue(id@)[0].0
                    &&& envelope_of_bytes(self.queue(id@)[0].1) == Some(
                        (envelope.payload.tree(), envelope.ts),
                    )
                    &&& envelope.payload.tree().wf()
                },
                Ok(RecvStep::Timeout) => self.queue(id@).len() == 0 && remaining_ms == 0,
                Ok(RecvStep::Wait) => self.queue(id@).len() == 0 && remaining_ms > 0,
                Err(e) => e !is Exhausted && (e is Undecodable ==> self.queue(id@).len() > 0
                    && envelope_of_bytes(self.queue(id@)[0].1) is None),
            },
    {
        match self.store.peek_oldest(id.to_string()) {
            Ok(Some((key, bytes))) => match Envelope::from_bytes(bytes.as_slice()) {
                Some(envelope) => Ok(RecvStep::Message(envelope, key)),
                None => Err(StoreError::Undecodable),
            },
            Ok(None) => if remaining_ms == 0 {
                Ok(RecvStep::Timeout)
            } else {
                Ok(RecvStep::Wait)
            },
            Err(e) => Err(e),
        }
    }

    /// Removes an acknowledged message.
    pub fn ack(&mut self, key: &str) -> (r: Result<(), StoreError>)
        requires
            old(self).wf(),
        ensures
            final(self).wf(),
            final(self).queues().file() == old(self).queues().file(),
            final(self).limit() == old(self).limit(),
            final(self).notices() == old(self).notices(),
            match r {
                Ok(()) => {
                    &&& final(self).queues().messages() == old(self).queues().messages().remove(
                        key@,
                    )
                    &&& final(self).queues().next_seq() == old(self).queues().next_seq()
                    &&& final(self).queues().same_log(&old(self).queues())
                },
                Err(e) => e is Database,
            },
    {
        self.store.ack(key.to_string())
    }

    /// How many messages wait for a recipient.
    pub fn depth(&self, id: &str) -> (r: Result<usize, StoreError>)
        ensures
            match r {
                Ok(n) => n == self.queue(id@).len(),
                Err(e) => e is Database,
            },
    {
        self.store.depth(id.to_string())
    }
}

/// With room left, a message is put behind those that wait; without, the oldest leaves for it.
pub proof fn bounded_queue_drops_the_oldest(
    table: Map<Seq<char>, Seq<u8>>,
    next: u64,
    to: Seq<char>,
    bytes: Seq<u8>,
    cap: nat,
)
    requires
        table.dom().finite(),
        keyed_below(table, next as nat),
        crate::queue::nul_free(to),
        cap >= 1,
        queue_of(table, to).len() <= cap,
    ensures
        ({
            let key = message_key(to, next as nat);
            let all = table.insert(key, bytes);
            let q = queue_of(table, to);
            let n = excess(queue_of(all, to).len(), cap);
            queue_of(drop_oldest(all, to, n), to) == if q.len() < cap {
                q.push((key, bytes))
            } else {
                q.drop_first().push((key, bytes))
            }
        }),
{
    let key = message_key(to, next as nat);
    let all = table.insert(key, bytes);
    let q = queue_of(table, to);
    crate::queue::enqueue_goes_to_the_back(table, next, to, bytes, to);
    let n = excess(queue_of(all, to).len(), cap);
    dropping_keeps_the_newest(all, to, n);
    if q.len() < cap {
        assert(queue_of(all, to).skip(0) =~= q.push((key, bytes)));
    } else {
        assert(queue_of(all, to).skip(1) =~= q.drop_first().push((key, bytes)));
    }
}

/// The roster key of an announcement: its key with its session, or the bare key where it names no
/// session. Nothing else of it is read.
pub open spec fn announcement_key(t: JsonTree) -> Option<Seq<char>> {
    match t.get_text("pubkey"@) {
        Some(pubkey) => Some(
            route_text(
                route_to(
                    pubkey,
                    match t.get("session"@) {
                        Some(session) => match session.get_text("session_id"@) {
                            Some(id) => id,
                            None => Seq::empty(),
                        },
                        None => Seq::empty(),
                    },
                ),
            ),
        ),
        None => None,
    }
}

/// The roster key of an announcement.
pub fn roster_key(body: &Json) -> (r: Option<String>)
    ensures
        match r {
            Some(key) => announcement_key(body.tree()) == Some(key@),
            None => announcement_key(body.tree()) is None,
        },
{
    let pubkey = match body.get_str("pubkey") {
        Some(s) => s,
        None => return None,
    };
    let id: String = match body.get("session") {
        Some(session) => match session.get_str("session_id") {
            Some(id) => id.to_string(),
            None => String::new(),
        },
        None => String::new(),
    };
    Some(Route::new(pubkey, id.as_str()).text())
}

/// Whether `me` may acknowledge this key: a message's key begins with its recipient and a NUL.
pub fn may_ack(me: &str, ack: &str) -> (r: bool)
    ensures
        r == me@.push('\0').is_prefix_of(ack@),
{
    let mut own = me.to_string();
    push_char(&mut own, '\0');
    starts_with(ack, own.as_str())
}

/// The recipient and the payload that a request to send writes.
pub open spec fn send_of(b: Seq<u8>) -> Option<(Seq<char>, JsonTree)> {
    match (text_field(b, "to"@, 0, 2), value_field(b, "payload"@, 1, 2)) {
        (Some(to), Some(payload)) => if is_one_record(b) {
            Some((to, payload))
        } else {
            None
        },
        _ => None,
    }
}

/// Reads a request to send: its recipient and its payload.
pub fn read_send(body: &[u8]) -> (r: Option<(String, Json)>)
    ensures
        match r {
            Some((to, payload)) => send_of(body@) == Some((to@, payload.tree()))
                && payload.tree().wf(),
            None => send_of(body@) is None,
        },
{
    match read_one_record(body) {
        Some(record) => match (
            record.text(body, "to", 0, 2),
            record.value(body, "payload", 1, 2),
        ) {
            (Some(to), Some(payload)) => Some((to, payload)),
            _ => None,
        },
        None => None,
    }
}

/// The receiver and the key that a request to acknowledge writes.
pub open spec fn ack_of(b: Seq<u8>) -> Option<(Seq<char>, Seq<char>)> {
    match (text_field(b, "me"@, 0, 2), text_field(b, "ack"@, 1, 2)) {
        (Some(me), Some(ack)) => if is_one_record(b) {
            Some((me, ack))
        } else {
            None
        },
        _ => None,
    }
}

/// Reads a request to acknowledge: its receiver and its key.
pub fn read_ack(body: &[u8]) -> (r: Option<(String, String)>)
    ensures
        match r {
            Some((me, ack)) => ack_of(body@) == Some((me@, ack@)),
            None => ack_of(body@) is None,
        },
{
    match read_one_record(body) {
        Some(record) => match (record.text(body, "me", 0, 2), record.text(body, "ack", 1, 2)) {
            (Some(me), Some(ack)) => Some((me, ack)),
            _ => None,
        },
        None => None,
    }
}

/// How a request to acknowledge ended.
#[derive(Debug)]
pub enum AckReply {
    /// The key is not one of the receiver's.
    Forbidden,
    Done,
    Failed(StoreError),
}

impl Broker {
    /// Acknowledges a message for `me`, who may acknowledge only its own.
    pub fn ack_for(&mut self, me: &str, ack: &str) -> (r: AckReply)
        requires
            old(self).wf(),
        ensures
            final(self).wf(),
            final(self).queues().file() == old(self).queues().file(),
            final(self).limit() == old(self).limit(),
            final(self).notices() == old(self).notices(),
            r is Forbidden <==> !me@.push('\0').is_prefix_of(ack@),
            r is Forbidden ==> final(self).queues() == old(self).queues(),
            r is Done ==> {
                &&& final(self).queues().messages() == old(self).queues().messages().remove(ack@)
                &&& final(self).queues().next_seq() == old(self).queues().next_seq()
                &&& final(self).queues().same_log(&old(self).queues())
            },
            r matches AckReply::Failed(e) ==> e is Database,
    {
        if !may_ack(me, ack) {
            return AckReply::Forbidden;
        }
        match self.ack(ack) {
            Ok(()) => AckReply::Done,
            Err(e) => AckReply::Failed(e),
        }
    }

    /// Puts an announcement on the board under its own roster key. Says whether it has one.
    pub fn announce_body(&mut self, body: Json, now: u64) -> (r: bool)
        requires
            old(self).wf(),
            body.tree().wf(),
        ensures
            final(self).wf(),
            final(self).queues() == old(self).queues(),
            final(self).limit() == old(self).limit(),
            r == (announcement_key(body.tree()) is Some),
            match announcement_key(body.tree()) {
                Some(key) => is_announced(
                    old(self).notices(),
                    key,
                    body.tree(),
                    now,
                    final(self).notices(),
                ),
                None => final(self).notices() == old(self).notices(),
            },
    {
        match roster_key(&body) {
            Some(key) => {
                self.announce(key, body, now);
                true
            },
            None => false,
        }
    }

    /// Takes the announcement with this one's roster key off the board. Says whether it has one.
    pub fn unregister_body(&mut self, body: &Json) -> (r: bool)
        requires
            old(self).wf(),
        ensures
            final(self).wf(),
            final(self).queues() == old(self).queues(),
            final(self).limit() == old(self).limit(),
            r == (announcement_key(body.tree()) is Some),
            final(self).notices() == match announcement_key(body.tree()) {
                Some(key) => old(self).notices().remove(key),
                None => old(self).notices(),
            },
    {
        match roster_key(body) {
            Some(key) => {
                self.unregister(key.as_str());
                true
            },
            None => false,
        }
    }
}

/// The JSON object that hands a message to its receiver.
pub open spec fn message_reply_tree(payload: JsonTree, ts: u64, ack: Seq<char>) -> JsonTree {
    empty_object().with("status"@, JsonTree::Text("message"@)).with(
        "envelope"@,
        envelope_tree(payload, ts),
    ).with("ack"@, JsonTree::Text(ack))
}

/// The JSON object that says how a receive ended without a message.
pub open spec fn status_tree(status: Seq<char>) -> JsonTree {
    empty_object().with("status"@, JsonTree::Text(status))
}

/// The answer that hands a message to its receiver.
pub fn message_reply(envelope: Envelope, ack: &str) -> (r: Json)
    requires
        envelope.payload.tree().wf(),
    ensures
        r.tree() == message_reply_tree(envelope.payload.tree(), envelope.ts, ack@),
        r.tree().wf(),
{
    Json::object().with("status", Json::text("message")).with("envelope", envelope.to_json()).with(
        "ack",
        Json::text(ack),
    )
}

/// The answer that says how a receive ended without a message: `timeout` or `error`.
pub fn status_reply(status: &str) -> (r: Json)
    ensures
        r.tree() == status_tree(status@),
        r.tree().wf(),
{
    Json::object().with("status", Json::text(status))
}

/// The JSON values of a list.
pub open spec fn trees(v: Seq<Json>) -> Seq<JsonTree> {
    v.map_values(|j: Json| j.tree())
}

/// The answer that lists the roster.
pub fn roster_reply(roster: Vec<Json>) -> (r: Json)
    requires
        forall|i: int| 0 <= i < roster@.len() ==> (#[trigger] roster@[i]).tree().wf(),
    ensures
        r.tree() == empty_object().with("roster"@, JsonTree::Array(trees(roster@))),
        r.tree().wf(),
{
    let ghost kids = trees(roster@);
    let list = Json::Array(roster);
    assert(list.tree()->Array_0 =~= kids);
    assert forall|i: int| 0 <= i < kids.len() implies (#[trigger] kids[i]).wf() by {
        assert(roster@[i].tree().wf());
    }
    Json::object().with("roster", list)
}

/// The age is the time since the arrival, and nothing where the clock went back; what arrived less
/// than three days ago is kept.
pub proof fn kept_for_three_days(at: u64, now: u64)
    ensures
        now >= at ==> at + age_of(at, now) == now,
        now < at ==> age_of(at, now) == 0,
        is_retained(at, now) <==> now < at + 3 * 24 * 60 * 60 * 1000,
{
}

/// What an announcement puts on the board and what it takes from it: itself, under its key, from
/// now on; those that are three days old leave; and only where the board is full for a new key
/// does one more leave, of which no other that stays is older.
pub proof fn announcing_evicts_the_oldest_only(
    b: Map<Seq<char>, (JsonTree, u64)>,
    key: Seq<char>,
    announcement: JsonTree,
    now: u64,
    after: Map<Seq<char>, (JsonTree, u64)>,
    gone: Seq<char>,
    other: Seq<char>,
)
    requires
        is_announced(b, key, announcement, now, after),
    ensures
        after.contains_key(key),
        after[key] == (announcement, now),
        after.contains_key(other) && other != key ==> b.contains_key(other) && after[other]
            == b[other] && now < b[other].1 + 3 * 24 * 60 * 60 * 1000,
        gone != key && b.contains_key(gone) && now < b[gone].1 + 3 * 24 * 60 * 60 * 1000
            && !after.contains_key(gone) ==> {
            &&& unexpired(b, now).dom().len() >= 4096
            &&& !unexpired(b, now).contains_key(key)
            &&& b.contains_key(other) && now < b[other].1 + 3 * 24 * 60 * 60 * 1000
                ==> b[gone].1 <= b[other].1
            &&& other != gone && other != key && b.contains_key(other) && now < b[other].1 + 3 * 24
                * 60 * 60 * 1000 ==> after.contains_key(other)
        },
{
    let kept = unexpired(b, now);
    assert(b.contains_key(other) && is_retained(b[other].1, now) ==> kept.contains_key(other));
    assert(b.contains_key(gone) && is_retained(b[gone].1, now) ==> kept.contains_key(gone));
    if lacks_place(kept, key) {
        let oldest = choose|oldest: Seq<char>| #[trigger]
            is_oldest(kept, oldest) && after == kept.remove(oldest).insert(key, (announcement, now));
        assert(is_oldest(kept, oldest));
    }
}

/// What is left of the board is what arrived less than three days ago, as it was.
pub proof fn unexpired_is_what_is_young(
    b: Map<Seq<char>, (JsonTree, u64)>,
    now: u64,
    key: Seq<char>,
)
    ensures
        unexpired(b, now).contains_key(key) <==> b.contains_key(key) && now < b[key].1 + 3 * 24 * 60
            * 60 * 1000,
        unexpired(b, now).contains_key(key) ==> unexpired(b, now)[key] == b[key],
{
}

/// The roster lists every announcement that arrived less than three days ago, with its age and
/// otherwise as it came, and lists nothing else.
pub proof fn roster_lists_what_is_young(
    b: Map<Seq<char>, (JsonTree, u64)>,
    now: u64,
    keys: Seq<Seq<char>>,
    roster: Seq<Json>,
    key: Seq<char>,
    i: int,
)
    requires
        is_roster(b, now, keys, roster),
    ensures
        b.contains_key(key) && now < b[key].1 + 3 * 24 * 60 * 60 * 1000 ==> exists|k: int|
            0 <= k < roster.len() && (#[trigger] roster[k]).tree() == b[key].0.with(
                "age_ms"@,
                JsonTree::Whole(age_of(b[key].1, now)),
            ),
        0 <= i < roster.len() ==> exists|k: Seq<char>| #[trigger]
            b.contains_key(k) && now < b[k].1 + 3 * 24 * 60 * 60 * 1000 && roster[i].tree()
                == b[k].0.with("age_ms"@, JsonTree::Whole(age_of(b[k].1, now))),
{
    if b.contains_key(key) && is_retained(b[key].1, now) {
        assert(keys.contains(key));
        let k = choose|k: int| 0 <= k < keys.len() && keys[k] == key;
        assert(roster[k].tree() == stamped(b[keys[k]].0, age_of(b[keys[k]].1, now)));
    }
    if 0 <= i < roster.len() {
        let k = keys[i];
        assert(keys.contains(k));
        assert(roster[i].tree() == stamped(b[k].0, age_of(b[k].1, now)));
        assert(b.contains_key(k));
    }
}

/// Dropping a recipient's oldest messages changes no other recipient's queue.
pub proof fn dropping_leaves_other_queues(
    table: Map<Seq<char>, Seq<u8>>,
    recipient: Seq<char>,
    n: nat,
    other: Seq<char>,
)
    requires
        table.dom().finite(),
        n <= queue_of(table, recipient).len(),
        crate::queue::nul_free(recipient),
        crate::queue::nul_free(other),
        other != recipient,
    ensures
        queue_of(drop_oldest(table, recipient, n), other) == queue_of(table, other),
    decreases n,
{
    if n > 0 {
        let q = queue_of(table, recipient);
        ack_removes_one(table, recipient, 0);
        crate::queue::entry_is_of_one_queue(table, recipient, 0, other);
        dropping_leaves_other_queues(table.remove(q[0].0), recipient, (n - 1) as nat, other);
    }
}

/// However many messages wait, the newest of them stay up to the bound, and no more; nothing is
/// dropped while they are within it.
pub proof fn queue_is_cut_to_its_bound(
    table: Map<Seq<char>, Seq<u8>>,
    recipient: Seq<char>,
    cap: nat,
)
    requires
        table.dom().finite(),
    ensures
        ({
            let q = queue_of(table, recipient);
            let after = queue_of(
                drop_oldest(table, recipient, excess(q.len(), cap)),
                recipient,
            );
            &&& after.is_suffix_of(q)
            &&& after.len() == if q.len() < cap {
                q.len()
            } else {
                cap
            }
        }),
{
    let q = queue_of(table, recipient);
    dropping_keeps_the_newest(table, recipient, excess(q.len(), cap));
    let n = excess(q.len(), cap) as int;
    assert(q.subrange(n, q.len() as int) =~= q.skip(n));
}

/// The roster key of an announcement is its key with its session behind a `#`; without a session
/// the bare key; and without a key there is none.
pub proof fn roster_key_is_key_and_session(t: JsonTree)
    ensures
        announcement_key(t) is None <==> t.get_text("pubkey"@) is None,
        t.get_text("pubkey"@) matches Some(key) ==> match t.get("session"@) {
            Some(session) => match session.get_text("session_id"@) {
                Some(id) => announcement_key(t) == Some(
                    if id.len() == 0 {
                        key
                    } else {
                        key + seq!['#'] + id
                    },
                ),
                None => announcement_key(t) == Some(key),
            },
            None => announcement_key(t) == Some(key),
        },
{
    if let Some(key) = t.get_text("pubkey"@) {
        crate::route::route_is_written(key, Seq::empty());
        if let Some(session) = t.get("session"@) {
            if let Some(id) = session.get_text("session_id"@) {
                crate::route::route_is_written(key, id);
            }
        }
    }
}

/// A request to send is read as it was meant, whatever its payload.
pub proof fn any_payload_is_taken(written: Seq<u8>, to: Seq<char>, payload: JsonTree)
    requires
        payload.wf(),
        payload.nested(126),
        spells_alone(
            written,
            empty_object().with("to"@, JsonTree::Text(to)).with("payload"@, payload),
        ),
    ensures
        send_of(written) == Some((to, payload)),
{
    reveal_strlit("to");
    reveal_strlit("payload");
    assert("to"@.len() == 2 && "payload"@.len() == 7);
    empty_object_is(1);
    let t = empty_object().with("to"@, JsonTree::Text(to));
    with_sets(empty_object(), "to"@, JsonTree::Text(to));
    with_sets(t, "payload"@, payload);
    let s = t.with("payload"@, payload);
    assert(s.get("to"@) == Some(JsonTree::Text(to)));
    assert(s.get("payload"@) == Some(payload));
    crate::record::written_field_is_found(written, s, "to"@, 0, 2);
    crate::record::written_field_is_found(written, s, "payload"@, 1, 2);
}

/// A request, and what is stored, is taken if and only if it is one record with each of its two
/// fields, which then are what is read.
pub proof fn requests_are_records_of_two(b: Seq<u8>)
    ensures
        send_of(b) is Some <==> is_one_record(b) && text_field(b, "to"@, 0, 2) is Some
            && value_field(b, "payload"@, 1, 2) is Some,
        send_of(b) matches Some((to, payload)) ==> text_field(b, "to"@, 0, 2) == Some(to)
            && value_field(b, "payload"@, 1, 2) == Some(payload),
        ack_of(b) is Some <==> is_one_record(b) && text_field(b, "me"@, 0, 2) is Some && text_field(
            b,
            "ack"@,
            1,
            2,
        ) is Some,
        ack_of(b) matches Some((me, ack)) ==> text_field(b, "me"@, 0, 2) == Some(me) && text_field(
            b,
            "ack"@,
            1,
            2,
        ) == Some(ack),
        envelope_of_bytes(b) matches Some((payload, ts)) ==> is_one_record(b) && value_field(
            b,
            "payload"@,
            0,
            2,
        ) == Some(payload) && value_field(b, "ts"@, 1, 2) == Some(JsonTree::Whole(ts)),
{
}

} // verus!
