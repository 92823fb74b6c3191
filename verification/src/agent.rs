//! The inbound filter of an agent, and the bounded tables that it keeps.
//!
//! For each message: is its signature good, is it addressed to this agent, is its sender on the
//! allowlist, is it fresh, is it new? An admitted peer's message is dispatched inline; a stranger
//! may only knock to pair.
use crate::encoding::b64_text;
use crate::identity::{
    check_freshness, freshness, opt_copy, opt_text, parse_id, AgentId, IdentityError, MessageKind,
    MessageView, SignedMessage, TaskStatus,
};
use crate::lookup::{distinct_keys, key_index, key_index_is, key_index_says, key_value};
use crate::text::{first_chars, same_text, take_chars};
use crate::policy::{petname_of, Policy};
use std::collections::VecDeque;
use vstd::hash_set::StringHashSet;
use vstd::prelude::*;

verus! {

/// Pairs of texts.
pub open spec fn text_pairs(v: Seq<(String, String)>) -> Seq<(Seq<char>, Seq<char>)> {
    v.map_values(|p: (String, String)| (p.0@, p.1@))
}

/// What `put` makes of a table: the value under a key that is there is replaced where it stands;
/// a new key goes to the back, and at capacity the oldest entry leaves for it.
pub open spec fn table_put(
    t: Seq<(Seq<char>, Seq<char>)>,
    cap: nat,
    key: Seq<char>,
    value: Seq<char>,
) -> Seq<(Seq<char>, Seq<char>)> {
    let i = key_index(t, key) as int;
    if i < t.len() {
        t.update(i, (key, value))
    } else if t.len() >= cap {
        t.drop_first().push((key, value))
    } else {
        t.push((key, value))
    }
}

/// What `take` leaves of a table.
pub open spec fn table_take(t: Seq<(Seq<char>, Seq<char>)>, key: Seq<char>) -> Seq<
    (Seq<char>, Seq<char>),
> {
    let i = key_index(t, key) as int;
    if i < t.len() {
        t.remove(i)
    } else {
        t
    }
}

/// A full key, or the eight characters that a key begins with, means that key.
pub open spec fn key_matches(key: Seq<char>, wanted: Seq<char>) -> bool {
    key == wanted || first_chars(key, 8) == wanted
}

/// The oldest entry that the text means.
pub open spec fn table_find(t: Seq<(Seq<char>, Seq<char>)>, wanted: Seq<char>) -> Option<
    (Seq<char>, Seq<char>),
>
    decreases t.len(),
{
    if t.len() == 0 {
        None
    } else if key_matches(t[0].0, wanted) {
        Some(t[0])
    } else {
        table_find(t.drop_first(), wanted)
    }
}

/// A bounded table from keys to values that forgets the oldest, for pending pairings: inbound
/// knocks (sender key to claimed name) and outbound requests (target key to chosen name). Bounded,
/// so that a flood of knocks cannot make it grow.
pub struct PairTable {
    items: Vec<(String, String)>,
    cap: usize,
}

impl PairTable {
    /// The entries, oldest first.
    pub closed spec fn view(&self) -> Seq<(Seq<char>, Seq<char>)> {
        text_pairs(self.items@)
    }

    /// How many entries the table holds at most.
    pub closed spec fn limit(&self) -> nat {
        self.cap as nat
    }

    /// No key stands twice, and the bound is kept.
    pub open spec fn wf(&self) -> bool {
        &&& distinct_keys(self@)
        &&& self@.len() <= self.limit()
        &&& self.limit() >= 1
    }

    /// An empty table for `cap` entries, at least one.
    pub fn new(cap: usize) -> (r: PairTable)
        ensures
            r.wf(),
            r@.len() == 0,
            r.limit() == if cap == 0 {
                1
            } else {
                cap as nat
            },
    {
        PairTable {
            items: Vec::new(),
            cap: if cap == 0 {
                1
            } else {
                cap
            },
        }
    }

    fn position(&self, key: &str) -> (r: usize)
        ensures
            r == key_index(self@, key@),
            r <= self.items@.len(),
    {
        let mut i: usize = 0;
        while i < self.items.len()
            invariant
                i <= self.items@.len(),
                forall|j: int| 0 <= j < i ==> (#[trigger] self@[j]).0 != key@,
            decreases self.items@.len() - i,
        {
            if same_text(self.items[i].0.as_str(), key) {
                assert(self@[i as int].0 == key@);
                proof {
                    key_index_is(self@, key@, i as int);
                }
                return i;
            }
            assert(self@[i as int].0 != key@);
            i += 1;
        }
        proof {
            key_index_is(self@, key@, i as int);
        }
        i
    }

    /// Inserts `key`, or replaces its value; at capacity the oldest entry leaves.
    pub fn put(&mut self, key: String, value: String)
        requires
            old(self).wf(),
        ensures
            final(self).wf(),
            final(self).limit() == old(self).limit(),
            final(self)@ == table_put(old(self)@, old(self).limit(), key@, value@),
    {
        let i = self.position(key.as_str());
        let ghost before = self@;
        proof {
            key_index_says(self@, key@);
        }
        if i < self.items.len() {
            let ghost k = key@;
            let ghost v = value@;
            self.items.set(i, (key, value));
            assert(self@ =~= before.update(i as int, (k, v)));
        } else {
            if self.items.len() >= self.cap {
                let _ = self.items.remove(0);
                assert(self@ =~= before.drop_first());
            }
            let ghost mid = self@;
            let ghost k = key@;
            let ghost v = value@;
            self.items.push((key, value));
            assert(self@ =~= mid.push((k, v)));
        }
    }

    /// Removes `key` and returns its value.
    pub fn take(&mut self, key: &str) -> (r: Option<String>)
        requires
            old(self).wf(),
        ensures
            final(self).wf(),
            final(self).limit() == old(self).limit(),
            final(self)@ == table_take(old(self)@, key@),
            match r {
                Some(v) => key_value(old(self)@, key@) == Some(v@),
                None => key_value(old(self)@, key@) is None,
            },
    {
        let i = self.position(key);
        let ghost before = self@;
        if i < self.items.len() {
            let (_, value) = self.items.remove(i);
            assert(self@ =~= before.remove(i as int));
            Some(value)
        } else {
            None
        }
    }

    /// The value under `key`.
    pub fn get(&self, key: &str) -> (r: Option<&String>)
        ensures
            match r {
                Some(v) => key_value(self@, key@) == Some(v@),
                None => key_value(self@, key@) is None,
            },
    {
        let i = self.position(key);
        if i < self.items.len() {
            Some(&self.items[i].1)
        } else {
            None
        }
    }

    /// The oldest entry that a full key, or the first eight characters of one, means.
    pub fn find(&self, key_or_fp: &str) -> (r: Option<(String, String)>)
        ensures
            match r {
                Some(p) => table_find(self@, key_or_fp@) == Some((p.0@, p.1@)),
                None => table_find(self@, key_or_fp@) is None,
            },
    {
        let mut i: usize = 0;
        assert(self@.skip(0) =~= self@);
        while i < self.items.len()
            invariant
                i <= self.items@.len(),
                table_find(self@, key_or_fp@) == table_find(self@.skip(i as int), key_or_fp@),
            decreases self.items@.len() - i,
        {
            let key = self.items[i].0.as_str();
            let short = take_chars(key, 8);
            assert(self@.skip(i as int)[0] == self@[i as int]);
            if same_text(key, key_or_fp) || same_text(short.as_str(), key_or_fp) {
                return Some((self.items[i].0.clone(), self.items[i].1.clone()));
            }
            assert(self@.skip(i as int).drop_first() =~= self@.skip(i + 1));
            i += 1;
        }
        None
    }

    /// The entries, oldest first.
    pub fn entries(&self) -> (r: &Vec<(String, String)>)
        ensures
            text_pairs(r@) == self@,
    {
        &self.items
    }

    /// Whether there are no entries.
    pub fn is_empty(&self) -> (r: bool)
        ensures
            r == (self@.len() == 0),
    {
        self.items.len() == 0
    }
}

/// After a `put` the key has that value.
pub proof fn put_is_seen(t: Seq<(Seq<char>, Seq<char>)>, cap: nat, key: Seq<char>, value: Seq<char>)
    requires
        distinct_keys(t),
        cap >= 1,
    ensures
        key_value(table_put(t, cap, key, value), key) == Some(value),
{
    key_index_says(t, key);
    let s = table_put(t, cap, key, value);
    let i = key_index(t, key) as int;
    if i < t.len() {
        key_index_is(s, key, i);
    } else {
        assert forall|j: int| 0 <= j < s.len() - 1 implies (#[trigger] s[j]).0 != key by {
            if t.len() >= cap {
                assert(s[j] == t[j + 1]);
            } else {
                assert(s[j] == t[j]);
            }
        }
        key_index_is(s, key, s.len() - 1);
    }
}

/// A `put` that needs no place, because there is room or the key has one, leaves the other keys as
/// they are.
pub proof fn put_leaves_others(
    t: Seq<(Seq<char>, Seq<char>)>,
    cap: nat,
    key: Seq<char>,
    value: Seq<char>,
    other: Seq<char>,
)
    requires
        distinct_keys(t),
        t.len() < cap || key_value(t, key) is Some,
        other != key,
    ensures
        key_value(table_put(t, cap, key, value), other) == key_value(t, other),
{
    key_index_says(t, key);
    key_index_says(t, other);
    let s = table_put(t, cap, key, value);
    let i = key_index(t, other) as int;
    if i < t.len() {
        assert forall|j: int| 0 <= j < i implies (#[trigger] s[j]).0 != other by {
            assert(t[j].0 != other);
        }
        assert(s[i] == t[i]);
        key_index_is(s, other, i);
    } else {
        assert forall|j: int| 0 <= j < s.len() implies (#[trigger] s[j]).0 != other by {
            if j < t.len() {
                assert(t[j].0 != other);
            }
        }
        key_index_is(s, other, s.len() as int);
    }
}

/// After a `take` the key is gone.
pub proof fn take_is_final(t: Seq<(Seq<char>, Seq<char>)>, key: Seq<char>)
    requires
        distinct_keys(t),
    ensures
        key_value(table_take(t, key), key) is None,
{
    key_index_says(t, key);
    let s = table_take(t, key);
    let i = key_index(t, key) as int;
    if i < t.len() {
        assert forall|j: int| 0 <= j < s.len() implies (#[trigger] s[j]).0 != key by {
            if j < i {
                assert(s[j] == t[j]);
            } else {
                assert(s[j] == t[j + 1]);
                assert(t[i].0 != t[j + 1].0);
            }
        }
        key_index_is(s, key, s.len() as int);
    }
}

/// What `insert` makes of the remembered ids: a known id changes nothing; a new one goes to the
/// back, and at capacity the oldest leaves for it.
pub open spec fn seen_insert(ids: Seq<Seq<char>>, cap: nat, id: Seq<char>) -> Seq<Seq<char>> {
    if ids.contains(id) {
        ids
    } else if ids.len() >= cap {
        ids.drop_first().push(id)
    } else {
        ids.push(id)
    }
}

/// A bounded set of recently seen message ids. It need only outlast the freshness window, behind
/// which a replay is refused anyway.
pub struct Dedupe {
    order: VecDeque<String>,
    seen: StringHashSet,
    cap: usize,
}

impl Dedupe {
    /// The remembered ids, oldest first.
    pub closed spec fn view(&self) -> Seq<Seq<char>> {
        self.order@.map_values(|s: String| s@)
    }

    /// How many ids are remembered at most.
    pub closed spec fn limit(&self) -> nat {
        self.cap as nat
    }

    /// No id stands twice, and the bound is kept.
    pub closed spec fn wf(&self) -> bool {
        &&& self@.no_duplicates()
        &&& self@.len() <= self.limit()
        &&& self.limit() >= 1
        &&& self.seen@ == self@.to_set()
    }

    /// An empty set for `cap` ids, at least one.
    pub fn new(cap: usize) -> (r: Dedupe)
        ensures
            r.wf(),
            r@.len() == 0,
            r.limit() == if cap == 0 {
                1
            } else {
                cap as nat
            },
    {
        let r = Dedupe {
            order: VecDeque::new(),
            seen: StringHashSet::new(),
            cap: if cap == 0 {
                1
            } else {
                cap
            },
        };
        assert(r@ =~= Seq::<Seq<char>>::empty());
        assert(r.seen@ =~= r@.to_set());
        r
    }

    /// Records `id`. Returns `false` where it was there already.
    pub fn insert(&mut self, id: &str) -> (r: bool)
        requires
            old(self).wf(),
        ensures
            final(self).wf(),
            final(self).limit() == old(self).limit(),
            final(self)@ == seen_insert(old(self)@, old(self).limit(), id@),
            r == !old(self)@.contains(id@),
    {
        let ghost before = self@;
        assert(before.to_set().contains(id@) == before.contains(id@));
        if self.seen.contains(id) {
            return false;
        }
        if self.order.len() >= self.cap {
            if let Some(oldest) = self.order.pop_front() {
                let _ = self.seen.remove(oldest.as_str());
                assert(self@ =~= before.drop_first());
                assert(oldest@ == before[0]);
                assert(self.seen@ =~= self@.to_set()) by {
                    assert forall|s: Seq<char>| self.seen@.contains(s) == self@.to_set().contains(
                        s,
                    ) by {
                        without_the_first(before, s);
                    }
                }
            }
        }
        let ghost mid = self@;
        assert(mid.no_duplicates());
        assert(!mid.contains(id@)) by {
            if mid.contains(id@) {
                assert(before.contains(id@)) by {
                    let i = choose|i: int| 0 <= i < mid.len() && mid[i] == id@;
                    assert(before.contains(mid[i]));
                }
            }
        }
        self.order.push_back(id.to_string());
        let _ = self.seen.insert(id.to_string());
        assert(self@ =~= mid.push(id@));
        assert(self.seen@ =~= self@.to_set()) by {
            assert forall|s: Seq<char>| self.seen@.contains(s) == self@.to_set().contains(s) by {
                with_a_last(mid, id@, s);
            }
        }
        true
    }
}

proof fn without_the_first(ids: Seq<Seq<char>>, s: Seq<char>)
    requires
        ids.len() > 0,
        ids.no_duplicates(),
    ensures
        ids.drop_first().to_set().contains(s) == (ids.to_set().contains(s) && s != ids[0]),
{
    let rest = ids.drop_first();
    if rest.contains(s) {
        let i = choose|i: int| 0 <= i < rest.len() && rest[i] == s;
        assert(ids[i + 1] == s);
    }
    if ids.contains(s) && s != ids[0] {
        let i = choose|i: int| 0 <= i < ids.len() && ids[i] == s;
        assert(rest[i - 1] == s);
    }
}

proof fn with_a_last(ids: Seq<Seq<char>>, id: Seq<char>, s: Seq<char>)
    ensures
        ids.push(id).to_set().contains(s) == (ids.to_set().contains(s) || s == id),
{
    let more = ids.push(id);
    if ids.contains(s) {
        let i = choose|i: int| 0 <= i < ids.len() && ids[i] == s;
        assert(more[i] == s);
    }
    assert(more[ids.len() as int] == id);
}

/// An id that was just recorded is a replay the next time.
pub proof fn inserted_is_seen(ids: Seq<Seq<char>>, cap: nat, id: Seq<char>)
    ensures
        seen_insert(ids, cap, id).contains(id),
{
    let after = seen_insert(ids, cap, id);
    if !ids.contains(id) {
        assert(after[after.len() - 1] == id);
    }
}

/// The ids after more of them were recorded, one after the other.
pub open spec fn seen_insert_all(
    ids: Seq<Seq<char>>,
    cap: nat,
    later: Seq<Seq<char>>,
) -> Seq<Seq<char>>
    decreases later.len(),
{
    if later.len() == 0 {
        ids
    } else {
        seen_insert(seen_insert_all(ids, cap, later.drop_last()), cap, later.last())
    }
}

/// An id that was recorded is remembered while fewer others than there are places are recorded
/// after it.
pub proof fn id_is_remembered(
    ids: Seq<Seq<char>>,
    cap: nat,
    id: Seq<char>,
    later: Seq<Seq<char>>,
)
    requires
        !ids.contains(id),
        later.len() < cap,
    ensures
        seen_insert_all(seen_insert(ids, cap, id), cap, later).contains(id),
{
    let i = place_after(ids, cap, id, later);
    assert(seen_insert_all(seen_insert(ids, cap, id), cap, later)[i] == id);
}

proof fn place_after(
    ids: Seq<Seq<char>>,
    cap: nat,
    id: Seq<char>,
    later: Seq<Seq<char>>,
) -> (i: int)
    requires
        !ids.contains(id),
        later.len() < cap,
    ensures
        0 <= i < seen_insert_all(seen_insert(ids, cap, id), cap, later).len(),
        seen_insert_all(seen_insert(ids, cap, id), cap, later)[i] == id,
        seen_insert_all(seen_insert(ids, cap, id), cap, later).len() - 1 - i <= later.len(),
    decreases later.len(),
{
    let first = seen_insert(ids, cap, id);
    if later.len() == 0 {
        first.len() - 1
    } else {
        let i = place_after(ids, cap, id, later.drop_last());
        let before = seen_insert_all(first, cap, later.drop_last());
        if before.contains(later.last()) || before.len() < cap {
            i
        } else {
            i - 1
        }
    }
}

/// How far a message's timestamp may be from local time.
pub const MAX_SKEW_MS: u64 = 60_000;

/// How late a message that waited on the bus may arrive: one day.
pub const MAX_DELAY_MS: u64 = 86_400_000;

/// What to do with a message that passed the filter.
#[derive(Debug, PartialEq, Eq)]
pub enum Dispatch {
    /// From a trusted peer: deliver the content now. Task metadata rides along.
    Inline {
        petname: String,
        text: String,
        task_id: Option<String>,
        status: Option<TaskStatus>,
        in_reply_to: Option<String>,
    },
    /// A stranger knocked: its key and the name that it claims, for the operator to decide.
    PairRequest { from_key: String, name: String },
    /// A stranger says that it accepted our knock, which counts only where we knocked.
    PairAccept { from_key: String, name: String },
}

/// The contents of a dispatch.
pub enum DispatchView {
    Inline {
        petname: Seq<char>,
        text: Seq<char>,
        task_id: Option<Seq<char>>,
        status: Option<TaskStatus>,
        in_reply_to: Option<Seq<char>>,
    },
    PairRequest { from_key: Seq<char>, name: Seq<char> },
    PairAccept { from_key: Seq<char>, name: Seq<char> },
}

impl View for Dispatch {
    type V = DispatchView;

    open spec fn view(&self) -> DispatchView {
        match *self {
            Dispatch::Inline { petname, text, task_id, status, in_reply_to } => {
                DispatchView::Inline {
                    petname: petname@,
                    text: text@,
                    task_id: opt_text(task_id),
                    status,
                    in_reply_to: opt_text(in_reply_to),
                }
            },
            Dispatch::PairRequest { from_key, name } => DispatchView::PairRequest {
                from_key: from_key@,
                name: name@,
            },
            Dispatch::PairAccept { from_key, name } => DispatchView::PairAccept {
                from_key: from_key@,
                name: name@,
            },
        }
    }
}

/// Why a message was dropped. None of these reaches the model.
#[derive(Debug, Clone, Copy, PartialEq, Eq, Structural)]
pub enum Reject {
    BadSignature,
    NotAllowlisted,
    WrongRecipient,
    Stale,
    Replay,
    /// A pairing kind from someone who is a peer already.
    Unexpected,
}

/// What the filter says of a message.
pub type Verdict = Result<Dispatch, Reject>;

/// The name of an admitted sender: the petname that its key is listed under. The agent's own key
/// needs no entry: whoever can sign with it is the same principal, and is called `self`.
pub open spec fn sender_name(
    policy: Seq<(Seq<char>, Seq<u8>)>,
    me: Seq<u8>,
    from: Seq<u8>,
) -> Option<Seq<char>> {
    match petname_of(policy, from) {
        Some(name) => Some(name),
        None => if from == me {
            Some("self"@)
        } else {
            None
        },
    }
}

/// What the filter says of a message before it looks for a replay: the authenticated sender and,
/// where it is admitted, its name. The signature is looked at first, then the allowlist, the
/// recipient and the time.
pub open spec fn admitted(
    m: MessageView,
    me: Seq<u8>,
    policy: Seq<(Seq<char>, Seq<u8>)>,
    now: u64,
    max_future_ms: u64,
    max_past_ms: u64,
) -> Result<(Seq<u8>, Option<Seq<char>>), Reject> {
    match m.sender() {
        Err(_) => Err(Reject::BadSignature),
        Ok(from) => if sender_name(policy, me, from) is None && m.kind == MessageKind::Message {
            Err(Reject::NotAllowlisted)
        } else if parse_id(m.to) != Ok::<Seq<u8>, IdentityError>(me) {
            Err(Reject::WrongRecipient)
        } else if freshness(m.ts, now, max_future_ms, max_past_ms) is Err {
            Err(Reject::Stale)
        } else {
            Ok((from, sender_name(policy, me, from)))
        },
    }
}

/// What a new message from this sender is dispatched as.
pub open spec fn dispatched(m: MessageView, from: Seq<u8>, name: Option<Seq<char>>) -> Result<
    DispatchView,
    Reject,
> {
    match (name, m.kind) {
        (Some(petname), MessageKind::Message) => Ok(
            DispatchView::Inline {
                petname,
                text: m.text,
                task_id: m.task_id,
                status: m.status,
                in_reply_to: m.in_reply_to,
            },
        ),
        (None, MessageKind::PairRequest) => Ok(
            DispatchView::PairRequest { from_key: b64_text(from), name: m.text },
        ),
        (None, MessageKind::PairAccept) => Ok(
            DispatchView::PairAccept { from_key: b64_text(from), name: m.text },
        ),
        _ => Err(Reject::Unexpected),
    }
}

/// What the filter says of a message, given the ids that it has seen.
pub open spec fn verdict(
    m: MessageView,
    me: Seq<u8>,
    policy: Seq<(Seq<char>, Seq<u8>)>,
    now: u64,
    max_future_ms: u64,
    max_past_ms: u64,
    seen: Seq<Seq<char>>,
) -> Result<DispatchView, Reject> {
    match admitted(m, me, policy, now, max_future_ms, max_past_ms) {
        Err(e) => Err(e),
        Ok((from, name)) => if seen.contains(m.msg_id) {
            Err(Reject::Replay)
        } else {
            dispatched(m, from, name)
        },
    }
}

/// The ids that the filter has seen after a message: a message that is refused before the search
/// for replays takes no place.
pub open spec fn seen_after(
    m: MessageView,
    me: Seq<u8>,
    policy: Seq<(Seq<char>, Seq<u8>)>,
    now: u64,
    max_future_ms: u64,
    max_past_ms: u64,
    seen: Seq<Seq<char>>,
    cap: nat,
) -> Seq<Seq<char>> {
    match admitted(m, me, policy, now, max_future_ms, max_past_ms) {
        Err(_) => seen,
        Ok(_) => seen_insert(seen, cap, m.msg_id),
    }
}

/// The view of a verdict.
pub open spec fn verdict_view(v: Result<Dispatch, Reject>) -> Result<DispatchView, Reject> {
    match v {
        Ok(d) => Ok(d@),
        Err(e) => Err(e),
    }
}

/// The inbound filter. `me` is this agent's own identity: the bus routes by key, but the signed
/// recipient is checked here again.
pub fn decide(
    msg: &SignedMessage,
    me: AgentId,
    policy: &Policy,
    now: u64,
    seen: &mut Dedupe,
) -> (r: Verdict)
    requires
        old(seen).wf(),
    ensures
        final(seen).wf(),
        final(seen).limit() == old(seen).limit(),
        verdict_view(r) == verdict(
            msg@,
            me@,
            policy@,
            now,
            MAX_SKEW_MS,
            MAX_SKEW_MS,
            old(seen)@,
        ),
        final(seen)@ == seen_after(
            msg@,
            me@,
            policy@,
            now,
            MAX_SKEW_MS,
            MAX_SKEW_MS,
            old(seen)@,
            old(seen).limit(),
        ),
{
    decide_within(msg, me, policy, now, MAX_SKEW_MS, MAX_SKEW_MS, seen)
}

/// The inbound filter, with the bounds on a message's age given.
pub fn decide_within(
    msg: &SignedMessage,
    me: AgentId,
    policy: &Policy,
    now: u64,
    max_future_ms: u64,
    max_past_ms: u64,
    seen: &mut Dedupe,
) -> (r: Verdict)
    requires
        old(seen).wf(),
    ensures
        final(seen).wf(),
        final(seen).limit() == old(seen).limit(),
        verdict_view(r) == verdict(
            msg@,
            me@,
            policy@,
            now,
            max_future_ms,
            max_past_ms,
            old(seen)@,
        ),
        final(seen)@ == seen_after(
            msg@,
            me@,
            policy@,
            now,
            max_future_ms,
            max_past_ms,
            old(seen)@,
            old(seen).limit(),
        ),
{
    // The sender is the key that the signature authenticates, never the claimed text.
    let from = match msg.verify() {
        Ok(id) => id,
        Err(_) => return Err(Reject::BadSignature),
    };
    let name: Option<String> = match policy.peer(from) {
        Some(peer) => Some(peer.petname.clone()),
        None => if from.same(&me) {
            Some("self".to_string())
        } else {
            None
        },
    };
    if name.is_none() && msg.kind == MessageKind::Message {
        return Err(Reject::NotAllowlisted);
    }
    match AgentId::from_b64(msg.to.as_str()) {
        Ok(to) => {
            if !to.same(&me) {
                return Err(Reject::WrongRecipient);
            }
        },
        Err(_) => return Err(Reject::WrongRecipient),
    }
    if check_freshness(msg.ts, now, max_future_ms, max_past_ms).is_err() {
        return Err(Reject::Stale);
    }
    if !seen.insert(msg.msg_id.as_str()) {
        return Err(Reject::Replay);
    }
    match (name, msg.kind) {
        (Some(petname), MessageKind::Message) => Ok(
            Dispatch::Inline {
                petname,
                text: msg.text.clone(),
                task_id: opt_copy(&msg.task_id),
                status: msg.status,
                in_reply_to: opt_copy(&msg.in_reply_to),
            },
        ),
        (None, MessageKind::PairRequest) => Ok(
            Dispatch::PairRequest { from_key: from.to_b64(), name: msg.text.clone() },
        ),
        (None, MessageKind::PairAccept) => Ok(
            Dispatch::PairAccept { from_key: from.to_b64(), name: msg.text.clone() },
        ),
        _ => Err(Reject::Unexpected),
    }
}

/// Content reaches the session only from a key that signed it and that is on the allowlist or is
/// the agent's own, and only where the signature names this agent as the recipient.
pub proof fn inline_is_authenticated(
    m: MessageView,
    me: Seq<u8>,
    policy: Seq<(Seq<char>, Seq<u8>)>,
    now: u64,
    max_future_ms: u64,
    max_past_ms: u64,
    seen: Seq<Seq<char>>,
)
    requires
        verdict(m, me, policy, now, max_future_ms, max_past_ms, seen) matches Ok(
            DispatchView::Inline { .. },
        ),
    ensures
        m.sender() is Ok,
        parse_id(m.to) == Ok::<Seq<u8>, IdentityError>(me),
        petname_of(policy, m.sender()->Ok_0) is Some || m.sender()->Ok_0 == me,
        freshness(m.ts, now, max_future_ms, max_past_ms) is Ok,
        !seen.contains(m.msg_id),
{
}

/// A stranger's plain message is refused and takes no place among the seen ids; all that a
/// stranger can deliver is a pairing kind.
pub proof fn stranger_can_only_knock(
    m: MessageView,
    me: Seq<u8>,
    policy: Seq<(Seq<char>, Seq<u8>)>,
    now: u64,
    max_future_ms: u64,
    max_past_ms: u64,
    seen: Seq<Seq<char>>,
    cap: nat,
)
    requires
        m.sender() is Ok,
        petname_of(policy, m.sender()->Ok_0) is None,
        m.sender()->Ok_0 != me,
    ensures
        m.kind == MessageKind::Message ==> {
            &&& verdict(m, me, policy, now, max_future_ms, max_past_ms, seen) == Err::<
                DispatchView,
                Reject,
            >(Reject::NotAllowlisted)
            &&& seen_after(m, me, policy, now, max_future_ms, max_past_ms, seen, cap) == seen
        },
        verdict(m, me, policy, now, max_future_ms, max_past_ms, seen) matches Ok(d) ==> d
            !is Inline,
{
}

/// While a message's id is remembered the message is refused, whenever it comes again and whatever
/// else has changed since; a message that the filter would otherwise let pass is refused as a
/// replay.
pub proof fn replay_is_refused(
    m: MessageView,
    me: Seq<u8>,
    policy: Seq<(Seq<char>, Seq<u8>)>,
    now: u64,
    max_future_ms: u64,
    max_past_ms: u64,
    seen: Seq<Seq<char>>,
)
    requires
        seen.contains(m.msg_id),
    ensures
        verdict(m, me, policy, now, max_future_ms, max_past_ms, seen) is Err,
        admitted(m, me, policy, now, max_future_ms, max_past_ms) is Ok ==> verdict(
            m,
            me,
            policy,
            now,
            max_future_ms,
            max_past_ms,
            seen,
        ) == Err::<DispatchView, Reject>(Reject::Replay),
{
}

/// The id of a message that was dispatched is remembered.
pub proof fn dispatched_is_remembered(
    m: MessageView,
    me: Seq<u8>,
    policy: Seq<(Seq<char>, Seq<u8>)>,
    now: u64,
    max_future_ms: u64,
    max_past_ms: u64,
    seen: Seq<Seq<char>>,
    cap: nat,
)
    requires
        verdict(m, me, policy, now, max_future_ms, max_past_ms, seen) is Ok,
    ensures
        seen_after(m, me, policy, now, max_future_ms, max_past_ms, seen, cap).contains(m.msg_id),
{
    inserted_is_seen(seen, cap, m.msg_id);
}

/// An entry is found by its full key or by the first eight characters of it, and by nothing else:
/// what is found is the oldest such entry, and nothing is found only where there is none.
pub proof fn found_entry_is_the_one_meant(t: Seq<(Seq<char>, Seq<char>)>, wanted: Seq<char>)
    ensures
        table_find(t, wanted) matches Some(p) ==> exists|i: int|
            {
                &&& 0 <= i < t.len()
                &&& #[trigger] t[i] == p
                &&& p.0 == wanted || (wanted.len() == 8 && wanted.is_prefix_of(p.0))
                &&& forall|j: int|
                    0 <= j < i ==> (#[trigger] t[j]).0 != wanted && !(wanted.len() == 8
                        && wanted.is_prefix_of(t[j].0))
            },
        table_find(t, wanted) is None <==> forall|i: int|
            0 <= i < t.len() ==> (#[trigger] t[i]).0 != wanted && !(wanted.len() == 8
                && wanted.is_prefix_of(t[i].0)),
    decreases t.len(),
{
    if t.len() > 0 {
        let key = t[0].0;
        crate::text::first_chars_begin_the_text(key, 8);
        if wanted.len() == 8 && wanted.is_prefix_of(key) {
            assert(first_chars(key, 8) =~= wanted);
        }
        let rest = t.drop_first();
        found_entry_is_the_one_meant(rest, wanted);
        assert forall|j: int| 0 < j < t.len() implies #[trigger] t[j] == rest[j - 1] by {}
        if key_matches(key, wanted) {
            assert(t[0] == t[0]);
        } else {
            if let Some(p) = table_find(rest, wanted) {
                let i = choose|i: int|
                    {
                        &&& 0 <= i < rest.len()
                        &&& #[trigger] rest[i] == p
                        &&& p.0 == wanted || (wanted.len() == 8 && wanted.is_prefix_of(p.0))
                        &&& forall|j: int|
                            0 <= j < i ==> (#[trigger] rest[j]).0 != wanted && !(wanted.len() == 8
                                && wanted.is_prefix_of(rest[j].0))
                    };
                assert(t[i + 1] == p);
            } else {
                assert forall|i: int| 0 <= i < t.len() implies (#[trigger] t[i]).0 != wanted && !(
                wanted.len() == 8 && wanted.is_prefix_of(t[i].0)) by {
                    if i > 0 {
                        assert(t[i] == rest[i - 1]);
                    }
                }
            }
        }
    }
}

/// A table that is full forgets its oldest entry for a new key, and no other; the bound is kept.
pub proof fn full_table_forgets_the_oldest_only(
    t: Seq<(Seq<char>, Seq<char>)>,
    cap: nat,
    key: Seq<char>,
    value: Seq<char>,
    other: Seq<char>,
)
    requires
        distinct_keys(t),
        t.len() == cap,
        cap >= 1,
        key_value(t, key) is None,
        other != key,
    ensures
        table_put(t, cap, key, value).len() == cap,
        other == t[0].0 ==> key_value(table_put(t, cap, key, value), other) is None,
        other != t[0].0 ==> key_value(table_put(t, cap, key, value), other) == key_value(t, other),
{
    key_index_says(t, key);
    key_index_says(t, other);
    let s = table_put(t, cap, key, value);
    let i = key_index(t, other) as int;
    assert forall|j: int| 0 <= j < s.len() - 1 implies #[trigger] s[j] == t[j + 1] by {}
    if other == t[0].0 {
        assert forall|j: int| 0 <= j < s.len() implies (#[trigger] s[j]).0 != other by {
            if j < s.len() - 1 {
                assert(s[j] == t[j + 1]);
                assert(t[0].0 != t[j + 1].0);
            }
        }
        key_index_is(s, other, s.len() as int);
    } else if i < t.len() {
        assert(i > 0) by {
            if i == 0 {
                assert(t[0].0 == other);
            }
        }
        assert forall|j: int| 0 <= j < i - 1 implies (#[trigger] s[j]).0 != other by {
            assert(s[j] == t[j + 1]);
        }
        assert(s[i - 1] == t[i]);
        key_index_is(s, other, i - 1);
    } else {
        assert forall|j: int| 0 <= j < s.len() implies (#[trigger] s[j]).0 != other by {
            if j < s.len() - 1 {
                assert(s[j] == t[j + 1]);
            }
        }
        key_index_is(s, other, s.len() as int);
    }
}

/// A new entry goes behind the others; a key that is there keeps its place. Only a full table
/// loses an entry.
pub proof fn new_entry_is_the_last(
    t: Seq<(Seq<char>, Seq<char>)>,
    cap: nat,
    key: Seq<char>,
    value: Seq<char>,
)
    ensures
        key_value(t, key) is None ==> table_put(t, cap, key, value).last() == (key, value),
        key_value(t, key) is None && t.len() < cap ==> table_put(t, cap, key, value).drop_last()
            == t,
        key_value(t, key) is Some ==> table_put(t, cap, key, value).len() == t.len() && forall|i: int|
            0 <= i < t.len() ==> (#[trigger] table_put(t, cap, key, value)[i]).0 == t[i].0,
{
    key_index_says(t, key);
    if key_value(t, key) is None && t.len() < cap {
        assert(table_put(t, cap, key, value).drop_last() =~= t);
    }
}

/// Taking a key leaves every other as it is.
pub proof fn take_leaves_others(
    t: Seq<(Seq<char>, Seq<char>)>,
    key: Seq<char>,
    other: Seq<char>,
)
    requires
        distinct_keys(t),
        other != key,
    ensures
        key_value(table_take(t, key), other) == key_value(t, other),
{
    key_index_says(t, key);
    key_index_says(t, other);
    let s = table_take(t, key);
    let k = key_index(t, key) as int;
    let i = key_index(t, other) as int;
    if k < t.len() {
        assert forall|j: int| 0 <= j < s.len() implies #[trigger] s[j] == if j < k {
            t[j]
        } else {
            t[j + 1]
        } by {}
        let at = if i >= t.len() {
            s.len() as int
        } else if i < k {
            i
        } else {
            i - 1
        };
        assert forall|j: int| 0 <= j < at implies (#[trigger] s[j]).0 != other by {
            if j < k {
                assert(s[j] == t[j]);
            } else {
                assert(s[j] == t[j + 1]);
            }
        }
        key_index_is(s, other, at);
    }
}

/// Recording an id forgets no other while there is a place; a full memory forgets the oldest, and
/// no other.
pub proof fn recording_forgets_the_oldest_only(
    ids: Seq<Seq<char>>,
    cap: nat,
    id: Seq<char>,
    other: Seq<char>,
)
    requires
        ids.no_duplicates(),
        ids.len() <= cap,
        cap >= 1,
        other != id,
    ensures
        seen_insert(ids, cap, id).len() <= cap,
        ids.contains(id) ==> seen_insert(ids, cap, id) == ids,
        ids.len() < cap ==> (seen_insert(ids, cap, id).contains(other) <==> ids.contains(other)),
        ids.len() == cap && !ids.contains(id) ==> (seen_insert(ids, cap, id).contains(other)
            <==> ids.contains(other) && other != ids[0]),
{
    with_a_last(ids, id, other);
    if ids.len() > 0 {
        without_the_first(ids, other);
        with_a_last(ids.drop_first(), id, other);
    }
}

/// A message's content is dispatched if and only if its sender's signature holds, the sender is
/// listed or is this agent, the message is addressed to this agent, it is neither too old nor too
/// far ahead, and its id is new. It is dispatched as it was signed, under the listed petname, or
/// as `self`.
pub proof fn content_is_dispatched_as_signed(
    m: MessageView,
    me: Seq<u8>,
    policy: Seq<(Seq<char>, Seq<u8>)>,
    now: u64,
    max_future_ms: u64,
    max_past_ms: u64,
    seen: Seq<Seq<char>>,
)
    ensures
        (verdict(m, me, policy, now, max_future_ms, max_past_ms, seen) matches Ok(
            DispatchView::Inline { .. },
        )) <==> {
            &&& m.kind == MessageKind::Message
            &&& m.sender() is Ok
            &&& petname_of(policy, m.sender()->Ok_0) is Some || m.sender()->Ok_0 == me
            &&& parse_id(m.to) == Ok::<Seq<u8>, IdentityError>(me)
            &&& m.ts <= now + max_future_ms
            &&& now <= m.ts + max_past_ms
            &&& !seen.contains(m.msg_id)
        },
        verdict(m, me, policy, now, max_future_ms, max_past_ms, seen) matches Ok(
            DispatchView::Inline { petname, text, task_id, status, in_reply_to },
        ) ==> {
            &&& text == m.text
            &&& task_id == m.task_id
            &&& status == m.status
            &&& in_reply_to == m.in_reply_to
            &&& petname == match petname_of(policy, m.sender()->Ok_0) {
                Some(name) => name,
                None => "self"@,
            }
        },
{
}

/// A stranger's knock, or its answer to one, is dispatched if and only if its signature holds, it
/// is addressed to this agent, it is neither too old nor too far ahead, and its id is new. It
/// carries the key that signed and the name that the stranger claims.
pub proof fn knock_is_dispatched_as_signed(
    m: MessageView,
    me: Seq<u8>,
    policy: Seq<(Seq<char>, Seq<u8>)>,
    now: u64,
    max_future_ms: u64,
    max_past_ms: u64,
    seen: Seq<Seq<char>>,
)
    ensures
        ({
            let comes = {
                &&& m.sender() is Ok
                &&& petname_of(policy, m.sender()->Ok_0) is None
                &&& m.sender()->Ok_0 != me
                &&& parse_id(m.to) == Ok::<Seq<u8>, IdentityError>(me)
                &&& m.ts <= now + max_future_ms
                &&& now <= m.ts + max_past_ms
                &&& !seen.contains(m.msg_id)
            };
            let v = verdict(m, me, policy, now, max_future_ms, max_past_ms, seen);
            &&& (v is Ok && v->Ok_0 is PairRequest) <==> comes && m.kind
                == MessageKind::PairRequest
            &&& (v is Ok && v->Ok_0 is PairAccept) <==> comes && m.kind
                == MessageKind::PairAccept
            &&& v matches Ok(DispatchView::PairRequest { from_key, name }) ==> name == m.text
                && parse_id(from_key) == m.sender()
            &&& v matches Ok(DispatchView::PairAccept { from_key, name }) ==> name == m.text
                && parse_id(from_key) == m.sender()
        }),
{
    if m.sender() is Ok {
        crate::encoding::b64_round_trips(m.sender()->Ok_0);
    }
}

/// Why a message is refused: for each reason exactly when it is given. The signature comes first,
/// then the allowlist, the recipient, the time and the id; last, that a known sender does not pair.
pub proof fn refusal_has_its_reason(
    m: MessageView,
    me: Seq<u8>,
    policy: Seq<(Seq<char>, Seq<u8>)>,
    now: u64,
    max_future_ms: u64,
    max_past_ms: u64,
    seen: Seq<Seq<char>>,
)
    ensures
        ({
            let v = verdict(m, me, policy, now, max_future_ms, max_past_ms, seen);
            let known = petname_of(policy, m.sender()->Ok_0) is Some || m.sender()->Ok_0 == me;
            let may = m.sender() is Ok && (known || m.kind != MessageKind::Message);
            let mine = parse_id(m.to) == Ok::<Seq<u8>, IdentityError>(me);
            let timely = m.ts <= now + max_future_ms && now <= m.ts + max_past_ms;
            &&& v == Err::<DispatchView, Reject>(Reject::BadSignature) <==> m.sender() is Err
            &&& v == Err::<DispatchView, Reject>(Reject::NotAllowlisted) <==> m.sender() is Ok
                && !known && m.kind == MessageKind::Message
            &&& v == Err::<DispatchView, Reject>(Reject::WrongRecipient) <==> may && !mine
            &&& v == Err::<DispatchView, Reject>(Reject::Stale) <==> may && mine && !timely
            &&& v == Err::<DispatchView, Reject>(Reject::Replay) <==> may && mine && timely
                && seen.contains(m.msg_id)
            &&& v == Err::<DispatchView, Reject>(Reject::Unexpected) <==> may && mine && timely
                && !seen.contains(m.msg_id) && known && m.kind != MessageKind::Message
        }),
{
}

/// Whatever is dispatched is neither too old nor too far ahead.
pub proof fn dispatched_is_fresh(
    m: MessageView,
    me: Seq<u8>,
    policy: Seq<(Seq<char>, Seq<u8>)>,
    now: u64,
    max_future_ms: u64,
    max_past_ms: u64,
    seen: Seq<Seq<char>>,
)
    requires
        verdict(m, me, policy, now, max_future_ms, max_past_ms, seen) is Ok,
    ensures
        now <= m.ts + max_past_ms,
        m.ts <= now + max_future_ms,
{
}

/// A message takes a place among the seen ids if and only if it is new and was refused neither for
/// its signature, its sender, its recipient nor its time.
pub proof fn only_what_is_judged_new_takes_a_place(
    m: MessageView,
    me: Seq<u8>,
    policy: Seq<(Seq<char>, Seq<u8>)>,
    now: u64,
    max_future_ms: u64,
    max_past_ms: u64,
    seen: Seq<Seq<char>>,
    cap: nat,
)
    requires
        seen.len() < cap,
    ensures
        ({
            let v = verdict(m, me, policy, now, max_future_ms, max_past_ms, seen);
            seen_after(m, me, policy, now, max_future_ms, max_past_ms, seen, cap) == if v is Ok || v
                == Err::<DispatchView, Reject>(Reject::Unexpected) {
                seen.push(m.msg_id)
            } else {
                seen
            }
        }),
{
}

/// A message may be a minute off on the direct way and, where it waited on the bus, a day late.
pub proof fn bounds_on_age_are()
    ensures
        MAX_SKEW_MS == 60 * 1000,
        MAX_DELAY_MS == 24 * 60 * 60 * 1000,
{
}

} // verus!
