//! The messages that an agent has still to hand to the bus, and its record of the conversations.
//!
//! A message leaves the outbox when a relay has accepted it. Until then it stays at its place, so
//! nothing is lost while the bus cannot be reached.
use crate::codec::{
    empty_object_is, is_record, is_record_of, member, member_of, message_of, message_round_trips,
    message_tree, text_member, text_of, with_sets,
};
use crate::identity::{MessageView, SignedMessage};
use crate::json::{
    empty_object, parsed_json, plain_at_greater_depth, rendered_json, with_is_plain, Json,
    JsonTree,
};
use crate::queue::{
    ack_removes_one, enqueue_goes_to_the_back, keyed_below, message_key, nul_free,
};
use crate::store::{
    byte_pairs, history, index_with, logged, recent, record_bytes, record_views, Dir, LogRecord,
    RecordView, Store, StoreError,
};
use crate::text::{decimal_text, join, joined, push_decimal, texts};
use vstd::prelude::*;
use vstd::utf8::encode_utf8;

verus! {

/// The name of the queue that holds the outgoing messages. No recipient has it: a key is longer.
pub const OUTBOX: &'static str = "outbox";

/// How many messages a history shows where it is not said.
pub const HISTORY_DEFAULT: usize = 20;

/// A message on its way to the bus.
#[derive(Debug, Clone, PartialEq, Eq)]
pub struct OutboundJob {
    pub to_key: String,
    pub peer: String,
    pub msg_id: String,
    pub msg: SignedMessage,
}

/// The contents of a job.
pub struct JobView {
    pub to_key: Seq<char>,
    pub peer: Seq<char>,
    pub msg_id: Seq<char>,
    pub msg: MessageView,
}

impl View for OutboundJob {
    type V = JobView;

    open spec fn view(&self) -> JobView {
        JobView {
            to_key: self.to_key@,
            peer: self.peer@,
            msg_id: self.msg_id@,
            msg: self.msg@,
        }
    }
}

/// The JSON object for a job.
pub open spec fn job_tree(j: JobView) -> JsonTree {
    empty_object().with("to_key"@, JsonTree::Text(j.to_key)).with(
        "peer"@,
        JsonTree::Text(j.peer),
    ).with("msg_id"@, JsonTree::Text(j.msg_id)).with("msg"@, message_tree(j.msg))
}

/// The message of a job.
pub open spec fn job_message(t: JsonTree) -> Option<MessageView> {
    match member(t, "msg"@, 3) {
        Some(v) => message_of(v),
        None => None,
    }
}

/// The job that a JSON value writes.
pub open spec fn job_of(t: JsonTree) -> Option<JobView> {
    if is_record(t, 4) && text_member(t, "to_key"@, 0) is Some && text_member(t, "peer"@, 1)
        is Some && text_member(t, "msg_id"@, 2) is Some && job_message(t) is Some {
        Some(
            JobView {
                to_key: text_member(t, "to_key"@, 0)->0,
                peer: text_member(t, "peer"@, 1)->0,
                msg_id: text_member(t, "msg_id"@, 2)->0,
                msg: job_message(t)->0,
            },
        )
    } else {
        None
    }
}

/// The bytes that are queued for a job.
pub open spec fn job_bytes(j: JobView) -> Seq<u8> {
    encode_utf8(rendered_json(job_tree(j)))
}

/// The job that queued bytes write.
pub open spec fn job_of_bytes(bytes: Seq<u8>) -> Option<JobView> {
    match parsed_json(bytes) {
        Some(t) => job_of(t),
        None => None,
    }
}

/// What is queued for a job reads as that job.
pub proof fn job_round_trips(j: JobView)
    ensures
        job_of(job_tree(j)) == Some(j),
        job_tree(j).plain(127),
{
    reveal_strlit("to_key");
    reveal_strlit("peer");
    reveal_strlit("msg_id");
    reveal_strlit("msg");
    assert("to_key"@[0] == 't' && "msg_id"@[0] == 'm');
    assert("to_key"@.len() == 6 && "peer"@.len() == 4 && "msg_id"@.len() == 6 && "msg"@.len() == 3);
    empty_object_is(127);
    message_round_trips(j.msg);
    plain_at_greater_depth(message_tree(j.msg), 2, 126);
    let t0 = empty_object();
    let t1 = t0.with("to_key"@, JsonTree::Text(j.to_key));
    with_sets(t0, "to_key"@, JsonTree::Text(j.to_key));
    with_is_plain(t0, "to_key"@, JsonTree::Text(j.to_key), 127);
    let t2 = t1.with("peer"@, JsonTree::Text(j.peer));
    with_sets(t1, "peer"@, JsonTree::Text(j.peer));
    with_is_plain(t1, "peer"@, JsonTree::Text(j.peer), 127);
    let t3 = t2.with("msg_id"@, JsonTree::Text(j.msg_id));
    with_sets(t2, "msg_id"@, JsonTree::Text(j.msg_id));
    with_is_plain(t2, "msg_id"@, JsonTree::Text(j.msg_id), 127);
    let t4 = t3.with("msg"@, message_tree(j.msg));
    with_sets(t3, "msg"@, message_tree(j.msg));
    with_is_plain(t3, "msg"@, message_tree(j.msg), 127);
    assert(t4.get("to_key"@) == Some(JsonTree::Text(j.to_key)));
    assert(t4.get("peer"@) == Some(JsonTree::Text(j.peer)));
    assert(t4.get("msg_id"@) == Some(JsonTree::Text(j.msg_id)));
    assert(t4.get("msg"@) == Some(message_tree(j.msg)));
}

impl OutboundJob {
    /// Reads a job from its JSON form.
    pub fn from_json(j: &Json) -> (r: Option<OutboundJob>)
        ensures
            match r {
                Some(job) => job_of(j.tree()) == Some(job@),
                None => job_of(j.tree()) is None,
            },
    {
        if !is_record_of(j, 4) {
            return None;
        }
        let to_key = match text_of(j, "to_key", 0) {
            Some(v) => v,
            None => return None,
        };
        let peer = match text_of(j, "peer", 1) {
            Some(v) => v,
            None => return None,
        };
        let msg_id = match text_of(j, "msg_id", 2) {
            Some(v) => v,
            None => return None,
        };
        match member_of(j, "msg", 3) {
            Some(v) => match SignedMessage::from_json(v) {
                Some(msg) => Some(OutboundJob { to_key, peer, msg_id, msg }),
                None => None,
            },
            None => None,
        }
    }

    /// The job's JSON form.
    pub fn to_json(&self) -> (r: Json)
        ensures
            r.tree() == job_tree(self@),
            r.tree().wf(),
            r.tree().plain(127),
    {
        proof {
            job_round_trips(self@);
        }
        Json::object().with("to_key", Json::Text(self.to_key.clone())).with(
            "peer",
            Json::Text(self.peer.clone()),
        ).with("msg_id", Json::Text(self.msg_id.clone())).with("msg", self.msg.to_json())
    }

    fn to_bytes(&self) -> (r: Vec<u8>)
        ensures
            r@ == job_bytes(self@),
            job_of_bytes(r@) == Some(self@),
    {
        proof {
            job_round_trips(self@);
        }
        let text = self.to_json().to_text();
        let mut out: Vec<u8> = Vec::new();
        crate::wire::push_bytes(&mut out, text.as_str().as_bytes());
        assert(out@ =~= encode_utf8(text@));
        out
    }

    fn from_bytes(bytes: &Vec<u8>) -> (r: Option<OutboundJob>)
        ensures
            match r {
                Some(job) => job_of_bytes(bytes@) == Some(job@),
                None => job_of_bytes(bytes@) is None,
            },
    {
        match Json::parse_bytes(bytes.as_slice()) {
            Some(j) => OutboundJob::from_json(&j),
            None => None,
        }
    }
}

/// What is asked of a relay for a job.
pub open spec fn send_tree(to_key: Seq<char>, msg: MessageView) -> JsonTree {
    empty_object().with("to"@, JsonTree::Text(to_key)).with("payload"@, message_tree(msg))
}

/// What is asked of a relay to deliver a message.
pub fn send_body(to_key: &str, msg: &SignedMessage) -> (r: Json)
    ensures
        r.tree() == send_tree(to_key@, msg@),
        r.tree().wf(),
        r.tree().plain(127),
{
    proof {
        empty_object_is(127);
        message_round_trips(msg@);
        plain_at_greater_depth(message_tree(msg@), 2, 126);
        let t = empty_object().with("to"@, JsonTree::Text(to_key@));
        with_is_plain(empty_object(), "to"@, JsonTree::Text(to_key@), 127);
        with_is_plain(t, "payload"@, message_tree(msg@), 127);
    }
    Json::object().with("to", Json::text(to_key)).with("payload", msg.to_json())
}

/// How a message that was offered to every relay fared.
#[derive(Debug, Clone, Copy, PartialEq, Eq, Structural)]
pub enum Delivery {
    /// At least one relay accepted it; the recipient drops further copies.
    Accepted,
    /// Every relay refused it or could not be reached.
    Refused,
    /// There is no relay.
    NoRelays,
}

/// How a message fared, given which relays accepted it.
pub fn delivery(accepted: &Vec<bool>) -> (r: Delivery)
    ensures
        r == Delivery::NoRelays <==> accepted@.len() == 0,
        r == Delivery::Accepted <==> accepted@.contains(true),
{
    let mut i: usize = 0;
    while i < accepted.len()
        invariant
            i <= accepted@.len(),
            forall|j: int| 0 <= j < i ==> !accepted@[j],
        decreases accepted@.len() - i,
    {
        if accepted[i] {
            assert(accepted@[i as int]);
            return Delivery::Accepted;
        }
        i += 1;
    }
    if accepted.len() == 0 {
        Delivery::NoRelays
    } else {
        Delivery::Refused
    }
}

/// The log record of a message that is being sent.
pub open spec fn outbound_record(peer: Seq<char>, text: Seq<char>, msg: MessageView) -> RecordView {
    RecordView {
        msg_id: msg.msg_id,
        dir: Dir::Out,
        peer,
        text: Some(text),
        ts: msg.ts,
        state: "pending"@,
    }
}

/// The log record of a message that was received.
pub open spec fn inbound_record(
    msg_id: Seq<char>,
    peer: Seq<char>,
    text: Seq<char>,
    now: u64,
) -> RecordView {
    RecordView { msg_id, dir: Dir::In, peer, text: Some(text), ts: now, state: "received"@ }
}

/// The log with a record in it.
pub open spec fn log_with(before: Store, after: Store, r: RecordView) -> bool {
    &&& after.log() == before.log().insert(r.msg_id, record_bytes(r))
    &&& after.index() == index_with(before.log(), before.index(), r)
    &&& logged(after.log(), r.msg_id) == Some(Some(r))
}

/// One log line: the direction, the peer, the state, then the text.
pub open spec fn record_line(r: RecordView) -> Seq<char> {
    (match r.dir {
        Dir::Out => "→"@,
        Dir::In => "←"@,
    }) + " "@ + r.peer + " ["@ + r.state + "] (msg_id "@ + r.msg_id + "): "@ + match r.text {
        Some(text) => text,
        None => "[scoped body withheld]"@,
    }
}

/// One log line for a record.
pub fn render_record(r: &LogRecord) -> (s: String)
    ensures
        s@ == record_line(r@),
{
    let mut out = match r.dir {
        Dir::Out => "→".to_string(),
        Dir::In => "←".to_string(),
    };
    out.append(" ");
    out.append(r.peer.as_str());
    out.append(" [");
    out.append(r.state.as_str());
    out.append("] (msg_id ");
    out.append(r.msg_id.as_str());
    out.append("): ");
    match &r.text {
        Some(text) => {
            out.append(text.as_str());
        },
        None => {
            out.append("[scoped body withheld]");
        },
    }
    out
}

/// The answer to a question for one message.
pub open spec fn status_text(msg_id: Seq<char>, record: Option<RecordView>) -> Seq<char> {
    match record {
        Some(r) => record_line(r),
        None => "no message with msg_id '"@ + msg_id + "' in the log"@,
    }
}

/// The answer to a question for a peer's history.
pub open spec fn history_text(peer: Seq<char>, records: Seq<RecordView>) -> Seq<char> {
    if records.len() == 0 {
        "no message history with "@ + peer
    } else {
        joined(records.map_values(|r: RecordView| record_line(r)), "\n"@)
    }
}

/// The lines of the queued jobs that can be read.
pub open spec fn pending_lines(queue: Seq<(Seq<char>, Seq<u8>)>) -> Seq<Seq<char>>
    decreases queue.len(),
{
    if queue.len() == 0 {
        Seq::empty()
    } else {
        let before = pending_lines(queue.drop_last());
        match job_of_bytes(queue.last().1) {
            Some(j) => before.push("→ "@ + j.peer + " (msg_id "@ + j.msg_id + ")"@),
            None => before,
        }
    }
}

/// The answer to a question for what is queued.
pub open spec fn pending_text(queue: Seq<(Seq<char>, Seq<u8>)>) -> Seq<char> {
    if queue.len() == 0 {
        "nothing pending; all sent messages were accepted by the bus"@
    } else {
        decimal_text(pending_lines(queue).len()) + " pending:\n"@ + joined(
            pending_lines(queue),
            "\n"@,
        )
    }
}

/// The log after a message was accepted: its record, where it has one, says that it was sent.
pub open spec fn marked_sent(log: Map<Seq<char>, Seq<u8>>, msg_id: Seq<char>) -> Map<
    Seq<char>,
    Seq<u8>,
> {
    match logged(log, msg_id) {
        Some(Some(rec)) => log.insert(msg_id, record_bytes(RecordView { state: "sent"@, ..rec })),
        _ => log,
    }
}

/// What waits in an outbox, oldest first, and the log.
#[verifier::ext_equal]
pub struct OutboxView {
    pub queue: Seq<(Seq<char>, Seq<u8>)>,
    pub log: Map<Seq<char>, Seq<u8>>,
}

/// An outbox after its oldest entry was dealt with. An entry that cannot be read leaves. A job that
/// a relay accepted leaves and is logged as sent; one that none accepted stays.
pub open spec fn outbound_step(s: OutboxView, accepted: bool) -> OutboxView {
    if s.queue.len() == 0 {
        s
    } else {
        match job_of_bytes(s.queue[0].1) {
            None => OutboxView { queue: s.queue.drop_first(), ..s },
            Some(job) => if accepted {
                OutboxView {
                    queue: s.queue.drop_first(),
                    log: marked_sent(s.log, job.msg_id),
                }
            } else {
                s
            },
        }
    }
}

/// An outbox after its oldest entry was dealt with as often as there are outcomes.
pub open spec fn outbound_run(s: OutboxView, outcomes: Seq<bool>) -> OutboxView
    decreases outcomes.len(),
{
    if outcomes.len() == 0 {
        s
    } else {
        outbound_step(outbound_run(s, outcomes.drop_last()), outcomes.last())
    }
}

/// The jobs that relays accepted, in the order in which they did.
pub open spec fn sent_jobs(s: OutboxView, outcomes: Seq<bool>) -> Seq<JobView>
    decreases outcomes.len(),
{
    if outcomes.len() == 0 {
        Seq::empty()
    } else {
        let before = sent_jobs(s, outcomes.drop_last());
        let at = outbound_run(s, outcomes.drop_last());
        if at.queue.len() > 0 && outcomes.last() {
            match job_of_bytes(at.queue[0].1) {
                Some(job) => before.push(job),
                None => before,
            }
        } else {
            before
        }
    }
}

/// The jobs among the entries, of those that can be read.
pub open spec fn readable_jobs(queue: Seq<(Seq<char>, Seq<u8>)>) -> Seq<JobView>
    decreases queue.len(),
{
    if queue.len() == 0 {
        Seq::empty()
    } else {
        let before = readable_jobs(queue.drop_last());
        match job_of_bytes(queue.last().1) {
            Some(job) => before.push(job),
            None => before,
        }
    }
}

/// The log after the jobs were accepted, one after the other.
pub open spec fn all_marked(log: Map<Seq<char>, Seq<u8>>, jobs: Seq<JobView>) -> Map<
    Seq<char>,
    Seq<u8>,
>
    decreases jobs.len(),
{
    if jobs.len() == 0 {
        log
    } else {
        marked_sent(all_marked(log, jobs.drop_last()), jobs.last().msg_id)
    }
}

/// How many entries have left the outbox.
pub open spec fn entries_gone(s: OutboxView, outcomes: Seq<bool>) -> int {
    s.queue.len() - outbound_run(s, outcomes).queue.len()
}

/// Whatever the relays answer, the jobs go out in the order in which they were queued: those that
/// have left are the oldest, those of them that can be read are just the ones that were accepted,
/// and the log says of just these, one after the other, that they were sent.
pub proof fn outbox_goes_out_in_order(s: OutboxView, outcomes: Seq<bool>)
    ensures
        0 <= entries_gone(s, outcomes) <= s.queue.len(),
        outbound_run(s, outcomes).queue == s.queue.skip(entries_gone(s, outcomes)),
        sent_jobs(s, outcomes) == readable_jobs(s.queue.take(entries_gone(s, outcomes))),
        outbound_run(s, outcomes).log == all_marked(s.log, sent_jobs(s, outcomes)),
    decreases outcomes.len(),
{
    if outcomes.len() == 0 {
        assert(s.queue.skip(0) =~= s.queue);
        assert(s.queue.take(0) =~= Seq::<(Seq<char>, Seq<u8>)>::empty());
    } else {
        let before = outcomes.drop_last();
        outbox_goes_out_in_order(s, before);
        let at = outbound_run(s, before);
        let n = entries_gone(s, before);
        if at.queue.len() > 0 {
            assert(at.queue[0] == s.queue[n]);
            assert(at.queue.drop_first() =~= s.queue.skip(n + 1));
            assert(s.queue.take(n + 1).drop_last() =~= s.queue.take(n));
            let jobs = sent_jobs(s, before);
            if let Some(job) = job_of_bytes(at.queue[0].1) {
                assert(jobs.push(job).drop_last() =~= jobs);
            }
        }
    }
}

/// A job that no relay accepts stays the oldest, and the log stays as it is; an entry that cannot
/// be read leaves whatever happens, so that it does not hold up the rest.
pub proof fn oldest_stays_until_accepted(s: OutboxView)
    requires
        s.queue.len() > 0,
    ensures
        job_of_bytes(s.queue[0].1) is Some ==> outbound_step(s, false) == s,
        job_of_bytes(s.queue[0].1) is None ==> {
            &&& outbound_step(s, false).queue == s.queue.drop_first()
            &&& outbound_step(s, true) == outbound_step(s, false)
            &&& outbound_step(s, false).log == s.log
        },
{
}

/// The log of a message that was not accepted does not change.
pub proof fn only_accepted_is_marked(s: OutboxView, outcomes: Seq<bool>, msg_id: Seq<char>)
    requires
        forall|i: int|
            0 <= i < sent_jobs(s, outcomes).len() ==> (#[trigger] sent_jobs(
                s,
                outcomes,
            )[i]).msg_id != msg_id,
    ensures
        logged(outbound_run(s, outcomes).log, msg_id) == logged(s.log, msg_id),
{
    outbox_goes_out_in_order(s, outcomes);
    marks_leave_others(s.log, sent_jobs(s, outcomes), msg_id);
}

proof fn marks_leave_others(
    log: Map<Seq<char>, Seq<u8>>,
    jobs: Seq<JobView>,
    msg_id: Seq<char>,
)
    requires
        forall|i: int| 0 <= i < jobs.len() ==> (#[trigger] jobs[i]).msg_id != msg_id,
    ensures
        logged(all_marked(log, jobs), msg_id) == logged(log, msg_id),
    decreases jobs.len(),
{
    if jobs.len() > 0 {
        let before = jobs.drop_last();
        assert forall|i: int| 0 <= i < before.len() implies (#[trigger] before[i]).msg_id
            != msg_id by {
            assert(before[i] == jobs[i]);
        }
        marks_leave_others(log, before, msg_id);
        assert(jobs[jobs.len() - 1].msg_id != msg_id);
    }
}

/// What to do next about the outbox.
#[derive(Debug, PartialEq, Eq)]
pub enum OutboundStep {
    /// Nothing is queued: wait for a message.
    Idle,
    /// What was first in the queue could not be read and was dropped, so that it does not hold up
    /// the rest.
    Dropped,
    /// Offer this job to the relays.
    Deliver { key: String, job: OutboundJob },
}

/// The oldest entry has this key, and is the job of this message.
pub open spec fn is_oldest_job(
    queue: Seq<(Seq<char>, Seq<u8>)>,
    key: Seq<char>,
    msg_id: Seq<char>,
) -> bool {
    &&& queue.len() > 0
    &&& queue[0].0 == key
    &&& job_of_bytes(queue[0].1) matches Some(job) && job.msg_id == msg_id
}

/// The outgoing messages and the conversation log.
pub struct Outbox {
    store: Store,
}

impl Outbox {
    /// The store that holds both.
    pub closed spec fn store(&self) -> Store {
        self.store
    }

    /// The queued jobs, oldest first.
    pub open spec fn queue(&self) -> Seq<(Seq<char>, Seq<u8>)> {
        self.store().queue(OUTBOX@)
    }

    /// The queued jobs and the log.
    pub open spec fn state(&self) -> OutboxView {
        OutboxView { queue: self.queue(), log: self.store().log() }
    }

    /// The store is well-formed.
    pub open spec fn wf(&self) -> bool {
        self.store().wf()
    }

    /// Every queued job has the key of a sequence number that was given out.
    pub open spec fn in_sequence(&self) -> bool {
        keyed_below(self.store().messages(), self.store().next_seq() as nat)
    }

    /// The outbox and the log in a store.
    pub fn new(store: Store) -> (r: Outbox)
        requires
            store.wf(),
        ensures
            r.wf(),
            r.store() == store,
    {
        Outbox { store }
    }

    /// Logs a message and queues it for the route `to_key`. It is logged first, so that the
    /// history shows it even where the queue then fails.
    pub fn queue_outbound(&mut self, to_key: &str, peer: &str, log_text: &str, msg: &SignedMessage)
        -> (r: Result<String, StoreError>)
        requires
            old(self).wf(),
        ensures
            final(self).wf(),
            final(self).store().file() == old(self).store().file(),
            match r {
                Ok(id) => {
                    let seq = old(self).store().next_seq();
                    let job = (JobView {
                        to_key: to_key@,
                        peer: peer@,
                        msg_id: msg@.msg_id,
                        msg: msg@,
                    });
                    &&& id@ == msg@.msg_id
                    &&& log_with(
                        old(self).store(),
                        final(self).store(),
                        outbound_record(peer@, log_text@, msg@),
                    )
                    &&& final(self).store().messages() == old(self).store().messages().insert(
                        message_key(OUTBOX@, seq as nat),
                        job_bytes(job),
                    )
                    &&& final(self).store().next_seq() == seq + 1
                    &&& job_of_bytes(job_bytes(job)) == Some(job)
                    &&& old(self).in_sequence() ==> {
                        &&& final(self).in_sequence()
                        &&& final(self).queue() == old(self).queue().push(
                            (message_key(OUTBOX@, seq as nat), job_bytes(job)),
                        )
                    }
                },
                Err(e) => {
                    &&& e !is Undecodable
                    &&& e is Exhausted ==> {
                        &&& old(self).store().next_seq() == u64::MAX
                        &&& final(self).store().same_queues(&old(self).store())
                        &&& log_with(
                            old(self).store(),
                            final(self).store(),
                            outbound_record(peer@, log_text@, msg@),
                        )
                    }
                },
            },
    {
        let job = OutboundJob {
            to_key: to_key.to_string(),
            peer: peer.to_string(),
            msg_id: msg.msg_id.clone(),
            msg: msg.copy(),
        };
        let bytes = job.to_bytes();
        let ghost queued = bytes@;
        let record = LogRecord {
            msg_id: msg.msg_id.clone(),
            dir: Dir::Out,
            peer: peer.to_string(),
            text: Some(log_text.to_string()),
            ts: msg.ts,
            state: "pending".to_string(),
        };
        match self.store.log_put(record) {
            Ok(()) => {},
            Err(e) => return Err(e),
        }
        match self.store.enqueue(OUTBOX.to_string(), bytes) {
            Ok(_) => {},
            Err(e) => return Err(e),
        }
        proof {
            if old(self).in_sequence() {
                reveal_strlit("outbox");
                assert(nul_free(OUTBOX@)) by {
                    assert(OUTBOX@ =~= seq!['o', 'u', 't', 'b', 'o', 'x']);
                }
                old(self).store.is_finite();
                enqueue_goes_to_the_back(
                    old(self).store.messages(),
                    old(self).store.next_seq(),
                    OUTBOX@,
                    queued,
                    OUTBOX@,
                );
            }
        }
        Ok(msg.msg_id.clone())
    }

    /// Records a message that was received.
    pub fn log_inbound(&mut self, msg_id: &str, peer: &str, text: &str, now: u64) -> (r: Result<
        (),
        StoreError,
    >)
        requires
            old(self).wf(),
        ensures
            final(self).wf(),
            final(self).store().file() == old(self).store().file(),
            match r {
                Ok(()) => {
                    &&& log_with(
                        old(self).store(),
                        final(self).store(),
                        inbound_record(msg_id@, peer@, text@, now),
                    )
                    &&& final(self).store().same_queues(&old(self).store())
                },
                Err(e) => e is Database,
            },
    {
        let record = LogRecord {
            msg_id: msg_id.to_string(),
            dir: Dir::In,
            peer: peer.to_string(),
            text: Some(text.to_string()),
            ts: now,
            state: "received".to_string(),
        };
        self.store.log_put(record)
    }

    /// The next thing to do about the outbox. A job that is to be delivered stays queued.
    pub fn next(&mut self) -> (r: Result<OutboundStep, StoreError>)
        requires
            old(self).wf(),
        ensures
            final(self).wf(),
            final(self).store().file() == old(self).store().file(),
            match r {
                Ok(OutboundStep::Idle) => {
                    &&& old(self).queue().len() == 0
                    &&& final(self).store() == old(self).store()
                },
                Ok(OutboundStep::Deliver { key, job }) => {
                    &&& old(self).queue().len() > 0
                    &&& old(self).queue()[0].0 == key@
                    &&& job_of_bytes(old(self).queue()[0].1) == Some(job@)
                    &&& final(self).store() == old(self).store()
                },
                Ok(OutboundStep::Dropped) => {
                    &&& old(self).queue().len() > 0
                    &&& job_of_bytes(old(self).queue()[0].1) is None
                    &&& final(self).queue() == old(self).queue().drop_first()
                    &&& final(self).store().messages() == old(self).store().messages().remove(
                        old(self).queue()[0].0,
                    )
                    &&& final(self).store().next_seq() == old(self).store().next_seq()
                    &&& final(self).store().same_log(&old(self).store())
                    &&& final(self).state() == outbound_step(old(self).state(), false)
                },
                Err(e) => e is Database,
            },
    {
        let (key, bytes) = match self.store.peek_oldest(OUTBOX.to_string()) {
            Ok(Some(p)) => p,
            Ok(None) => return Ok(OutboundStep::Idle),
            Err(e) => return Err(e),
        };
        match OutboundJob::from_bytes(&bytes) {
            Some(job) => Ok(OutboundStep::Deliver { key, job }),
            None => {
                proof {
                    old(self).store.is_finite();
                    ack_removes_one(old(self).store.messages(), OUTBOX@, 0);
                    assert(old(self).queue().remove(0) =~= old(self).queue().drop_first());
                }
                match self.store.ack(key) {
                    Ok(()) => Ok(OutboundStep::Dropped),
                    Err(e) => Err(e),
                }
            },
        }
    }

    /// Takes a delivered job out of the queue and logs it as sent. Both are tried; the first
    /// failure is returned.
    pub fn settle(&mut self, key: String, msg_id: String) -> (r: Result<(), StoreError>)
        requires
            old(self).wf(),
        ensures
            final(self).wf(),
            final(self).store().file() == old(self).store().file(),
            match r {
                Ok(()) => {
                    &&& final(self).store().messages() == old(self).store().messages().remove(key@)
                    &&& final(self).store().next_seq() == old(self).store().next_seq()
                    &&& old(self).queue().len() > 0 && old(self).queue()[0].0 == key@
                        ==> final(self).queue() == old(self).queue().drop_first()
                    &&& final(self).store().index() == old(self).store().index()
                    &&& final(self).store().log() == marked_sent(old(self).store().log(), msg_id@)
                    &&& logged(old(self).store().log(), msg_id@) is Some
                    &&& logged(old(self).store().log(), msg_id@) matches Some(Some(rec))
                        ==> logged(final(self).store().log(), msg_id@) == Some(
                        Some(RecordView { state: "sent"@, ..rec }),
                    )
                },
                Err(e) => e !is Exhausted && (e is Undecodable ==> logged(
                    old(self).store().log(),
                    msg_id@,
                ) is None),
            },
    {
        proof {
            if old(self).queue().len() > 0 && old(self).queue()[0].0 == key@ {
                old(self).store.is_finite();
                ack_removes_one(old(self).store.messages(), OUTBOX@, 0);
                assert(old(self).queue().remove(0) =~= old(self).queue().drop_first());
            }
        }
        let acked = self.store.ack(key);
        let noted = self.store.log_set_state(msg_id, "sent".to_string());
        match acked {
            Ok(()) => noted,
            Err(e) => Err(e),
        }
    }

    /// Ends the delivery of the oldest job, given which relays accepted it: where one did, the job is
    /// settled; where none did, it stays to be offered again.
    pub fn conclude(&mut self, key: String, msg_id: String, accepted: &Vec<bool>) -> (r: Result<
        Delivery,
        StoreError,
    >)
        requires
            old(self).wf(),
        ensures
            final(self).wf(),
            final(self).store().file() == old(self).store().file(),
            match r {
                Ok(d) => {
                    &&& d == Delivery::NoRelays <==> accepted@.len() == 0
                    &&& d == Delivery::Accepted <==> accepted@.contains(true)
                    &&& d != Delivery::Accepted ==> final(self).store() == old(self).store()
                    &&& d == Delivery::Accepted ==> {
                        &&& final(self).store().messages() == old(self).store().messages().remove(
                            key@,
                        )
                        &&& final(self).store().next_seq() == old(self).store().next_seq()
                        &&& final(self).store().index() == old(self).store().index()
                        &&& final(self).store().log() == marked_sent(
                            old(self).store().log(),
                            msg_id@,
                        )
                    }
                    &&& is_oldest_job(old(self).queue(), key@, msg_id@) ==> final(self).state()
                        == outbound_step(old(self).state(), accepted@.contains(true))
                },
                Err(e) => accepted@.contains(true) && e !is Exhausted && (e is Undecodable
                    ==> logged(old(self).store().log(), msg_id@) is None),
            },
    {
        let fared = delivery(accepted);
        match fared {
            Delivery::Accepted => match self.settle(key, msg_id) {
                Ok(()) => Ok(fared),
                Err(e) => Err(e),
            },
            _ => Ok(fared),
        }
    }

    /// The delivery state of a message, in words.
    pub fn message_status(&self, msg_id: &str) -> (r: Result<String, StoreError>)
        ensures
            match r {
                Ok(text) => logged(self.store().log(), msg_id@) is Some && text@ == status_text(
                    msg_id@,
                    logged(self.store().log(), msg_id@)->0,
                ),
                Err(e) => e !is Exhausted && (e is Undecodable ==> logged(
                    self.store().log(),
                    msg_id@,
                ) is None),
            },
    {
        match self.store.log_get(msg_id.to_string()) {
            Ok(Some(rec)) => Ok(render_record(&rec)),
            Ok(None) => {
                let mut out = "no message with msg_id '".to_string();
                out.append(msg_id);
                out.append("' in the log");
                Ok(out)
            },
            Err(e) => Err(e),
        }
    }

    /// The recent messages to and from a peer, newest last.
    pub fn conversation_history(&self, peer: &str, limit: Option<u32>) -> (r: Result<
        String,
        StoreError,
    >)
        ensures
            ({
                let n: nat = match limit {
                    Some(n) => n as nat,
                    None => HISTORY_DEFAULT as nat,
                };
                let found = history(self.store().log(), recent(self.store().ids_of(peer@), n));
                match r {
                    Ok(text) => found is Some && text@ == history_text(peer@, found->0),
                    Err(e) => e !is Exhausted && (e is Undecodable ==> found is None),
                }
            }),
    {
        let n: usize = match limit {
            Some(n) => n as usize,
            None => HISTORY_DEFAULT,
        };
        let records = match self.store.log_by_peer(peer.to_string(), n) {
            Ok(v) => v,
            Err(e) => return Err(e),
        };
        let ghost all = record_views(records@);
        if records.len() == 0 {
            let mut out = "no message history with ".to_string();
            out.append(peer);
            return Ok(out);
        }
        let ghost wanted = all.map_values(|r: RecordView| record_line(r));
        let mut lines: Vec<String> = Vec::new();
        let mut i: usize = 0;
        while i < records.len()
            invariant
                i <= records@.len(),
                all == record_views(records@),
                wanted == all.map_values(|r: RecordView| record_line(r)),
                texts(lines@) == wanted.take(i as int),
            decreases records@.len() - i,
        {
            let ghost before = texts(lines@);
            let line = render_record(&records[i]);
            assert(line@ == wanted[i as int]);
            lines.push(line);
            assert(texts(lines@) =~= before.push(wanted[i as int]));
            assert(wanted.take(i + 1) =~= wanted.take(i as int).push(wanted[i as int]));
            i += 1;
        }
        assert(wanted.take(wanted.len() as int) =~= wanted);
        Ok(join(&lines, "\n"))
    }

    /// The messages that no relay has accepted yet, in words.
    pub fn list_pending(&self) -> (r: Result<String, StoreError>)
        ensures
            match r {
                Ok(text) => text@ == pending_text(self.queue()),
                Err(e) => e is Database,
            },
    {
        let queued = match self.store.list(OUTBOX.to_string()) {
            Ok(v) => v,
            Err(e) => return Err(e),
        };
        let ghost all = byte_pairs(queued@);
        if queued.len() == 0 {
            return Ok("nothing pending; all sent messages were accepted by the bus".to_string());
        }
        let mut lines: Vec<String> = Vec::new();
        let mut i: usize = 0;
        assert(all.take(0) =~= Seq::<(Seq<char>, Seq<u8>)>::empty());
        assert(texts(lines@) =~= Seq::<Seq<char>>::empty());
        while i < queued.len()
            invariant
                i <= queued@.len(),
                all == byte_pairs(queued@),
                texts(lines@) == pending_lines(all.take(i as int)),
            decreases queued@.len() - i,
        {
            let ghost before = texts(lines@);
            assert(all.take(i + 1).drop_last() =~= all.take(i as int));
            assert(all[i as int] == (queued@[i as int].0@, queued@[i as int].1@));
            match OutboundJob::from_bytes(&queued[i].1) {
                Some(job) => {
                    let mut line = "→ ".to_string();
                    line.append(job.peer.as_str());
                    line.append(" (msg_id ");
                    line.append(job.msg_id.as_str());
                    line.append(")");
                    let ghost text = line@;
                    lines.push(line);
                    assert(texts(lines@) =~= before.push(text));
                },
                None => {},
            }
            i += 1;
        }
        assert(all.take(all.len() as int) =~= all);
        assert(texts(lines@).len() == lines@.len());
        let mut out = String::new();
        push_decimal(&mut out, lines.len() as u64);
        out.append(" pending:\n");
        out.append(join(&lines, "\n").as_str());
        assert(out@ =~= pending_text(self.queue()));
        Ok(out)
    }
}

/// What is logged of a message: its id, the way that it went, its peer, the whole text, its time,
/// and that it waits or was received.
pub proof fn log_keeps_the_whole_message(
    peer: Seq<char>,
    text: Seq<char>,
    msg: MessageView,
    msg_id: Seq<char>,
    now: u64,
)
    ensures
        ({
            let r = outbound_record(peer, text, msg);
            &&& r.msg_id == msg.msg_id
            &&& r.dir is Out
            &&& r.peer == peer
            &&& r.text == Some(text)
            &&& r.ts == msg.ts
            &&& r.state == "pending"@
        }),
        ({
            let r = inbound_record(msg_id, peer, text, now);
            &&& r.msg_id == msg_id
            &&& r.dir is In
            &&& r.peer == peer
            &&& r.text == Some(text)
            &&& r.ts == now
            &&& r.state == "received"@
        }),
{
}

/// A line of the log begins with an arrow that tells what was sent from what was received, names
/// the peer, the state and the message, and ends with the whole text.
pub proof fn log_line_ends_with_the_text(r: RecordView) -> (front: Seq<char>)
    ensures
        record_line(r)[0] == if r.dir is Out {
            '→'
        } else {
            '←'
        },
        record_line(r) == front + match r.text {
            Some(text) => text,
            None => "[scoped body withheld]"@,
        },
        front.skip(1) == " "@ + r.peer + " ["@ + r.state + "] (msg_id "@ + r.msg_id + "): "@,
{
    reveal_strlit("→");
    reveal_strlit("←");
    let arrow = match r.dir {
        Dir::Out => "→"@,
        Dir::In => "←"@,
    };
    let rest = " "@ + r.peer + " ["@ + r.state + "] (msg_id "@ + r.msg_id + "): "@;
    let front = arrow + " "@ + r.peer + " ["@ + r.state + "] (msg_id "@ + r.msg_id + "): "@;
    assert(front =~= arrow + rest);
    assert(front.skip(1) =~= rest);
    front
}

/// Every record of a history has its line in the answer, and a message that is asked for has its.
pub proof fn history_tells_every_record(
    peer: Seq<char>,
    records: Seq<RecordView>,
    i: int,
    msg_id: Seq<char>,
) -> (around: (Seq<char>, Seq<char>))
    requires
        0 <= i < records.len(),
    ensures
        history_text(peer, records) == around.0 + record_line(records[i]) + around.1,
        status_text(msg_id, Some(records[i])) == record_line(records[i]),
{
    let lines = records.map_values(|r: RecordView| record_line(r));
    crate::text::part_stands_in_joined(lines, "\n"@, i)
}

/// Each queued job that can be read has its line among what is pending, in the order of the queue;
/// nothing else has.
pub proof fn pending_tells_every_job(
    queue: Seq<(Seq<char>, Seq<u8>)>,
    entry: (Seq<char>, Seq<u8>),
)
    ensures
        pending_lines(Seq::empty()).len() == 0,
        pending_lines(queue.push(entry)) == match job_of_bytes(entry.1) {
            Some(j) => pending_lines(queue).push("→ "@ + j.peer + " (msg_id "@ + j.msg_id + ")"@),
            None => pending_lines(queue),
        },
        readable_jobs(queue.push(entry)) == match job_of_bytes(entry.1) {
            Some(j) => readable_jobs(queue).push(j),
            None => readable_jobs(queue),
        },
        pending_lines(queue).len() == readable_jobs(queue).len(),
    decreases queue.len(),
{
    assert(queue.push(entry).drop_last() =~= queue);
    if queue.len() > 0 {
        pending_tells_every_job(queue.drop_last(), queue.last());
        assert(queue.drop_last().push(queue.last()) =~= queue);
    }
}

/// A job that a relay accepted leaves the queue, and only it does; the log then says that its
/// message was sent, and leaves the rest of that record and the other records as they were.
pub proof fn accepted_job_leaves_and_is_marked(s: OutboxView, other: Seq<char>)
    requires
        s.queue.len() > 0,
        job_of_bytes(s.queue[0].1) is Some,
    ensures
        outbound_step(s, true).queue == s.queue.skip(1),
        ({
            let id = job_of_bytes(s.queue[0].1)->0.msg_id;
            let log = outbound_step(s, true).log;
            &&& logged(s.log, id) matches Some(Some(r)) ==> log == s.log.insert(
                id,
                record_bytes(RecordView { state: "sent"@, ..r }),
            )
            &&& !(logged(s.log, id) is Some && logged(s.log, id)->0 is Some) ==> log == s.log
            &&& other != id ==> logged(log, other) == logged(s.log, other)
        }),
{
    assert(s.queue.drop_first() =~= s.queue.skip(1));
}

/// A record that is in the log is found there by its message's id and stands in the index under
/// its peer and its time; the other records of the log stay as they were.
pub proof fn logged_record_is_found(before: Store, after: Store, r: RecordView, other: Seq<char>)
    requires
        log_with(before, after, r),
    ensures
        logged(after.log(), r.msg_id) == Some(Some(r)),
        after.index().contains_key(crate::queue::entry_key(r.peer, r.ts as nat, r.msg_id)),
        after.index()[crate::queue::entry_key(r.peer, r.ts as nat, r.msg_id)] == r.msg_id,
        other != r.msg_id ==> logged(after.log(), other) == logged(before.log(), other),
{
}

/// The outgoing messages wait under one name, and twenty records are told unless asked otherwise.
pub proof fn outbox_is_named()
    ensures
        OUTBOX@ == "outbox"@,
        HISTORY_DEFAULT == 20,
{
}

/// What a job object says is what its fields say.
pub proof fn job_is_read_by_its_fields(t: JsonTree)
    requires
        t is Object,
    ensures
        job_of(t) matches Some(j) ==> {
            &&& t.get_text("to_key"@) == Some(j.to_key)
            &&& t.get_text("peer"@) == Some(j.peer)
            &&& t.get_text("msg_id"@) == Some(j.msg_id)
            &&& t.get("msg"@) is Some
            &&& message_of(t.get("msg"@)->0) == Some(j.msg)
        },
{
}

/// What is told where there is nothing to tell, and how many jobs are told otherwise.
pub proof fn nothing_is_told_as_such(
    msg_id: Seq<char>,
    peer: Seq<char>,
    queue: Seq<(Seq<char>, Seq<u8>)>,
)
    ensures
        status_text(msg_id, None) == "no message with msg_id '"@ + msg_id + "' in the log"@,
        history_text(peer, Seq::empty()) == "no message history with "@ + peer,
        pending_text(Seq::empty())
            == "nothing pending; all sent messages were accepted by the bus"@,
        queue.len() > 0 ==> pending_text(queue) == decimal_text(readable_jobs(queue).len())
            + " pending:\n"@ + joined(pending_lines(queue), "\n"@),
{
    if queue.len() > 0 {
        pending_tells_every_job(queue, queue[0]);
    }
}

} // verus!
