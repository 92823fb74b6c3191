//! What two agents can count on: a message that is sent is delivered, its answer comes back to the
//! session that asked, and a knock that is accepted makes both peers.
use crate::agent::{put_is_seen, sender_name, MAX_DELAY_MS, MAX_SKEW_MS};
use crate::codec::{message_of, message_round_trips, message_tree};
use crate::encoding::{b64_round_trips, b64_text, b64_text_has_no_white};
use crate::identity::{freshness, parse_id, IdentityError, MessageKind};
use crate::inbox::NoteView;
use crate::json::JsonTree;
use crate::lookup::{distinct_keys, key_value};
use crate::node::{
    after_receipt, knock_notice, loops_back, marker_after, outgoing, paired_notice,
    pairing_message, plain_note, receipt, recipient, wanted_status, with_task, NodeView,
    OutgoingView, ReceiptView, SendFault, SendView, PAIR_CAP,
};
use crate::policy::{admitted_is_found, petname_of, policy_add, unambiguous};
use crate::route::{route_of, route_round_trips, route_to};
use vstd::prelude::*;

verus! {

/// A message that an agent makes ready reads the same after its way over the bus, and is delivered
/// to a recipient that knows the sender, where its signature verifies, it is not too old and its
/// id is new. The task is legible in the content.
pub proof fn sent_is_delivered(
    a: NodeView,
    args: SendView,
    entries: Seq<JsonTree>,
    ts: u64,
    msg_id: Seq<char>,
    out: OutgoingView,
    b: NodeView,
    name: Seq<char>,
    now: u64,
)
    requires
        outgoing(a, args, entries, ts, msg_id) == Ok::<OutgoingView, SendFault>(out),
        out.msg.sender() == Ok::<Seq<u8>, IdentityError>(a.me()),
        recipient(a, args.to) == Some(b.me()),
        sender_name(b.policy, b.me(), a.me()) == Some(name),
        freshness(ts, now, MAX_SKEW_MS, MAX_DELAY_MS) is Ok,
        !b.seen.contains(msg_id),
        !loops_back(b, out.msg),
    ensures
        message_of(message_tree(out.msg)) == Some(out.msg),
        receipt(b, out.msg, now) == (ReceiptView::Delivered {
            note: NoteView {
                content: with_task(args.task_id, wanted_status(args.status)->0, args.text),
                sender: name,
                msg_id,
                task_id: args.task_id,
                status: wanted_status(args.status)->0,
                in_reply_to: args.in_reply_to,
            },
            marker: marker_after(args.task_id, wanted_status(args.status)->0, name),
        }),
{
    message_round_trips(out.msg);
    b64_round_trips(b.me());
}

/// After a delivered message its recipient answers the very session that sent it, until that
/// identity writes from another.
pub proof fn answer_returns_to_the_session(
    a: NodeView,
    args: SendView,
    entries: Seq<JsonTree>,
    ts: u64,
    msg_id: Seq<char>,
    out: OutgoingView,
    b: NodeView,
    now: u64,
)
    requires
        outgoing(a, args, entries, ts, msg_id) == Ok::<OutgoingView, SendFault>(out),
        receipt(b, out.msg, now) is Delivered,
        a.session.session_id.len() > 0,
        distinct_keys(b.sticky),
    ensures
        key_value(after_receipt(b, out.msg, now).sticky, b64_text(a.me())) == Some(
            a.session.session_id,
        ),
{
    let key = b64_text(a.me());
    b64_text_has_no_white(a.me());
    route_round_trips(key, a.session.session_id);
    assert(out.msg.reply_to == Some(a.route()));
    assert(route_of(a.route()) == route_to(key, a.session.session_id));
    put_is_seen(b.sticky, usize::MAX as nat, key, a.session.session_id);
}

/// A knock from an identity that is no peer is held under its key, and the operator is told its
/// fingerprint and the name that it claims. The allowlist does not change.
pub proof fn knock_is_held(
    a: NodeView,
    key: Seq<char>,
    session: Seq<char>,
    ts: u64,
    msg_id: Seq<char>,
    b: NodeView,
    now: u64,
)
    requires
        pairing_message(a, b.me(), key, session, MessageKind::PairRequest, ts, msg_id).msg.sender()
            == Ok::<Seq<u8>, IdentityError>(a.me()),
        a.me() != b.me(),
        petname_of(b.policy, a.me()) is None,
        freshness(ts, now, MAX_SKEW_MS, MAX_DELAY_MS) is Ok,
        !b.seen.contains(msg_id),
        distinct_keys(b.knocks),
    ensures
        ({
            let m = pairing_message(
                a,
                b.me(),
                key,
                session,
                MessageKind::PairRequest,
                ts,
                msg_id,
            ).msg;
            &&& receipt(b, m, now) == (ReceiptView::Knock {
                note: plain_note(knock_notice(b64_text(a.me()), a.name), a.name, msg_id),
            })
            &&& key_value(after_receipt(b, m, now).knocks, b64_text(a.me())) == Some(a.name)
            &&& after_receipt(b, m, now).policy == b.policy
        }),
{
    let m = pairing_message(a, b.me(), key, session, MessageKind::PairRequest, ts, msg_id).msg;
    b64_round_trips(a.me());
    b64_round_trips(b.me());
    put_is_seen(b.knocks, PAIR_CAP as nat, b64_text(a.me()), a.name);
}

/// The acceptance of a knock makes the one who was knocked a peer, under the name that the
/// operator gave, where no peer has that name.
pub proof fn accepted_knock_pairs(
    b: NodeView,
    key: Seq<char>,
    session: Seq<char>,
    ts: u64,
    msg_id: Seq<char>,
    a: NodeView,
    petname: Seq<char>,
    now: u64,
)
    requires
        pairing_message(b, a.me(), key, session, MessageKind::PairAccept, ts, msg_id).msg.sender()
            == Ok::<Seq<u8>, IdentityError>(b.me()),
        a.me() != b.me(),
        unambiguous(a.policy),
        key_value(a.requests, b64_text(b.me())) == Some(petname),
        petname_of(a.policy, b.me()) is None,
        key_value(a.policy, petname) is None,
        freshness(ts, now, MAX_SKEW_MS, MAX_DELAY_MS) is Ok,
        !a.seen.contains(msg_id),
    ensures
        ({
            let m = pairing_message(
                b,
                a.me(),
                key,
                session,
                MessageKind::PairAccept,
                ts,
                msg_id,
            ).msg;
            &&& receipt(a, m, now) == (ReceiptView::Paired {
                note: plain_note(paired_notice(petname), petname, msg_id),
            })
            &&& key_value(after_receipt(a, m, now).policy, petname) == Some(b.me())
            &&& petname_of(after_receipt(a, m, now).policy, b.me()) == Some(petname)
        }),
{
    let m = pairing_message(b, a.me(), key, session, MessageKind::PairAccept, ts, msg_id).msg;
    b64_round_trips(a.me());
    b64_round_trips(b.me());
    let from_key = b64_text(b.me());
    assert(m.from == from_key);
    assert(parse_id(from_key) == Ok::<Seq<u8>, IdentityError>(b.me()));
    let policy = policy_add(a.policy, petname, from_key)->Ok_0;
    admitted_is_found(a.policy, petname, from_key, policy, petname, b.me());
}

} // verus!
