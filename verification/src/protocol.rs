//! How the agents and the bus understand each other: what one side writes is what the other reads.
use crate::bus::{
    ack_of, announcement_key, envelope_tree, message_reply_tree, send_of, status_tree,
};
use crate::codec::{
    announcement_tree, empty_object_is, message_round_trips, message_tree, session_tree, with_sets,
};
use crate::identity::{signed_announcement, MessageView, SessionView};
use crate::json::{empty_object, plain_at_greater_depth, plain_is_nested, JsonTree};
use crate::node::{ack_tree, polled, unregister_tree, NodeView, PolledView};
use crate::outbox::send_tree;
use crate::queue::{first_nul_splits, message_key, nul_free};
use crate::record::{spells_alone, written_field_is_found};
use crate::roster::listed_entries;
use vstd::prelude::*;

verus! {

/// The bus reads what is written for a request to send as it was meant: the recipient, and the
/// message as it is.
pub proof fn request_to_send_is_read(written: Seq<u8>, to_key: Seq<char>, msg: MessageView)
    requires
        spells_alone(written, send_tree(to_key, msg)),
    ensures
        send_of(written) == Some((to_key, message_tree(msg))),
{
    reveal_strlit("to");
    reveal_strlit("payload");
    assert("to"@.len() == 2 && "payload"@.len() == 7);
    message_round_trips(msg);
    empty_object_is(1);
    let t = empty_object().with("to"@, JsonTree::Text(to_key));
    with_sets(empty_object(), "to"@, JsonTree::Text(to_key));
    with_sets(t, "payload"@, message_tree(msg));
    let s = send_tree(to_key, msg);
    assert(s.get("to"@) == Some(JsonTree::Text(to_key)));
    assert(s.get("payload"@) == Some(message_tree(msg)));
    plain_at_greater_depth(message_tree(msg), 2, 126);
    plain_is_nested(message_tree(msg), 126);
    written_field_is_found(written, s, "to"@, 0, 2);
    written_field_is_found(written, s, "payload"@, 1, 2);
}

/// The receiver reads a message that the bus hands over as the one that was sent, with the key
/// that acknowledges it.
pub proof fn handed_over_is_read(msg: MessageView, ts: u64, ack: Seq<char>)
    ensures
        polled(message_reply_tree(message_tree(msg), ts, ack)) == (PolledView::Message {
            ack: Some(ack),
            msg,
        }),
{
    reveal_strlit("status");
    reveal_strlit("envelope");
    reveal_strlit("ack");
    reveal_strlit("payload");
    reveal_strlit("ts");
    assert("status"@.len() == 6 && "envelope"@.len() == 8 && "ack"@.len() == 3);
    assert("payload"@.len() == 7 && "ts"@.len() == 2);
    message_round_trips(msg);
    empty_object_is(1);
    let payload = message_tree(msg);
    let e0 = empty_object().with("payload"@, payload);
    with_sets(empty_object(), "payload"@, payload);
    with_sets(e0, "ts"@, JsonTree::Whole(ts));
    let e = envelope_tree(payload, ts);
    assert(e.get("payload"@) == Some(payload));
    let word = JsonTree::Text("message"@);
    let t0 = empty_object().with("status"@, word);
    with_sets(empty_object(), "status"@, word);
    let t1 = t0.with("envelope"@, e);
    with_sets(t0, "envelope"@, e);
    with_sets(t1, "ack"@, JsonTree::Text(ack));
    let t = message_reply_tree(payload, ts, ack);
    assert(t.get("status"@) == Some(word));
    assert(t.get("envelope"@) == Some(e));
    assert(t.get("ack"@) == Some(JsonTree::Text(ack)));
}

/// An answer without a message is read as one without a message.
pub proof fn other_status_is_no_message(status: Seq<char>)
    requires
        status != "message"@,
    ensures
        polled(status_tree(status)) is Nothing,
{
    empty_object_is(1);
    with_sets(empty_object(), "status"@, JsonTree::Text(status));
    assert(status_tree(status).get("status"@) == Some(JsonTree::Text(status)));
}

/// What is written for a receiver's acknowledgement is read as it was meant, and the bus admits it
/// for the receiver's own messages.
pub proof fn receiver_may_acknowledge(written: Seq<u8>, me: Seq<char>, seq: nat)
    requires
        spells_alone(written, ack_tree(me, message_key(me, seq))),
    ensures
        ack_of(written) == Some((me, message_key(me, seq))),
        me.push('\0').is_prefix_of(message_key(me, seq)),
{
    reveal_strlit("me");
    reveal_strlit("ack");
    assert("me"@.len() == 2 && "ack"@.len() == 3);
    let ack = message_key(me, seq);
    empty_object_is(1);
    let t = empty_object().with("me"@, JsonTree::Text(me));
    with_sets(empty_object(), "me"@, JsonTree::Text(me));
    with_sets(t, "ack"@, JsonTree::Text(ack));
    let s = ack_tree(me, ack);
    assert(s.get("me"@) == Some(JsonTree::Text(me)));
    assert(s.get("ack"@) == Some(JsonTree::Text(ack)));
    written_field_is_found(written, s, "me"@, 0, 2);
    written_field_is_found(written, s, "ack"@, 1, 2);
    assert(ack.take(me.push('\0').len() as int) =~= me.push('\0'));
}

/// Nobody may acknowledge another's message.
pub proof fn others_may_not_acknowledge(me: Seq<char>, to: Seq<char>, seq: nat)
    requires
        nul_free(me),
        nul_free(to),
        me != to,
    ensures
        !me.push('\0').is_prefix_of(message_key(to, seq)),
{
    let own = me.push('\0');
    let key = message_key(to, seq);
    if own.is_prefix_of(key) {
        let rest = key.skip(own.len() as int);
        assert(key =~= own + rest);
        let tail = key.skip(to.push('\0').len() as int);
        assert(key =~= to.push('\0') + tail);
        first_nul_splits(me, rest, to, tail);
    }
}

proof fn session_is_named(session: SessionView)
    ensures
        session_tree(session).get_text("session_id"@) == Some(session.session_id),
        session_tree(session).wf(),
{
    reveal_strlit("session_id");
    reveal_strlit("cwd");
    reveal_strlit("git_root");
    reveal_strlit("summary");
    assert("session_id"@.len() == 10 && "cwd"@.len() == 3);
    assert("git_root"@.len() == 8 && "summary"@.len() == 7);
    empty_object_is(1);
    let t1 = empty_object().with("session_id"@, JsonTree::Text(session.session_id));
    with_sets(empty_object(), "session_id"@, JsonTree::Text(session.session_id));
    let t2 = t1.with("cwd"@, JsonTree::Text(session.cwd));
    with_sets(t1, "cwd"@, JsonTree::Text(session.cwd));
    let t3 = t2.with("git_root"@, JsonTree::Text(session.git_root));
    with_sets(t2, "git_root"@, JsonTree::Text(session.git_root));
    with_sets(t3, "summary"@, JsonTree::Text(session.summary));
    assert(session_tree(session).get("session_id"@) == Some(JsonTree::Text(session.session_id)));
}

/// A session announces itself and leaves under one key, which is its inbox.
pub proof fn session_leaves_as_it_came(n: NodeView, ts: u64)
    ensures
        announcement_key(
            announcement_tree(signed_announcement(n.secret, n.name, n.session, ts)),
        ) == Some(n.route()),
        announcement_key(unregister_tree(n)) == Some(n.route()),
{
    reveal_strlit("pubkey");
    reveal_strlit("name");
    reveal_strlit("session");
    reveal_strlit("ts");
    reveal_strlit("sig");
    assert("pubkey"@.len() == 6 && "name"@.len() == 4 && "session"@.len() == 7);
    assert("ts"@.len() == 2 && "sig"@.len() == 3);
    let a = signed_announcement(n.secret, n.name, n.session, ts);
    let pubkey = JsonTree::Text(a.pubkey);
    let session = session_tree(n.session);
    session_is_named(n.session);
    empty_object_is(1);
    let t1 = empty_object().with("pubkey"@, pubkey);
    with_sets(empty_object(), "pubkey"@, pubkey);
    let t2 = t1.with("name"@, JsonTree::Text(a.name));
    with_sets(t1, "name"@, JsonTree::Text(a.name));
    let t3 = t2.with("session"@, session);
    with_sets(t2, "session"@, session);
    let t4 = t3.with("ts"@, JsonTree::Whole(ts));
    with_sets(t3, "ts"@, JsonTree::Whole(ts));
    with_sets(t4, "sig"@, JsonTree::Text(a.sig));
    assert(announcement_tree(a).get("pubkey"@) == Some(pubkey));
    assert(announcement_tree(a).get("session"@) == Some(session));
    with_sets(t1, "session"@, session);
    assert(unregister_tree(n).get("pubkey"@) == Some(pubkey));
    assert(unregister_tree(n).get("session"@) == Some(session));
}

/// The entries that the bus lists are the ones that an agent reads.
pub proof fn roster_is_read_back(entries: Seq<JsonTree>)
    requires
        JsonTree::Array(entries).wf(),
    ensures
        listed_entries(empty_object().with("roster"@, JsonTree::Array(entries))) == Some(entries),
{
    empty_object_is(1);
    with_sets(empty_object(), "roster"@, JsonTree::Array(entries));
    assert(empty_object().with("roster"@, JsonTree::Array(entries)).get("roster"@) == Some(
        JsonTree::Array(entries),
    ));
}

} // verus!
