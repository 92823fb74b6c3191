//! Whether an agent may park.
//!
//! An agent may park only where its event listener is armed: otherwise it would miss its wakeup.
//! Two things make that safe to ask at every stop. It is bounded: it blocks only while the
//! listener is not armed. And it fails open: where the bus cannot be asked, the stop is allowed.
use crate::codec::{empty_object_is, with_sets};
use crate::json::{empty_object, Json, JsonTree};
use vstd::prelude::*;

verus! {

/// The command that waits for a message and then ends, which is the wakeup.
pub open spec fn listen_command(ca: Seq<char>, url: Seq<char>, me: Seq<char>) -> Seq<char> {
    "curl -sN --cacert "@ + ca + " \""@ + url + "/recv?me="@ + me + "\""@
}

/// The command that waits for a message and then ends, which is the wakeup.
pub fn default_listen_cmd(ca: &str, url: &str, me: &str) -> (r: String)
    ensures
        r@ == listen_command(ca@, url@, me@),
{
    let mut out = "curl -sN --cacert ".to_string();
    out.append(ca);
    out.append(" \"");
    out.append(url);
    out.append("/recv?me=");
    out.append(me);
    out.append("\"");
    out
}

/// Why the stop is blocked, with the command that arms the listener.
pub open spec fn block_reason(listen_cmd: Seq<char>) -> Seq<char> {
    "Your event listener is not armed, so you would park deaf to incoming events — a lost wakeup. Before stopping, re-arm it as a background task (Bash with run_in_background) exactly once:\n\n    "@
        + listen_cmd
        + "\n\nWhen that command later returns a JSON line with \"status\":\"message\", handle the message, then re-arm the same command. On \"status\":\"timeout\", just re-arm it."@
}

/// The decision to block a stop.
pub open spec fn block_tree(listen_cmd: Seq<char>) -> JsonTree {
    empty_object().with("decision"@, JsonTree::Text("block"@)).with(
        "reason"@,
        JsonTree::Text(block_reason(listen_cmd)),
    )
}

/// The decision to block a stop, because no listener is armed.
pub fn block_decision(listen_cmd: &str) -> (r: Json)
    ensures
        r.tree() == block_tree(listen_cmd@),
        r.tree().wf(),
        r.tree().get_text("decision"@) == Some("block"@),
        r.tree().get_text("reason"@) == Some(block_reason(listen_cmd@)),
{
    let mut reason = "Your event listener is not armed, so you would park deaf to incoming events — a lost wakeup. Before stopping, re-arm it as a background task (Bash with run_in_background) exactly once:\n\n    ".to_string();
    reason.append(listen_cmd);
    reason.append("\n\nWhen that command later returns a JSON line with \"status\":\"message\", handle the message, then re-arm the same command. On \"status\":\"timeout\", just re-arm it.");
    proof {
        reveal_strlit("decision");
        reveal_strlit("reason");
        assert("decision"@.len() == 8 && "reason"@.len() == 6);
        empty_object_is(1);
        let t0 = empty_object();
        let t1 = t0.with("decision"@, JsonTree::Text("block"@));
        with_sets(t0, "decision"@, JsonTree::Text("block"@));
        with_sets(t1, "reason"@, JsonTree::Text(block_reason(listen_cmd@)));
        let t2 = t1.with("reason"@, JsonTree::Text(block_reason(listen_cmd@)));
        assert(t2.get("decision"@) == Some(JsonTree::Text("block"@)));
    }
    Json::object().with("decision", Json::text("block")).with("reason", Json::Text(reason))
}

/// What the bus says of a listener: armed only where it says so.
pub open spec fn says_armed(t: JsonTree) -> bool {
    t.get("armed"@) == Some(JsonTree::Bool(true))
}

/// What the bus says of a listener.
pub fn armed_from_response(j: &Json) -> (r: bool)
    ensures
        r == says_armed(j.tree()),
{
    match j.get("armed") {
        Some(Json::Bool(b)) => *b,
        _ => false,
    }
}

/// The decision about a stop, given what the bus says of the listener, if it could be asked: the
/// stop is blocked only where the bus says that the listener is not armed.
pub fn stop_decision(armed: Option<bool>, listen_cmd: &str) -> (r: Option<Json>)
    ensures
        r is Some <==> armed == Some(false),
        r matches Some(j) ==> j.tree() == block_tree(listen_cmd@) && j.tree().wf(),
{
    match armed {
        Some(false) => Some(block_decision(listen_cmd)),
        _ => None,
    }
}

/// The command is the same for all but for the authority, the bus and the listener, which stand in
/// it in this order and as they are.
pub proof fn command_names_bus_and_listener(
    ca: Seq<char>,
    url: Seq<char>,
    me: Seq<char>,
    ca2: Seq<char>,
    url2: Seq<char>,
    me2: Seq<char>,
) -> (fixed: (Seq<char>, Seq<char>, Seq<char>, Seq<char>))
    ensures
        listen_command(ca, url, me) == fixed.0 + ca + fixed.1 + url + fixed.2 + me + fixed.3,
        listen_command(ca2, url2, me2) == fixed.0 + ca2 + fixed.1 + url2 + fixed.2 + me2 + fixed.3,
        fixed.2 == "/recv?me="@,
{
    ("curl -sN --cacert "@, " \""@, "/recv?me="@, "\""@)
}

/// The reason for a block holds the command that arms the listener, as it is.
pub proof fn reason_holds_the_command(listen_cmd: Seq<char>, other: Seq<char>) -> (around: (
    Seq<char>,
    Seq<char>,
))
    ensures
        block_reason(listen_cmd) == around.0 + listen_cmd + around.1,
        block_reason(other) == around.0 + other + around.1,
{
    (
        "Your event listener is not armed, so you would park deaf to incoming events — a lost wakeup. Before stopping, re-arm it as a background task (Bash with run_in_background) exactly once:\n\n    "@,
        "\n\nWhen that command later returns a JSON line with \"status\":\"message\", handle the message, then re-arm the same command. On \"status\":\"timeout\", just re-arm it."@,
    )
}

/// A listener is armed only where the bus says so with `true`; an answer that does not say it, or
/// says anything else, means that it is not.
pub proof fn armed_is_said_with_true(t: JsonTree)
    ensures
        says_armed(t) <==> t.get("armed"@) is Some && t.get("armed"@)->0 is Bool && t.get(
            "armed"@,
        )->0->Bool_0,
{
}

} // verus!
