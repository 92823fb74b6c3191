//! The choice of the session that a message goes to, and what the sender is told of it.
use crate::identity::opt_str;
use crate::roster::{
    age_text, age_words, line_of, live_views, session_line, LiveSession, LiveView,
    STALE_MS,
};
use crate::text::{
    end_stands_inside, join, joined, part_stands_in_joined, same_text, stands_behind, starts_with,
    texts,
};
use vstd::prelude::*;

verus! {

/// The sessions but this very one.
pub open spec fn others(sessions: Seq<LiveView>, own: Option<Seq<char>>) -> Seq<LiveView>
    decreases sessions.len(),
{
    if sessions.len() == 0 {
        Seq::empty()
    } else {
        let before = others(sessions.drop_last(), own);
        if own == Some(sessions.last().id()) {
            before
        } else {
            before.push(sessions.last())
        }
    }
}

/// The live ones of the sessions.
pub open spec fn live_ones(sessions: Seq<LiveView>) -> Seq<LiveView>
    decreases sessions.len(),
{
    if sessions.len() == 0 {
        Seq::empty()
    } else {
        let before = live_ones(sessions.drop_last());
        if sessions.last().live() {
            before.push(sessions.last())
        } else {
            before
        }
    }
}

/// The sessions whose ids begin with the hint.
pub open spec fn hinted(sessions: Seq<LiveView>, hint: Seq<char>) -> Seq<LiveView>
    decreases sessions.len(),
{
    if sessions.len() == 0 {
        Seq::empty()
    } else {
        let before = hinted(sessions.drop_last(), hint);
        if hint.is_prefix_of(sessions.last().id()) {
            before.push(sessions.last())
        } else {
            before
        }
    }
}

/// Where the session with this id stands; the length where there is none.
pub open spec fn session_index(sessions: Seq<LiveView>, id: Seq<char>) -> nat
    decreases sessions.len(),
{
    if sessions.len() == 0 || sessions[0].id() == id {
        0
    } else {
        1 + session_index(sessions.drop_first(), id)
    }
}

/// One of the sessions has this id.
pub open spec fn lists(sessions: Seq<LiveView>, id: Seq<char>) -> bool {
    session_index(sessions, id) < sessions.len()
}

proof fn session_index_is(sessions: Seq<LiveView>, id: Seq<char>, i: int)
    requires
        0 <= i <= sessions.len(),
        i < sessions.len() ==> sessions[i].id() == id,
        forall|j: int| 0 <= j < i ==> (#[trigger] sessions[j]).id() != id,
    ensures
        session_index(sessions, id) == i,
    decreases i,
{
    if i > 0 {
        assert(sessions[0].id() != id);
        let s = sessions.drop_first();
        assert forall|j: int| 0 <= j < i - 1 implies (#[trigger] s[j]).id() != id by {
            assert(s[j] == sessions[j + 1]);
        }
        session_index_is(s, id, i - 1);
    }
}

/// What the index of a session says.
pub proof fn session_index_says(sessions: Seq<LiveView>, id: Seq<char>)
    ensures
        session_index(sessions, id) <= sessions.len(),
        session_index(sessions, id) < sessions.len() ==> sessions[session_index(
            sessions,
            id,
        ) as int].id() == id,
    decreases sessions.len(),
{
    if sessions.len() > 0 && sessions[0].id() != id {
        session_index_says(sessions.drop_first(), id);
    }
}

fn position(sessions: &Vec<LiveSession>, id: &str) -> (r: usize)
    ensures
        r == session_index(live_views(sessions@), id@),
        r <= sessions@.len(),
{
    let ghost views = live_views(sessions@);
    let mut i: usize = 0;
    while i < sessions.len()
        invariant
            i <= sessions@.len(),
            views == live_views(sessions@),
            forall|j: int| 0 <= j < i ==> (#[trigger] views[j]).id() != id@,
        decreases sessions@.len() - i,
    {
        if same_text(sessions[i].info.session_id.as_str(), id) {
            proof {
                assert(views[i as int].id() == id@);
                session_index_is(views, id@, i as int);
            }
            return i;
        }
        assert(views[i as int].id() != id@);
        i += 1;
    }
    proof {
        session_index_is(views, id@, i as int);
    }
    i
}

/// The sessions but this very one.
pub fn other_sessions(sessions: &Vec<LiveSession>, own: Option<&str>) -> (r: Vec<LiveSession>)
    ensures
        live_views(r@) == others(live_views(sessions@), opt_str(own)),
{
    let ghost all = live_views(sessions@);
    let mut out: Vec<LiveSession> = Vec::new();
    let mut i: usize = 0;
    assert(all.take(0) =~= Seq::<LiveView>::empty());
    assert(live_views(out@) =~= Seq::<LiveView>::empty());
    while i < sessions.len()
        invariant
            i <= sessions@.len(),
            all == live_views(sessions@),
            live_views(out@) == others(all.take(i as int), opt_str(own)),
        decreases sessions@.len() - i,
    {
        let ghost before = live_views(out@);
        assert(all.take(i + 1).drop_last() =~= all.take(i as int));
        let mine = match own {
            Some(id) => same_text(id, sessions[i].info.session_id.as_str()),
            None => false,
        };
        if !mine {
            out.push(sessions[i].copy());
            assert(live_views(out@) =~= before.push(all[i as int]));
        }
        i += 1;
    }
    assert(all.take(all.len() as int) =~= all);
    out
}

fn live_sessions(sessions: &Vec<LiveSession>) -> (r: Vec<LiveSession>)
    ensures
        live_views(r@) == live_ones(live_views(sessions@)),
{
    let ghost all = live_views(sessions@);
    let mut out: Vec<LiveSession> = Vec::new();
    let mut i: usize = 0;
    assert(all.take(0) =~= Seq::<LiveView>::empty());
    assert(live_views(out@) =~= Seq::<LiveView>::empty());
    while i < sessions.len()
        invariant
            i <= sessions@.len(),
            all == live_views(sessions@),
            live_views(out@) == live_ones(all.take(i as int)),
        decreases sessions@.len() - i,
    {
        let ghost before = live_views(out@);
        assert(all.take(i + 1).drop_last() =~= all.take(i as int));
        if sessions[i].is_live() {
            out.push(sessions[i].copy());
            assert(live_views(out@) =~= before.push(all[i as int]));
        }
        i += 1;
    }
    assert(all.take(all.len() as int) =~= all);
    out
}

fn hinted_sessions(sessions: &Vec<LiveSession>, hint: &str) -> (r: Vec<LiveSession>)
    ensures
        live_views(r@) == hinted(live_views(sessions@), hint@),
{
    let ghost all = live_views(sessions@);
    let mut out: Vec<LiveSession> = Vec::new();
    let mut i: usize = 0;
    assert(all.take(0) =~= Seq::<LiveView>::empty());
    assert(live_views(out@) =~= Seq::<LiveView>::empty());
    while i < sessions.len()
        invariant
            i <= sessions@.len(),
            all == live_views(sessions@),
            live_views(out@) == hinted(all.take(i as int), hint@),
        decreases sessions@.len() - i,
    {
        let ghost before = live_views(out@);
        assert(all.take(i + 1).drop_last() =~= all.take(i as int));
        if starts_with(sessions[i].info.session_id.as_str(), hint) {
            out.push(sessions[i].copy());
            assert(live_views(out@) =~= before.push(all[i as int]));
        }
        i += 1;
    }
    assert(all.take(all.len() as int) =~= all);
    out
}

/// Why no session was chosen.
pub enum PickFault {
    OwnSession,
    SharedPrefix { hint: Seq<char>, choices: Seq<LiveView> },
    Several { petname: Seq<char>, choices: Seq<LiveView> },
    NoSibling,
    NoneListed { petname: Seq<char> },
}

/// Why no session was chosen.
#[derive(Debug, Clone, PartialEq, Eq)]
pub enum PickError {
    /// A session cannot send to itself.
    OwnSession,
    /// The hint begins the ids of several sessions.
    SharedPrefix { hint: String, choices: Vec<LiveSession> },
    /// The recipient has several sessions, and none is preferred.
    Several { petname: String, choices: Vec<LiveSession> },
    /// This identity has no other session.
    NoSibling,
    /// The recipient has no session on the roster.
    NoneListed { petname: String },
}

impl View for PickError {
    type V = PickFault;

    open spec fn view(&self) -> PickFault {
        match *self {
            PickError::OwnSession => PickFault::OwnSession,
            PickError::SharedPrefix { hint, choices } => PickFault::SharedPrefix {
                hint: hint@,
                choices: live_views(choices@),
            },
            PickError::Several { petname, choices } => PickFault::Several {
                petname: petname@,
                choices: live_views(choices@),
            },
            PickError::NoSibling => PickFault::NoSibling,
            PickError::NoneListed { petname } => PickFault::NoneListed { petname: petname@ },
        }
    }
}

/// The sessions to pick from, a line for each.
pub open spec fn choice_lines(choices: Seq<LiveView>) -> Seq<char> {
    joined(choices.map_values(|s: LiveView| "  "@ + line_of(s)), "\n"@)
}

impl PickFault {
    /// The fault in words.
    pub open spec fn words(self) -> Seq<char> {
        match self {
            PickFault::OwnSession => "can't send a message to this same session"@,
            PickFault::SharedPrefix { hint, choices } => "session '"@ + hint
                + "' matches several live sessions — use the full id:\n"@ + choice_lines(choices),
            PickFault::Several { petname, choices } => "'"@ + petname
                + "' has several live sessions — pass session=<id>:\n"@ + choice_lines(choices),
            PickFault::NoSibling => "no other live session on this machine to reach"@,
            PickFault::NoneListed { petname } => "no live session for '"@ + petname
                + "' on the roster — they may be offline (run discover)"@,
        }
    }
}

fn render_choices(choices: &Vec<LiveSession>) -> (r: String)
    ensures
        r@ == choice_lines(live_views(choices@)),
{
    let ghost all = live_views(choices@);
    let ghost wanted = all.map_values(|s: LiveView| "  "@ + line_of(s));
    let mut out: Vec<String> = Vec::new();
    let mut i: usize = 0;
    while i < choices.len()
        invariant
            i <= choices@.len(),
            all == live_views(choices@),
            wanted == all.map_values(|s: LiveView| "  "@ + line_of(s)),
            texts(out@) == wanted.take(i as int),
        decreases choices@.len() - i,
    {
        let ghost before = texts(out@);
        let mut line = "  ".to_string();
        line.append(session_line(&choices[i]).as_str());
        assert(line@ == wanted[i as int]);
        out.push(line);
        assert(texts(out@) =~= before.push(wanted[i as int]));
        assert(wanted.take(i + 1) =~= wanted.take(i as int).push(wanted[i as int]));
        i += 1;
    }
    assert(wanted.take(wanted.len() as int) =~= wanted);
    join(&out, "\n")
}

impl PickError {
    /// The error in words.
    pub fn message(&self) -> (r: String)
        ensures
            r@ == self@.words(),
    {
        match self {
            PickError::OwnSession => "can't send a message to this same session".to_string(),
            PickError::SharedPrefix { hint, choices } => {
                let mut out = "session '".to_string();
                out.append(hint.as_str());
                out.append("' matches several live sessions — use the full id:\n");
                out.append(render_choices(choices).as_str());
                out
            },
            PickError::Several { petname, choices } => {
                let mut out = "'".to_string();
                out.append(petname.as_str());
                out.append("' has several live sessions — pass session=<id>:\n");
                out.append(render_choices(choices).as_str());
                out
            },
            PickError::NoSibling => "no other live session on this machine to reach".to_string(),
            PickError::NoneListed { petname } => {
                let mut out = "no live session for '".to_string();
                out.append(petname.as_str());
                out.append("' on the roster — they may be offline (run discover)");
                out
            },
        }
    }
}

/// The session that a hint means: the one with that id, else the only one whose id begins so. A
/// hint that means none is taken for the id of a session that is not on the roster, for which the
/// bus keeps messages. `own` is this session, where the recipient is this identity; it counts among
/// those that a hint may mean, but is never chosen.
pub open spec fn session_named(
    sessions: Seq<LiveView>,
    hint: Seq<char>,
    own: Option<Seq<char>>,
) -> Result<Seq<char>, PickFault> {
    let matching = hinted(sessions, hint);
    if own == Some(hint) {
        Err(PickFault::OwnSession)
    } else if lists(sessions, hint) {
        Ok(hint)
    } else if matching.len() > 1 {
        Err(PickFault::SharedPrefix { hint, choices: matching })
    } else if matching.len() == 0 {
        Ok(hint)
    } else if own == Some(matching[0].id()) {
        Err(PickFault::OwnSession)
    } else {
        Ok(matching[0].id())
    }
}

/// The view of a choice.
pub open spec fn pick_view(r: Result<String, PickError>) -> Result<Seq<char>, PickFault> {
    match r {
        Ok(id) => Ok(id@),
        Err(e) => Err(e@),
    }
}

/// The session that a hint means: an id, or the beginning of one.
pub fn resolve_session(sessions: &Vec<LiveSession>, hint: &str, own: Option<&str>) -> (r: Result<
    String,
    PickError,
>)
    ensures
        pick_view(r) == session_named(live_views(sessions@), hint@, opt_str(own)),
{
    let is_own = match own {
        Some(id) => same_text(id, hint),
        None => false,
    };
    if is_own {
        return Err(PickError::OwnSession);
    }
    assert(live_views(sessions@).len() == sessions@.len());
    if position(sessions, hint) < sessions.len() {
        return Ok(hint.to_string());
    }
    let matching = hinted_sessions(sessions, hint);
    assert(live_views(matching@).len() == matching@.len());
    if matching.len() > 1 {
        return Err(PickError::SharedPrefix { hint: hint.to_string(), choices: matching });
    }
    if matching.len() == 0 {
        return Ok(hint.to_string());
    }
    assert(live_views(matching@)[0] == matching@[0]@);
    let only_own = match own {
        Some(id) => same_text(id, matching[0].info.session_id.as_str()),
        None => false,
    };
    if only_own {
        Err(PickError::OwnSession)
    } else {
        Ok(matching[0].info.session_id.clone())
    }
}

/// The session that a message goes to where the sender named none. The session that the recipient
/// last wrote from keeps the conversation while it is on the roster, live or away, and also where
/// the recipient has none there: it will wake and find its messages. Otherwise it is the only live
/// session or, where none is live, the only one away. `own` is this session, where the recipient
/// is this identity: a session never sends to itself.
pub open spec fn session_routed(
    sessions: Seq<LiveView>,
    sticky: Option<Seq<char>>,
    own: Option<Seq<char>>,
    petname: Seq<char>,
) -> Result<Seq<char>, PickFault> {
    let candidates = others(sessions, own);
    let live = live_ones(candidates);
    if sticky is Some && sticky != own && (candidates.len() == 0 || lists(candidates, sticky->0)) {
        Ok(sticky->0)
    } else if live.len() == 1 {
        Ok(live[0].id())
    } else if live.len() == 0 && candidates.len() == 1 {
        Ok(candidates[0].id())
    } else if candidates.len() > 0 {
        Err(PickFault::Several { petname, choices: candidates })
    } else if own is Some {
        Err(PickFault::NoSibling)
    } else {
        Err(PickFault::NoneListed { petname })
    }
}

/// The session that a message goes to where the sender named none.
pub fn route_session(
    sessions: &Vec<LiveSession>,
    sticky: Option<&str>,
    own: Option<&str>,
    petname: &str,
) -> (r: Result<String, PickError>)
    ensures
        pick_view(r) == session_routed(
            live_views(sessions@),
            opt_str(sticky),
            opt_str(own),
            petname@,
        ),
{
    let candidates = other_sessions(sessions, own);
    assert(live_views(candidates@).len() == candidates@.len());
    match sticky {
        Some(id) => {
            let is_own = match own {
                Some(o) => same_text(o, id),
                None => false,
            };
            if !is_own && (candidates.len() == 0 || position(&candidates, id) < candidates.len()) {
                return Ok(id.to_string());
            }
        },
        None => {},
    }
    let live = live_sessions(&candidates);
    assert(live_views(live@).len() == live@.len());
    if live.len() == 1 {
        assert(live_views(live@)[0] == live@[0]@);
        return Ok(live[0].info.session_id.clone());
    }
    if live.len() == 0 && candidates.len() == 1 {
        assert(live_views(candidates@)[0] == candidates@[0]@);
        return Ok(candidates[0].info.session_id.clone());
    }
    if candidates.len() > 0 {
        Err(PickError::Several { petname: petname.to_string(), choices: candidates })
    } else if own.is_some() {
        Err(PickError::NoSibling)
    } else {
        Err(PickError::NoneListed { petname: petname.to_string() })
    }
}

proof fn others_are_not_own(sessions: Seq<LiveView>, own: Option<Seq<char>>)
    ensures
        forall|i: int|
            0 <= i < others(sessions, own).len() ==> own != Some(
                (#[trigger] others(sessions, own)[i]).id(),
            ),
    decreases sessions.len(),
{
    if sessions.len() > 0 {
        let before = others(sessions.drop_last(), own);
        others_are_not_own(sessions.drop_last(), own);
        assert forall|i: int| 0 <= i < others(sessions, own).len() implies own != Some(
            (#[trigger] others(sessions, own)[i]).id(),
        ) by {
            if i < before.len() {
                assert(others(sessions, own)[i] == before[i]);
            }
        }
    }
}

proof fn live_ones_are_among(sessions: Seq<LiveView>)
    ensures
        forall|i: int|
            0 <= i < live_ones(sessions).len() ==> sessions.contains(
                #[trigger] live_ones(sessions)[i],
            ),
    decreases sessions.len(),
{
    if sessions.len() > 0 {
        let before = sessions.drop_last();
        live_ones_are_among(before);
        assert forall|i: int| 0 <= i < live_ones(sessions).len() implies sessions.contains(
            #[trigger] live_ones(sessions)[i],
        ) by {
            if i < live_ones(before).len() {
                let x = live_ones(before)[i];
                assert(before.contains(x));
                let k = choose|k: int| 0 <= k < before.len() && before[k] == x;
                assert(sessions[k] == x);
            } else {
                assert(sessions[sessions.len() - 1] == sessions.last());
            }
        }
    }
}

/// A session is never chosen for its own message, neither by a hint nor without one.
pub proof fn never_sends_to_itself(
    sessions: Seq<LiveView>,
    hint: Seq<char>,
    sticky: Option<Seq<char>>,
    own: Option<Seq<char>>,
    petname: Seq<char>,
)
    ensures
        session_named(sessions, hint, own) matches Ok(id) ==> own != Some(id),
        session_routed(sessions, sticky, own, petname) matches Ok(id) ==> own != Some(id),
{
    let candidates = others(sessions, own);
    others_are_not_own(sessions, own);
    live_ones_are_among(candidates);
    let live = live_ones(candidates);
    if live.len() == 1 {
        assert(candidates.contains(live[0]));
    }
}

proof fn others_keep_the_rest(sessions: Seq<LiveView>, own: Option<Seq<char>>, id: Seq<char>)
    requires
        lists(sessions, id),
        own != Some(id),
    ensures
        lists(others(sessions, own), id),
    decreases sessions.len(),
{
    session_index_says(sessions, id);
    let k = session_index(sessions, id) as int;
    let before = sessions.drop_last();
    let rest = others(before, own);
    let all = others(sessions, own);
    if k < before.len() {
        session_has_index(before, id, k);
        others_keep_the_rest(before, own, id);
        session_index_says(rest, id);
        let i = session_index(rest, id) as int;
        assert(all[i] == rest[i]);
        session_has_index(all, id, i);
    } else {
        assert(all.last() == sessions.last());
        session_has_index(all, id, all.len() - 1);
    }
}

proof fn session_has_index(sessions: Seq<LiveView>, id: Seq<char>, i: int)
    requires
        0 <= i < sessions.len(),
        sessions[i].id() == id,
    ensures
        lists(sessions, id),
    decreases i,
{
    if i > 0 && sessions[0].id() != id {
        assert(sessions.drop_first()[i - 1] == sessions[i]);
        session_has_index(sessions.drop_first(), id, i - 1);
    }
}

/// Silence is not death: while the session of a conversation is on the roster, live or away, the
/// conversation stays with it, whatever other sessions the recipient has.
pub proof fn conversation_stays(
    sessions: Seq<LiveView>,
    sticky: Seq<char>,
    own: Option<Seq<char>>,
    petname: Seq<char>,
)
    requires
        lists(sessions, sticky),
        own != Some(sticky),
    ensures
        session_routed(sessions, Some(sticky), own, petname) == Ok::<Seq<char>, PickFault>(sticky),
{
    others_keep_the_rest(sessions, own, sticky);
}

/// A session that has ended loses its conversations: they go to the recipient's only live session,
/// however many others are away.
pub proof fn ended_conversation_is_picked_again(
    sessions: Seq<LiveView>,
    sticky: Seq<char>,
    petname: Seq<char>,
)
    requires
        !lists(sessions, sticky),
        live_ones(sessions).len() == 1,
    ensures
        session_routed(sessions, Some(sticky), None, petname) == Ok::<Seq<char>, PickFault>(
            live_ones(sessions)[0].id(),
        ),
{
    others_of_nobody(sessions);
}

proof fn others_of_nobody(sessions: Seq<LiveView>)
    ensures
        others(sessions, None) == sessions,
    decreases sessions.len(),
{
    if sessions.len() > 0 {
        others_of_nobody(sessions.drop_last());
        assert(sessions.drop_last().push(sessions.last()) =~= sessions);
    }
}

/// The session that a knock or its answer goes to: the first live one, else the first that is
/// away, which finds it on waking. Which of them it is does not matter: pairing is between
/// identities.
pub open spec fn knocked(sessions: Seq<LiveView>) -> Option<Seq<char>> {
    if live_ones(sessions).len() > 0 {
        Some(live_ones(sessions)[0].id())
    } else if sessions.len() > 0 {
        Some(sessions[0].id())
    } else {
        None
    }
}

/// The session that a knock or its answer goes to.
pub fn knock_session(sessions: &Vec<LiveSession>) -> (r: Option<String>)
    ensures
        match r {
            Some(id) => knocked(live_views(sessions@)) == Some(id@),
            None => knocked(live_views(sessions@)) is None,
        },
{
    let live = live_sessions(sessions);
    assert(live_views(live@).len() == live@.len());
    assert(live_views(sessions@).len() == sessions@.len());
    if live.len() > 0 {
        assert(live_views(live@)[0] == live@[0]@);
        Some(live[0].info.session_id.clone())
    } else if sessions.len() > 0 {
        assert(live_views(sessions@)[0] == sessions@[0]@);
        Some(sessions[0].info.session_id.clone())
    } else {
        None
    }
}

/// What the sender is told of the chosen session's state, so that it does not take delivery for
/// granted: live, away, away for long, or not on the roster.
pub open spec fn outlook(sessions: Seq<LiveView>, id: Seq<char>) -> Seq<char> {
    let i = session_index(sessions, id) as int;
    if i >= sessions.len() {
        ", but that session isn't on the roster (closed / long-dead) — may not deliver; run discover"@
    } else if sessions[i].live() {
        "; delivering in the background"@
    } else if sessions[i].age_ms->0 < STALE_MS {
        " — that session is away (asleep? last seen "@ + age_words(sessions[i].age_ms->0)
            + " ago); it'll deliver when it wakes"@
    } else {
        " — away and last seen "@ + age_words(sessions[i].age_ms->0)
            + " ago, so it may be gone, not asleep; run discover"@
    }
}

/// What the sender is told of the chosen session's state.
pub fn outlook_text(sessions: &Vec<LiveSession>, id: &str) -> (r: String)
    ensures
        r@ == outlook(live_views(sessions@), id@),
{
    let i = position(sessions, id);
    if i >= sessions.len() {
        return ", but that session isn't on the roster (closed / long-dead) — may not deliver; run discover".to_string();
    }
    assert(live_views(sessions@)[i as int] == sessions@[i as int]@);
    if sessions[i].is_live() {
        return "; delivering in the background".to_string();
    }
    let age: u64 = match sessions[i].age_ms {
        Some(age) => age,
        None => 0,
    };
    if age < STALE_MS {
        let mut out = " — that session is away (asleep? last seen ".to_string();
        out.append(age_text(age).as_str());
        out.append(" ago); it'll deliver when it wakes");
        out
    } else {
        let mut out = " — away and last seen ".to_string();
        out.append(age_text(age).as_str());
        out.append(" ago, so it may be gone, not asleep; run discover");
        out
    }
}

/// Where the chosen session is away while another is live, the sender is told of that one.
pub open spec fn alternative(
    sessions: Seq<LiveView>,
    own: Option<Seq<char>>,
    id: Seq<char>,
) -> Seq<char> {
    let i = session_index(sessions, id) as int;
    let live = live_ones(others(sessions, own));
    if i < sessions.len() && !sessions[i].live() && live.len() > 0 {
        "; pass session="@ + live[0].id() + " to reach the awake one instead"@
    } else {
        Seq::empty()
    }
}

/// Where the chosen session is away while another is live, the sender is told of that one.
pub fn alternative_text(sessions: &Vec<LiveSession>, own: Option<&str>, id: &str) -> (r: String)
    ensures
        r@ == alternative(live_views(sessions@), opt_str(own), id@),
{
    let i = position(sessions, id);
    let live = live_sessions(&other_sessions(sessions, own));
    assert(live_views(live@).len() == live@.len());
    if i < sessions.len() {
        assert(live_views(sessions@)[i as int] == sessions@[i as int]@);
        if !sessions[i].is_live() && live.len() > 0 {
            assert(live_views(live@)[0] == live@[0]@);
            let mut out = "; pass session=".to_string();
            out.append(live[0].info.session_id.as_str());
            out.append(" to reach the awake one instead");
            return out;
        }
    }
    String::new()
}

/// The sessions are looked at one by one, in their order: all but this very one are others, those
/// are live whose age the bus does not say or says as under a minute and a half, and a hint means
/// those whose ids it begins.
pub proof fn sessions_are_sifted_one_by_one(
    a: Seq<LiveView>,
    b: Seq<LiveView>,
    s: LiveView,
    own: Option<Seq<char>>,
    hint: Seq<char>,
)
    ensures
        others(a + b, own) == others(a, own) + others(b, own),
        others(seq![s], own) == if own == Some(s.info.session_id) {
            Seq::empty()
        } else {
            seq![s]
        },
        live_ones(a + b) == live_ones(a) + live_ones(b),
        live_ones(seq![s]) == match s.age_ms {
            Some(age) => if age < 90 * 1000 {
                seq![s]
            } else {
                Seq::empty()
            },
            None => seq![s],
        },
        hinted(a + b, hint) == hinted(a, hint) + hinted(b, hint),
        hinted(seq![s], hint) == if hint.is_prefix_of(s.info.session_id) {
            seq![s]
        } else {
            Seq::empty()
        },
    decreases b.len(),
{
    let one = seq![s];
    assert(one.drop_last() =~= Seq::<LiveView>::empty());
    assert(one.last() == s);
    let none = Seq::<LiveView>::empty();
    assert(others(none, own) =~= none && live_ones(none) =~= none && hinted(none, hint) =~= none);
    assert(others(one, own) =~= if own == Some(s.info.session_id) {
        Seq::empty()
    } else {
        seq![s]
    });
    assert(hinted(one, hint) =~= if hint.is_prefix_of(s.info.session_id) {
        seq![s]
    } else {
        Seq::empty()
    });
    assert(live_ones(one) =~= if s.live() {
        seq![s]
    } else {
        Seq::empty()
    });
    if b.len() == 0 {
        assert(a + b =~= a);
        assert(others(a, own) + others(b, own) =~= others(a, own));
        assert(live_ones(a) + live_ones(b) =~= live_ones(a));
        assert(hinted(a, hint) + hinted(b, hint) =~= hinted(a, hint));
    } else {
        let rest = b.drop_last();
        sessions_are_sifted_one_by_one(a, rest, s, own, hint);
        assert((a + b).drop_last() =~= a + rest);
        assert((a + b).last() == b.last());
        assert(others(a + b, own) =~= others(a, own) + others(b, own));
        assert(live_ones(a + b) =~= live_ones(a) + live_ones(b));
        assert(hinted(a + b, hint) =~= hinted(a, hint) + hinted(b, hint));
    }
}

/// Where a session stands is where its id first occurs.
pub proof fn session_stands_where_it_first_occurs(sessions: Seq<LiveView>, id: Seq<char>)
    ensures
        session_index(sessions, id) <= sessions.len(),
        session_index(sessions, id) < sessions.len() ==> sessions[session_index(
            sessions,
            id,
        ) as int].info.session_id == id,
        forall|j: int|
            0 <= j < session_index(sessions, id) ==> (#[trigger] sessions[j]).info.session_id != id,
        lists(sessions, id) <==> exists|i: int|
            0 <= i < sessions.len() && (#[trigger] sessions[i]).info.session_id == id,
    decreases sessions.len(),
{
    session_index_says(sessions, id);
    if sessions.len() > 0 && sessions[0].id() != id {
        let rest = sessions.drop_first();
        session_stands_where_it_first_occurs(rest, id);
        assert forall|j: int| 0 <= j < session_index(sessions, id) implies (
        #[trigger] sessions[j]).info.session_id != id by {
            if j > 0 {
                assert(sessions[j] == rest[j - 1]);
            }
        }
    }
    if exists|i: int| 0 <= i < sessions.len() && (#[trigger] sessions[i]).info.session_id == id {
        let i = choose|i: int|
            0 <= i < sessions.len() && (#[trigger] sessions[i]).info.session_id == id;
        session_has_index(sessions, id, i);
    }
    if lists(sessions, id) {
        let k = session_index(sessions, id) as int;
        assert(sessions[k].info.session_id == id);
    }
}

spec fn is_candidate(sessions: Seq<LiveView>, own: Option<Seq<char>>, i: int) -> bool {
    0 <= i < sessions.len() && own != Some(sessions[i].info.session_id)
}

spec fn is_live_candidate(sessions: Seq<LiveView>, own: Option<Seq<char>>, i: int) -> bool {
    is_candidate(sessions, own, i) && sessions[i].live()
}

proof fn candidates_by_place(sessions: Seq<LiveView>, own: Option<Seq<char>>) -> (p: (int, int))
    ensures
        ({
            let c = others(sessions, own);
            &&& c.len() == 0 <==> forall|i: int| !#[trigger] is_candidate(sessions, own, i)
            &&& c.len() > 0 ==> is_candidate(sessions, own, p.0) && c[0] == sessions[p.0]
                && forall|i: int| i < p.0 ==> !#[trigger] is_candidate(sessions, own, i)
            &&& c.len() == 1 ==> forall|i: int| #[trigger]
                is_candidate(sessions, own, i) ==> i == p.0
            &&& c.len() > 1 ==> is_candidate(sessions, own, p.1) && p.0 != p.1
        }),
    decreases sessions.len(),
{
    if sessions.len() == 0 {
        (0, 0)
    } else {
        let front = sessions.drop_last();
        let n = front.len() as int;
        let p = candidates_by_place(front, own);
        assert forall|i: int|
            #![trigger is_candidate(sessions, own, i)]
            #![trigger is_candidate(front, own, i)]
            i < n implies is_candidate(sessions, own, i) == is_candidate(front, own, i) by {
            if i >= 0 {
                assert(sessions[i] == front[i]);
            }
        }
        assert(sessions[n] == sessions.last());
        assert(!is_candidate(front, own, n));
        assert(is_candidate(sessions, own, n) || !is_candidate(sessions, own, n));
        let before = others(front, own);
        let c = others(sessions, own);
        let r = if before.len() == 0 {
            (n, n)
        } else if before.len() == 1 {
            (p.0, n)
        } else {
            p
        };
        assert(c.len() == 0 ==> forall|i: int| !#[trigger] is_candidate(sessions, own, i));
        assert(c.len() > 0 ==> is_candidate(sessions, own, r.0) && c[0] == sessions[r.0]);
        assert(c.len() > 0 ==> forall|i: int| i < r.0 ==> !#[trigger] is_candidate(sessions, own, i));
        assert(c.len() == 1 ==> forall|i: int| #[trigger] is_candidate(sessions, own, i) ==> i == r.0);
        assert(c.len() > 1 ==> is_candidate(sessions, own, r.1) && r.0 != r.1);
        r
    }
}

proof fn live_candidates_by_place(sessions: Seq<LiveView>, own: Option<Seq<char>>) -> (p: (
    int,
    int,
))
    ensures
        ({
            let c = live_ones(others(sessions, own));
            &&& c.len() == 0 <==> forall|i: int| !#[trigger] is_live_candidate(sessions, own, i)
            &&& c.len() > 0 ==> is_live_candidate(sessions, own, p.0) && c[0] == sessions[p.0]
                && forall|i: int| i < p.0 ==> !#[trigger] is_live_candidate(sessions, own, i)
            &&& c.len() == 1 ==> forall|i: int| #[trigger]
                is_live_candidate(sessions, own, i) ==> i == p.0
            &&& c.len() > 1 ==> is_live_candidate(sessions, own, p.1) && p.0 != p.1
        }),
    decreases sessions.len(),
{
    if sessions.len() == 0 {
        assert(live_ones(others(sessions, own)).len() == 0);
        (0, 0)
    } else {
        let front = sessions.drop_last();
        let n = front.len() as int;
        let p = live_candidates_by_place(front, own);
        assert forall|i: int|
            #![trigger is_live_candidate(sessions, own, i)]
            #![trigger is_live_candidate(front, own, i)]
            i < n implies is_live_candidate(sessions, own, i) == is_live_candidate(front, own, i) by {
            if i >= 0 {
                assert(sessions[i] == front[i]);
            }
        }
        assert(sessions[n] == sessions.last());
        assert(!is_live_candidate(front, own, n));
        assert(is_live_candidate(sessions, own, n) || !is_live_candidate(sessions, own, n));
        let before = live_ones(others(front, own));
        if own != Some(sessions.last().id()) {
            assert(others(sessions, own).drop_last() =~= others(front, own));
        }
        let c = live_ones(others(sessions, own));
        let r = if before.len() == 0 {
            (n, n)
        } else if before.len() == 1 {
            (p.0, n)
        } else {
            p
        };
        assert(c.len() == 0 ==> forall|i: int| !#[trigger] is_live_candidate(sessions, own, i));
        assert(c.len() > 0 ==> is_live_candidate(sessions, own, r.0) && c[0] == sessions[r.0]);
        assert(c.len() > 0 ==> forall|i: int| i < r.0 ==> !#[trigger] is_live_candidate(sessions, own, i));
        assert(c.len() == 1 ==> forall|i: int| #[trigger] is_live_candidate(sessions, own, i) ==> i == r.0);
        assert(c.len() > 1 ==> is_live_candidate(sessions, own, r.1) && r.0 != r.1);
        r
    }
}

/// Where the sender named no session, and the conversation stays with none: several live sessions,
/// however many, are never chosen between, but listed; the only live one is chosen; where none is
/// live, the only one that is away is; and where there is no other session at all, nothing is.
pub proof fn several_are_not_chosen_between(
    sessions: Seq<LiveView>,
    sticky: Option<Seq<char>>,
    own: Option<Seq<char>>,
    petname: Seq<char>,
    i: int,
    j: int,
)
    requires
        sticky matches Some(s) ==> own == Some(s) || (exists|k: int|
            0 <= k < sessions.len() && own != Some((#[trigger] sessions[k]).info.session_id))
            && forall|k: int|
            0 <= k < sessions.len() && own != Some((#[trigger] sessions[k]).info.session_id)
                ==> sessions[k].info.session_id != s,
    ensures
        0 <= i < j < sessions.len() && sessions[i].live() && sessions[j].live() && own != Some(
            sessions[i].info.session_id,
        ) && own != Some(sessions[j].info.session_id) ==> session_routed(
            sessions,
            sticky,
            own,
            petname,
        ) == Err::<Seq<char>, PickFault>(
            PickFault::Several { petname, choices: others(sessions, own) },
        ),
        session_routed(sessions, sticky, own, petname) matches Ok(id) ==> {
            &&& exists|k: int|
                0 <= k < sessions.len() && (#[trigger] sessions[k]).info.session_id == id
            &&& forall|k: int|
                0 <= k < sessions.len() && (#[trigger] sessions[k]).live() && own != Some(
                    sessions[k].info.session_id,
                ) ==> sessions[k].info.session_id == id
        },
        0 <= i < sessions.len() && own != Some(sessions[i].info.session_id) && sessions[i].live()
            && (forall|k: int|
            0 <= k < sessions.len() && k != i && own != Some(
                (#[trigger] sessions[k]).info.session_id,
            ) ==> !sessions[k].live()) ==> session_routed(sessions, sticky, own, petname) == Ok::<
            Seq<char>,
            PickFault,
        >(sessions[i].info.session_id),
        0 <= i < sessions.len() && own != Some(sessions[i].info.session_id) && (forall|k: int|
            0 <= k < sessions.len() && k != i ==> own == Some(
                (#[trigger] sessions[k]).info.session_id,
            )) ==> session_routed(sessions, sticky, own, petname) == Ok::<Seq<char>, PickFault>(
            sessions[i].info.session_id,
        ),
        0 <= i < j < sessions.len() && own != Some(sessions[i].info.session_id) && own != Some(
            sessions[j].info.session_id,
        ) && (forall|k: int|
            0 <= k < sessions.len() && own != Some((#[trigger] sessions[k]).info.session_id)
                ==> !sessions[k].live()) ==> session_routed(sessions, sticky, own, petname) == Err::<
            Seq<char>,
            PickFault,
        >(PickFault::Several { petname, choices: others(sessions, own) }),
        (forall|k: int|
            0 <= k < sessions.len() ==> own == Some((#[trigger] sessions[k]).info.session_id))
            ==> session_routed(sessions, sticky, own, petname) == Err::<Seq<char>, PickFault>(
            if own is Some {
                PickFault::NoSibling
            } else {
                PickFault::NoneListed { petname }
            },
        ),
{
    let candidates = others(sessions, own);
    let p = candidates_by_place(sessions, own);
    let q = live_candidates_by_place(sessions, own);
    if let Some(s) = sticky {
        if own != Some(s) {
            let k = choose|k: int|
                0 <= k < sessions.len() && own != Some((#[trigger] sessions[k]).info.session_id);
            assert(is_candidate(sessions, own, k));
            others_are_among(sessions, own);
            others_are_not_own(sessions, own);
            session_stands_where_it_first_occurs(candidates, s);
            if lists(candidates, s) {
                let n = session_index(candidates, s) as int;
                let x = candidates[n];
                assert(sessions.contains(x));
                let m = choose|m: int| 0 <= m < sessions.len() && sessions[m] == x;
                assert(sessions[m].info.session_id == s);
            }
        }
    }
    assert(is_candidate(sessions, own, i) || !is_candidate(sessions, own, i));
    assert(is_candidate(sessions, own, j) || !is_candidate(sessions, own, j));
    assert(is_live_candidate(sessions, own, i) || !is_live_candidate(sessions, own, i));
    assert(is_live_candidate(sessions, own, j) || !is_live_candidate(sessions, own, j));
    assert forall|k: int|
        0 <= k < sessions.len() && (#[trigger] sessions[k]).live() && own != Some(
            sessions[k].info.session_id,
        ) implies is_live_candidate(sessions, own, k) by {}
    assert forall|k: int|
        0 <= k < sessions.len() && own != Some((#[trigger] sessions[k]).info.session_id) implies
        is_candidate(sessions, own, k) by {}
}

proof fn others_are_among(sessions: Seq<LiveView>, own: Option<Seq<char>>)
    ensures
        forall|i: int|
            0 <= i < others(sessions, own).len() ==> sessions.contains(
                #[trigger] others(sessions, own)[i],
            ),
    decreases sessions.len(),
{
    if sessions.len() > 0 {
        let before = sessions.drop_last();
        others_are_among(before, own);
        assert forall|i: int| 0 <= i < others(sessions, own).len() implies sessions.contains(
            #[trigger] others(sessions, own)[i],
        ) by {
            if i < others(before, own).len() {
                let x = others(before, own)[i];
                assert(before.contains(x));
                let k = choose|k: int| 0 <= k < before.len() && before[k] == x;
                assert(sessions[k] == x);
            } else {
                assert(sessions[sessions.len() - 1] == sessions.last());
            }
        }
    }
}

spec fn is_hinted(sessions: Seq<LiveView>, hint: Seq<char>, i: int) -> bool {
    0 <= i < sessions.len() && hint.is_prefix_of(sessions[i].info.session_id)
}

proof fn hinted_by_place(sessions: Seq<LiveView>, hint: Seq<char>) -> (p: (int, int))
    ensures
        ({
            let c = hinted(sessions, hint);
            &&& c.len() == 0 <==> forall|i: int| !#[trigger] is_hinted(sessions, hint, i)
            &&& c.len() > 0 ==> is_hinted(sessions, hint, p.0) && c[0] == sessions[p.0]
            &&& c.len() == 1 ==> forall|i: int| #[trigger] is_hinted(sessions, hint, i) ==> i == p.0
            &&& c.len() > 1 ==> is_hinted(sessions, hint, p.1) && p.0 != p.1
        }),
    decreases sessions.len(),
{
    if sessions.len() == 0 {
        (0, 0)
    } else {
        let front = sessions.drop_last();
        let n = front.len() as int;
        let p = hinted_by_place(front, hint);
        assert forall|i: int|
            #![trigger is_hinted(sessions, hint, i)]
            #![trigger is_hinted(front, hint, i)]
            i < n implies is_hinted(sessions, hint, i) == is_hinted(front, hint, i) by {
            if i >= 0 {
                assert(sessions[i] == front[i]);
            }
        }
        assert(sessions[n] == sessions.last());
        assert(!is_hinted(front, hint, n));
        assert(is_hinted(sessions, hint, n) || !is_hinted(sessions, hint, n));
        let before = hinted(front, hint);
        let c = hinted(sessions, hint);
        let r = if before.len() == 0 {
            (n, n)
        } else if before.len() == 1 {
            (p.0, n)
        } else {
            p
        };
        assert(c.len() == 0 ==> forall|i: int| !#[trigger] is_hinted(sessions, hint, i));
        assert(c.len() > 0 ==> is_hinted(sessions, hint, r.0) && c[0] == sessions[r.0]);
        assert(c.len() == 1 ==> forall|i: int| #[trigger] is_hinted(sessions, hint, i) ==> i == r.0);
        assert(c.len() > 1 ==> is_hinted(sessions, hint, r.1) && r.0 != r.1);
        r
    }
}

/// What a hint chooses: this very session never; else the session with that id; else, where the
/// hint begins several ids, none of them; where it begins one, that one, unless it is this very
/// session; and where it begins none, it is taken for an id itself.
pub proof fn hint_chooses(
    sessions: Seq<LiveView>,
    hint: Seq<char>,
    own: Option<Seq<char>>,
    i: int,
    j: int,
)
    ensures
        own == Some(hint) ==> session_named(sessions, hint, own) == Err::<Seq<char>, PickFault>(
            PickFault::OwnSession,
        ),
        own != Some(hint) && 0 <= i < sessions.len() && sessions[i].info.session_id == hint
            ==> session_named(sessions, hint, own) == Ok::<Seq<char>, PickFault>(hint),
        own != Some(hint) && (forall|k: int|
            0 <= k < sessions.len() ==> (#[trigger] sessions[k]).info.session_id != hint) && 0 <= i
            < j < sessions.len() && hint.is_prefix_of(sessions[i].info.session_id)
            && hint.is_prefix_of(sessions[j].info.session_id) ==> session_named(
            sessions,
            hint,
            own,
        ) == Err::<Seq<char>, PickFault>(
            PickFault::SharedPrefix { hint, choices: hinted(sessions, hint) },
        ),
        own != Some(hint) && 0 <= i < sessions.len() && hint.is_prefix_of(
            sessions[i].info.session_id,
        ) && (forall|k: int|
            0 <= k < sessions.len() && k != i ==> !hint.is_prefix_of(
                (#[trigger] sessions[k]).info.session_id,
            )) ==> session_named(sessions, hint, own) == if own == Some(
            sessions[i].info.session_id,
        ) {
            Err::<Seq<char>, PickFault>(PickFault::OwnSession)
        } else {
            Ok(sessions[i].info.session_id)
        },
        own != Some(hint) && (forall|k: int|
            0 <= k < sessions.len() ==> !hint.is_prefix_of(
                (#[trigger] sessions[k]).info.session_id,
            )) ==> session_named(sessions, hint, own) == Ok::<Seq<char>, PickFault>(hint),
{
    let p = hinted_by_place(sessions, hint);
    session_stands_where_it_first_occurs(sessions, hint);
    assert(is_hinted(sessions, hint, i) || !is_hinted(sessions, hint, i));
    assert(is_hinted(sessions, hint, j) || !is_hinted(sessions, hint, j));
    assert forall|k: int|
        0 <= k < sessions.len() && (#[trigger] sessions[k]).info.session_id == hint implies
        is_hinted(sessions, hint, k) by {
        assert(hint.is_prefix_of(hint)) by {
            assert(hint.subrange(0, hint.len() as int) =~= hint);
        }
    }
    assert forall|k: int|
        0 <= k < sessions.len() && hint.is_prefix_of((#[trigger] sessions[k]).info.session_id)
        implies is_hinted(sessions, hint, k) by {}
}

/// A knock goes to the first live session; where none is live, to the first; and where there is
/// none, nowhere.
pub proof fn knock_goes_to_the_first(sessions: Seq<LiveView>, i: int)
    ensures
        knocked(sessions) is None <==> sessions.len() == 0,
        0 <= i < sessions.len() && sessions[i].live() && (forall|k: int|
            0 <= k < i ==> !(#[trigger] sessions[k]).live()) ==> knocked(sessions) == Some(
            sessions[i].info.session_id,
        ),
        sessions.len() > 0 && (forall|k: int|
            0 <= k < sessions.len() ==> !(#[trigger] sessions[k]).live()) ==> knocked(sessions)
            == Some(sessions[0].info.session_id),
{
    others_of_nobody(sessions);
    let q = live_candidates_by_place(sessions, None);
    assert forall|k: int| 0 <= k < sessions.len() && (#[trigger] sessions[k]).live() implies
        is_live_candidate(sessions, None, k) by {}
    assert(is_live_candidate(sessions, None, i) || !is_live_candidate(sessions, None, i));
}

/// What the sender is told of the session begins differently for one that is live, for one that is
/// on the roster but away, whose age it then says, and for one that is not on the roster.
pub proof fn outlook_tells_them_apart(sessions: Seq<LiveView>, id: Seq<char>) -> (around: (
    Seq<char>,
    Seq<char>,
))
    ensures
        ({
            let i = session_index(sessions, id) as int;
            &&& outlook(sessions, id)[0] == if i >= sessions.len() {
                ','
            } else if sessions[i].live() {
                ';'
            } else {
                ' '
            }
            &&& i < sessions.len() && !sessions[i].live() ==> outlook(sessions, id) == around.0
                + age_words(sessions[i].age_ms->0) + around.1
            &&& i < sessions.len() && !sessions[i].live() ==> around.0
                == if sessions[i].age_ms->0 < 2 * 24 * 60 * 60 * 1000 {
                " — that session is away (asleep? last seen "@
            } else {
                " — away and last seen "@
            }
        }),
{
    reveal_strlit(", but that session isn't on the roster (closed / long-dead) — may not deliver; run discover");
    reveal_strlit("; delivering in the background");
    reveal_strlit(" — that session is away (asleep? last seen ");
    reveal_strlit(" — away and last seen ");
    let i = session_index(sessions, id) as int;
    if i < sessions.len() && !sessions[i].live() && sessions[i].age_ms->0 >= STALE_MS {
        (" — away and last seen "@, " ago, so it may be gone, not asleep; run discover"@)
    } else {
        (
            " — that session is away (asleep? last seen "@,
            " ago); it'll deliver when it wakes"@,
        )
    }
}

/// An alternative is named if and only if the chosen session is on the roster but away and another
/// session is live: the first of these.
pub proof fn alternative_is_the_first_live_one(
    sessions: Seq<LiveView>,
    own: Option<Seq<char>>,
    id: Seq<char>,
    k: int,
)
    requires
        0 <= k < sessions.len(),
        own != Some(sessions[k].info.session_id),
        sessions[k].live(),
        forall|j: int|
            0 <= j < k && own != Some((#[trigger] sessions[j]).info.session_id)
                ==> !sessions[j].live(),
    ensures
        ({
            let i = session_index(sessions, id) as int;
            alternative(sessions, own, id) == if i < sessions.len() && !sessions[i].live() {
                "; pass session="@ + sessions[k].info.session_id + " to reach the awake one instead"@
            } else {
                Seq::empty()
            }
        }),
{
    let q = live_candidates_by_place(sessions, own);
    assert(is_live_candidate(sessions, own, k));
    if q.0 < k {
        assert(sessions[q.0].live());
    }
}

/// Where no other session is live no alternative is named.
pub proof fn no_alternative_without_a_live_one(
    sessions: Seq<LiveView>,
    own: Option<Seq<char>>,
    id: Seq<char>,
)
    requires
        forall|j: int|
            0 <= j < sessions.len() && own != Some((#[trigger] sessions[j]).info.session_id)
                ==> !sessions[j].live(),
    ensures
        alternative(sessions, own, id).len() == 0,
{
    let q = live_candidates_by_place(sessions, own);
}

/// Each session that the sender is to pick from has its line in what the sender is told.
pub proof fn choices_are_told(fault: PickFault, i: int) -> (around: (Seq<char>, Seq<char>))
    requires
        fault matches PickFault::Several { choices, .. } ==> 0 <= i < choices.len(),
        fault matches PickFault::SharedPrefix { choices, .. } ==> 0 <= i < choices.len(),
    ensures
        fault matches PickFault::Several { choices, .. } ==> fault.words() == around.0 + line_of(
            choices[i],
        ) + around.1,
        fault matches PickFault::SharedPrefix { choices, .. } ==> fault.words() == around.0
            + line_of(choices[i]) + around.1,
{
    match fault {
        PickFault::Several { petname, choices } => {
            let p = "'"@ + petname + "' has several live sessions — pass session=<id>:\n"@;
            line_is_told(p, choices, i)
        },
        PickFault::SharedPrefix { hint, choices } => {
            let p = "session '"@ + hint + "' matches several live sessions — use the full id:\n"@;
            line_is_told(p, choices, i)
        },
        _ => (Seq::empty(), Seq::empty()),
    }
}

proof fn line_is_told(p: Seq<char>, choices: Seq<LiveView>, i: int) -> (around: (
    Seq<char>,
    Seq<char>,
))
    requires
        0 <= i < choices.len(),
    ensures
        p + choice_lines(choices) == around.0 + line_of(choices[i]) + around.1,
{
    let lines = choices.map_values(|s: LiveView| "  "@ + line_of(s));
    let (a, b) = part_stands_in_joined(lines, "\n"@, i);
    end_stands_inside(a, "  "@, line_of(choices[i]), b);
    stands_behind(p, a + "  "@, line_of(choices[i]), b);
    (p + (a + "  "@), b)
}

/// A conversation stays with its session also where the recipient has no other session on the
/// roster: it will wake and find its messages.
pub proof fn conversation_waits(
    sessions: Seq<LiveView>,
    sticky: Seq<char>,
    own: Option<Seq<char>>,
    petname: Seq<char>,
)
    requires
        own != Some(sticky),
        forall|k: int|
            0 <= k < sessions.len() ==> own == Some((#[trigger] sessions[k]).info.session_id),
    ensures
        session_routed(sessions, Some(sticky), own, petname) == Ok::<Seq<char>, PickFault>(sticky),
{
    let p = candidates_by_place(sessions, own);
}

} // verus!
