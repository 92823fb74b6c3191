//! Inbox addresses: a key, and the session under it that is meant.
use crate::identity::opt_text;
use crate::text::{chars_of, string_of};
use vstd::prelude::*;

verus! {

/// An inbox on the bus: `key#session`, or the bare key where no session is meant.
#[derive(Debug, Clone, PartialEq, Eq)]
pub struct Route {
    pub key: String,
    pub session: Option<String>,
}

/// The contents of a route.
pub struct RouteView {
    pub key: Seq<char>,
    pub session: Option<Seq<char>>,
}

impl View for Route {
    type V = RouteView;

    open spec fn view(&self) -> RouteView {
        RouteView { key: self.key@, session: opt_text(self.session) }
    }
}

/// The route to a session under a key; an empty session means none.
pub open spec fn route_to(key: Seq<char>, session: Seq<char>) -> RouteView {
    RouteView {
        key,
        session: if session.len() == 0 {
            None
        } else {
            Some(session)
        },
    }
}

/// The text of a route.
pub open spec fn route_text(r: RouteView) -> Seq<char> {
    match r.session {
        Some(s) => r.key + "#"@ + s,
        None => r.key,
    }
}

/// Where the first `#` stands, or the length where there is none.
pub open spec fn hash_index(s: Seq<char>) -> nat
    decreases s.len(),
{
    if s.len() == 0 || s[0] == '#' {
        0
    } else {
        1 + hash_index(s.drop_first())
    }
}

/// The route that a text writes: the key ends at the first `#`.
pub open spec fn route_of(s: Seq<char>) -> RouteView {
    let i = hash_index(s) as int;
    if i < s.len() {
        route_to(s.take(i), s.skip(i + 1))
    } else {
        RouteView { key: s, session: None }
    }
}

proof fn hash_index_is(s: Seq<char>, i: int)
    requires
        0 <= i <= s.len(),
        i < s.len() ==> s[i] == '#',
        forall|j: int| 0 <= j < i ==> s[j] != '#',
    ensures
        hash_index(s) == i,
    decreases i,
{
    if i > 0 {
        let t = s.drop_first();
        assert forall|j: int| 0 <= j < i - 1 implies t[j] != '#' by {
            assert(t[j] == s[j + 1]);
        }
        hash_index_is(t, i - 1);
    }
}

impl Route {
    /// The route to a session under a key; an empty session means none.
    pub fn new(key: &str, session: &str) -> (r: Route)
        ensures
            r@ == route_to(key@, session@),
    {
        Route {
            key: key.to_string(),
            session: if session.is_empty() {
                None
            } else {
                Some(session.to_string())
            },
        }
    }

    /// The address as text.
    pub fn text(&self) -> (r: String)
        ensures
            r@ == route_text(self@),
    {
        let mut out = self.key.clone();
        match &self.session {
            Some(s) => {
                out.append("#");
                out.append(s.as_str());
            },
            None => {},
        }
        out
    }

    /// Reads an address.
    pub fn parse(text: &str) -> (r: Route)
        ensures
            r@ == route_of(text@),
    {
        let v = chars_of(text);
        let mut i: usize = 0;
        while i < v.len() && v[i] != '#'
            invariant
                i <= v@.len(),
                forall|j: int| 0 <= j < i ==> v@[j] != '#',
            decreases v@.len() - i,
        {
            i += 1;
        }
        proof {
            hash_index_is(v@, i as int);
        }
        if i < v.len() {
            let key = string_of(&v, 0, i);
            let session = string_of(&v, i + 1, v.len());
            assert(key@ =~= text@.take(i as int));
            assert(session@ =~= text@.skip(i + 1));
            Route::new(key.as_str(), session.as_str())
        } else {
            Route { key: text.to_string(), session: None }
        }
    }
}

/// Reading the text of a route to a session gives the route back, for a key without a `#`, which
/// no base64 text holds.
pub proof fn route_round_trips(key: Seq<char>, session: Seq<char>)
    requires
        !key.contains('#'),
    ensures
        route_of(route_text(route_to(key, session))) == route_to(key, session),
{
    reveal_strlit("#");
    let r = route_to(key, session);
    let t = route_text(r);
    assert forall|j: int| 0 <= j < key.len() implies t[j] != '#' by {
        assert(key.contains(key[j]));
    }
    hash_index_is(t, key.len() as int);
    if session.len() > 0 {
        assert(t.take(key.len() as int) =~= key);
        assert(t.skip(key.len() as int + 1) =~= session);
    }
}

/// A route without a session is written as its key; one with a session as the key, a `#` and the
/// session.
pub proof fn route_is_written(key: Seq<char>, session: Seq<char>)
    ensures
        session.len() == 0 ==> route_text(route_to(key, session)) == key,
        session.len() > 0 ==> route_text(route_to(key, session)) == key + seq!['#'] + session,
{
    reveal_strlit("#");
    assert("#"@ =~= seq!['#']);
}

/// The key of an address ends at its first `#`, and the session is all that follows; an address
/// without a `#`, or with nothing behind it, names no session.
pub proof fn address_is_split_at_the_first_mark(key: Seq<char>, rest: Seq<char>)
    requires
        !key.contains('#'),
    ensures
        route_of(key) == (RouteView { key, session: None }),
        route_of(key + seq!['#'] + rest).key == key,
        route_of(key + seq!['#'] + rest).session == if rest.len() == 0 {
            None
        } else {
            Some(rest)
        },
{
    let t = key + seq!['#'] + rest;
    assert forall|j: int| 0 <= j < key.len() implies key[j] != '#' && t[j] != '#' by {
        assert(key.contains(key[j]));
    }
    hash_index_is(key, key.len() as int);
    hash_index_is(t, key.len() as int);
    assert(t.take(key.len() as int) =~= key);
    assert(t.skip(key.len() as int + 1) =~= rest);
}

} // verus!
