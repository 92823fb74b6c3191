//! The allowlist of peers.
//!
//! A peer is a public key with a local petname. Being on the list means being admitted; the
//! default for a key that is not listed is to deny everything.
use crate::crypto::is_public_key;
use crate::encoding::{b64_round_trips, b64_text};
use crate::identity::{parse_id, AgentId, IdentityError};
use crate::json::{
    empty_object, fields_after_put, parsed_json, plain_at_greater_depth, pretty_json, with_is_found,
    with_is_plain, with_is_wf, Json, JsonTree,
};
use crate::lookup::{
    distinct_keys, key_index, key_index_is, key_index_says, key_put, key_value, put_is_found,
    put_keeps_order, sorted_keys, sorted_keys_are_distinct, sorted_place_is,
};
use crate::record::{
    front_members, is_one_record, object_front, read_one_record, spells, spells_alone, text_at,
    text_field, written_field_is_found,
};
use crate::text::{push_char, same_text, text_before, text_order_is_total};
use vstd::prelude::*;
use vstd::utf8::encode_utf8;

verus! {

/// One peer: its authenticated identity and its local petname.
#[derive(Debug, Clone)]
pub struct Peer {
    pub petname: String,
    pub id: AgentId,
}

/// Petnames with the bytes of their keys.
pub open spec fn peer_pairs(v: Seq<Peer>) -> Seq<(Seq<char>, Seq<u8>)> {
    v.map_values(|p: Peer| (p.petname@, p.id@))
}

/// What is wrong with an allowlist or with a request to change it.
pub enum PolicyFault {
    NotPolicyJson,
    InvalidKey { petname: Seq<char>, cause: IdentityError },
    SharedKey { first: Seq<char>, second: Seq<char> },
    KeyTaken { holder: Seq<char> },
    PetnameTaken { petname: Seq<char> },
    UnknownPeer { petname: Seq<char> },
}

/// What is wrong with an allowlist or with a request to change it.
#[derive(Debug, Clone, PartialEq, Eq)]
pub enum PolicyError {
    NotPolicyJson,
    InvalidKey { petname: String, cause: IdentityError },
    SharedKey { first: String, second: String },
    KeyTaken { holder: String },
    PetnameTaken { petname: String },
    UnknownPeer { petname: String },
}

impl View for PolicyError {
    type V = PolicyFault;

    open spec fn view(&self) -> PolicyFault {
        match *self {
            PolicyError::NotPolicyJson => PolicyFault::NotPolicyJson,
            PolicyError::InvalidKey { petname, cause } => PolicyFault::InvalidKey {
                petname: petname@,
                cause,
            },
            PolicyError::SharedKey { first, second } => PolicyFault::SharedKey {
                first: first@,
                second: second@,
            },
            PolicyError::KeyTaken { holder } => PolicyFault::KeyTaken { holder: holder@ },
            PolicyError::PetnameTaken { petname } => PolicyFault::PetnameTaken {
                petname: petname@,
            },
            PolicyError::UnknownPeer { petname } => PolicyFault::UnknownPeer { petname: petname@ },
        }
    }
}

impl PolicyFault {
    /// The fault in words.
    pub open spec fn words(self) -> Seq<char> {
        match self {
            PolicyFault::NotPolicyJson => "peers file is not valid policy JSON"@,
            PolicyFault::InvalidKey { petname, cause } => "peer '"@ + petname
                + "' has an invalid key: "@ + cause.words(),
            PolicyFault::SharedKey { first, second } => "peers '"@ + first + "' and '"@ + second
                + "' share the same key"@,
            PolicyFault::KeyTaken { holder } => "that key is already authorized as '"@ + holder
                + "'"@,
            PolicyFault::PetnameTaken { petname } => "petname '"@ + petname
                + "' already names a different key"@,
            PolicyFault::UnknownPeer { petname } => "unknown peer '"@ + petname + "'"@,
        }
    }
}

impl PolicyError {
    /// The fault in words.
    pub fn message(&self) -> (r: String)
        ensures
            r@ == self@.words(),
    {
        match self {
            PolicyError::NotPolicyJson => "peers file is not valid policy JSON".to_string(),
            PolicyError::InvalidKey { petname, cause } => {
                let mut out = "peer '".to_string();
                out.append(petname.as_str());
                out.append("' has an invalid key: ");
                out.append(cause.message().as_str());
                out
            },
            PolicyError::SharedKey { first, second } => {
                let mut out = "peers '".to_string();
                out.append(first.as_str());
                out.append("' and '");
                out.append(second.as_str());
                out.append("' share the same key");
                out
            },
            PolicyError::KeyTaken { holder } => {
                let mut out = "that key is already authorized as '".to_string();
                out.append(holder.as_str());
                out.append("'");
                out
            },
            PolicyError::PetnameTaken { petname } => {
                let mut out = "petname '".to_string();
                out.append(petname.as_str());
                out.append("' already names a different key");
                out
            },
            PolicyError::UnknownPeer { petname } => {
                let mut out = "unknown peer '".to_string();
                out.append(petname.as_str());
                out.append("'");
                out
            },
        }
    }
}

/// Where the first peer with this key stands; the length where there is none.
pub open spec fn id_index(p: Seq<(Seq<char>, Seq<u8>)>, id: Seq<u8>) -> nat
    decreases p.len(),
{
    if p.len() == 0 || p[0].1 == id {
        0
    } else {
        1 + id_index(p.drop_first(), id)
    }
}

proof fn id_index_is(p: Seq<(Seq<char>, Seq<u8>)>, id: Seq<u8>, i: int)
    requires
        0 <= i <= p.len(),
        i < p.len() ==> p[i].1 == id,
        forall|j: int| 0 <= j < i ==> (#[trigger] p[j]).1 != id,
    ensures
        id_index(p, id) == i,
    decreases i,
{
    if i > 0 {
        assert(p[0].1 != id);
        let s = p.drop_first();
        assert forall|j: int| 0 <= j < i - 1 implies (#[trigger] s[j]).1 != id by {
            assert(s[j] == p[j + 1]);
        }
        id_index_is(s, id, i - 1);
    }
}

/// What the index of a key says.
pub proof fn id_index_says(p: Seq<(Seq<char>, Seq<u8>)>, id: Seq<u8>)
    ensures
        id_index(p, id) <= p.len(),
        id_index(p, id) < p.len() ==> p[id_index(p, id) as int].1 == id,
        forall|j: int| 0 <= j < id_index(p, id) ==> (#[trigger] p[j]).1 != id,
    decreases p.len(),
{
    if p.len() > 0 && p[0].1 != id {
        let s = p.drop_first();
        id_index_says(s, id);
        assert forall|j: int| 0 <= j < id_index(p, id) implies (#[trigger] p[j]).1 != id by {
            if j > 0 {
                assert(p[j] == s[j - 1]);
            }
        }
    }
}

/// The petname that a key is listed under.
pub open spec fn petname_of(p: Seq<(Seq<char>, Seq<u8>)>, id: Seq<u8>) -> Option<Seq<char>> {
    let i = id_index(p, id) as int;
    if i < p.len() {
        Some(p[i].0)
    } else {
        None
    }
}

/// No key is listed twice.
pub open spec fn distinct_ids(p: Seq<(Seq<char>, Seq<u8>)>) -> bool {
    forall|i: int, j: int| 0 <= i < j < p.len() ==> (#[trigger] p[i]).1 != (#[trigger] p[j]).1
}

/// Every listed key is a public key.
pub open spec fn proper_ids(p: Seq<(Seq<char>, Seq<u8>)>) -> bool {
    forall|i: int|
        0 <= i < p.len() ==> (#[trigger] p[i]).1.len() == 32 && is_public_key(p[i].1)
}

/// An allowlist in which neither a petname nor a key is ambiguous.
pub open spec fn unambiguous(p: Seq<(Seq<char>, Seq<u8>)>) -> bool {
    distinct_keys(p) && distinct_ids(p) && proper_ids(p)
}

/// The key text of an entry that starts here: of an object its `key` field, which is given once,
/// whatever other fields it has; of a list its only member.
pub open spec fn key_text_at(b: Seq<u8>, start: int) -> Option<Seq<char>> {
    text_field(b.skip(start), "key"@, 0, 1)
}

/// The key texts of an object's members by their names, in the order of the names. A name that
/// comes again counts as it comes last, but every entry must have a key text.
pub open spec fn key_texts(b: Seq<u8>, ms: Seq<(Seq<char>, int)>) -> Option<JsonTree>
    decreases ms.len(),
{
    if ms.len() == 0 {
        Some(empty_object())
    } else {
        match (key_texts(b, ms.drop_last()), key_text_at(b, ms.last().1)) {
            (Some(t), Some(key)) => Some(t.with(ms.last().0, JsonTree::Text(key))),
            _ => None,
        }
    }
}

/// The key texts by petname that bytes of JSON write.
pub open spec fn listed_keys(b: Seq<u8>) -> Option<JsonTree> {
    if object_front(b) is Some && is_one_record(b) {
        key_texts(b, front_members(b))
    } else {
        None
    }
}

/// Every petname has a key text.
pub open spec fn entries_have_keys(fields: Seq<(Seq<char>, JsonTree)>) -> bool {
    forall|i: int| 0 <= i < fields.len() ==> (#[trigger] fields[i]).1.text() is Some
}

/// The keys of the entries, up to the first that is not one.
pub open spec fn read_entries(fields: Seq<(Seq<char>, JsonTree)>) -> Result<
    Seq<(Seq<char>, Seq<u8>)>,
    PolicyFault,
>
    decreases fields.len(),
{
    if fields.len() == 0 {
        Ok(Seq::empty())
    } else {
        match read_entries(fields.drop_last()) {
            Err(e) => Err(e),
            Ok(peers) => match parse_id(fields.last().1.text()->0) {
                Err(cause) => Err(PolicyFault::InvalidKey { petname: fields.last().0, cause }),
                Ok(id) => Ok(peers.push((fields.last().0, id))),
            },
        }
    }
}

/// The first peer from `j` on with the key of peer `i`.
pub open spec fn later_same(p: Seq<(Seq<char>, Seq<u8>)>, i: int, j: int) -> Option<int>
    decreases p.len() - j,
{
    if j >= p.len() {
        None
    } else if p[i].1 == p[j].1 {
        Some(j)
    } else {
        later_same(p, i, j + 1)
    }
}

/// The first two peers, from `i` on, with one key.
pub open spec fn first_shared(p: Seq<(Seq<char>, Seq<u8>)>, i: int) -> Option<(int, int)>
    decreases p.len() - i,
{
    if i >= p.len() {
        None
    } else {
        match later_same(p, i, i + 1) {
            Some(j) => Some((i, j)),
            None => first_shared(p, i + 1),
        }
    }
}

/// The allowlist with these key texts by petname, or what is wrong with it.
pub open spec fn policy_of(t: JsonTree) -> Result<Seq<(Seq<char>, Seq<u8>)>, PolicyFault> {
    match t {
        JsonTree::Object(fields) => if !entries_have_keys(fields) {
            Err(PolicyFault::NotPolicyJson)
        } else {
            match read_entries(fields) {
                Err(e) => Err(e),
                Ok(peers) => match first_shared(peers, 0) {
                    Some((i, j)) => Err(
                        PolicyFault::SharedKey { first: peers[i].0, second: peers[j].0 },
                    ),
                    None => Ok(peers),
                },
            }
        },
        _ => Err(PolicyFault::NotPolicyJson),
    }
}

/// The allowlist that bytes of JSON write, or what is wrong with them.
pub open spec fn policy_of_bytes(bytes: Seq<u8>) -> Result<
    Seq<(Seq<char>, Seq<u8>)>,
    PolicyFault,
> {
    match listed_keys(bytes) {
        Some(t) => policy_of(t),
        None => Err(PolicyFault::NotPolicyJson),
    }
}

/// The allowlist after a request to admit a peer, or why it is refused. The pair that is there
/// already changes nothing; a key under a second petname and a petname for a second key are
/// refused.
pub open spec fn policy_add(
    p: Seq<(Seq<char>, Seq<u8>)>,
    petname: Seq<char>,
    key: Seq<char>,
) -> Result<Seq<(Seq<char>, Seq<u8>)>, PolicyFault> {
    match parse_id(key) {
        Err(cause) => Err(PolicyFault::InvalidKey { petname, cause }),
        Ok(id) => match petname_of(p, id) {
            Some(holder) => if holder != petname {
                Err(PolicyFault::KeyTaken { holder })
            } else {
                Ok(p)
            },
            None => if key_value(p, petname) is Some {
                Err(PolicyFault::PetnameTaken { petname })
            } else {
                Ok(p.push((petname, id)))
            },
        },
    }
}

/// The allowlist without a petname.
pub open spec fn policy_remove(p: Seq<(Seq<char>, Seq<u8>)>, petname: Seq<char>) -> Seq<
    (Seq<char>, Seq<u8>),
> {
    let i = key_index(p, petname) as int;
    if i < p.len() {
        p.remove(i)
    } else {
        p
    }
}

/// The JSON object for one peer.
pub open spec fn entry_tree(id: Seq<u8>) -> JsonTree {
    empty_object().with("key"@, JsonTree::Text(b64_text(id)))
}

/// The JSON object for an allowlist.
pub open spec fn policy_tree(p: Seq<(Seq<char>, Seq<u8>)>) -> JsonTree
    decreases p.len(),
{
    if p.len() == 0 {
        empty_object()
    } else {
        policy_tree(p.drop_last()).with(p.last().0, entry_tree(p.last().1))
    }
}

/// The whole allowlist.
#[derive(Debug, Clone)]
pub struct Policy {
    peers: Vec<Peer>,
}

impl Policy {
    /// The peers: petnames with the bytes of their keys.
    pub closed spec fn view(&self) -> Seq<(Seq<char>, Seq<u8>)> {
        peer_pairs(self.peers@)
    }

    /// Neither a petname nor a key is ambiguous.
    pub open spec fn wf(&self) -> bool {
        unambiguous(self@)
    }

    /// Reads an allowlist from JSON text. Every key is checked here, so that a malformed file
    /// fails at once rather than when a message arrives.
    pub fn parse(raw: &str) -> (r: Result<Policy, PolicyError>)
        ensures
            match r {
                Ok(p) => p.wf() && policy_of_bytes(encode_utf8(raw@)) == Ok::<
                    Seq<(Seq<char>, Seq<u8>)>,
                    PolicyFault,
                >(p@),
                Err(e) => policy_of_bytes(encode_utf8(raw@)) == Err::<
                    Seq<(Seq<char>, Seq<u8>)>,
                    PolicyFault,
                >(e@),
            },
    {
        let bytes = raw.as_bytes();
        match read_keys(bytes) {
            Some(j) => Policy::from_keys(&j),
            None => Err(PolicyError::NotPolicyJson),
        }
    }

    /// The allowlist with these key texts by petname.
    pub fn from_keys(j: &Json) -> (r: Result<Policy, PolicyError>)
        requires
            j.tree().wf(),
        ensures
            match r {
                Ok(p) => p.wf() && policy_of(j.tree()) == Ok::<
                    Seq<(Seq<char>, Seq<u8>)>,
                    PolicyFault,
                >(p@),
                Err(e) => policy_of(j.tree()) == Err::<Seq<(Seq<char>, Seq<u8>)>, PolicyFault>(
                    e@,
                ),
            },
    {
        let fields = match j {
            Json::Object(fields) => fields,
            _ => return Err(PolicyError::NotPolicyJson),
        };
        let ghost f = j.tree()->Object_0;
        let mut i: usize = 0;
        while i < fields.len()
            invariant
                i <= fields@.len(),
                *j == Json::Object(*fields),
                f == j.tree()->Object_0,
                forall|k: int| 0 <= k < i ==> (#[trigger] f[k]).1.text() is Some,
            decreases fields@.len() - i,
        {
            if fields[i].1.as_str().is_none() {
                assert(f[i as int].1.text() is None);
                return Err(PolicyError::NotPolicyJson);
            }
            i += 1;
        }
        let mut peers: Vec<Peer> = Vec::new();
        let mut i: usize = 0;
        assert(peer_pairs(peers@) =~= Seq::<(Seq<char>, Seq<u8>)>::empty());
        assert(f.take(0) =~= Seq::<(Seq<char>, JsonTree)>::empty());
        while i < fields.len()
            invariant
                i <= fields@.len(),
                *j == Json::Object(*fields),
                f == j.tree()->Object_0,
                entries_have_keys(f),
                peers@.len() == i,
                read_entries(f.take(i as int)) == Ok::<Seq<(Seq<char>, Seq<u8>)>, PolicyFault>(
                    peer_pairs(peers@),
                ),
                proper_ids(peer_pairs(peers@)),
                forall|k: int| 0 <= k < i ==> (#[trigger] peers@[k]).petname@ == f[k].0,
            decreases fields@.len() - i,
        {
            let ghost done = peer_pairs(peers@);
            assert(f.take(i + 1).drop_last() =~= f.take(i as int));
            assert(f[i as int].1.text() is Some);
            let petname = fields[i].0.clone();
            let key = match fields[i].1.as_str() {
                Some(key) => key,
                None => return Err(PolicyError::NotPolicyJson),
            };
            match AgentId::from_b64(key) {
                Ok(id) => {
                    peers.push(Peer { petname, id });
                    assert(peer_pairs(peers@) =~= done.push((f[i as int].0, id@)));
                },
                Err(cause) => {
                    proof {
                        read_entries_fails_early(f, i as int + 1);
                    }
                    return Err(PolicyError::InvalidKey { petname, cause });
                },
            }
            i += 1;
        }
        assert(f.take(f.len() as int) =~= f);
        let ghost all = peer_pairs(peers@);
        let mut i: usize = 0;
        while i < peers.len()
            invariant
                i <= peers@.len(),
                all == peer_pairs(peers@),
                first_shared(all, 0) == first_shared(all, i as int),
                policy_of(j.tree()) == match first_shared(all, 0) {
                    Some((a, b)) => Err::<Seq<(Seq<char>, Seq<u8>)>, PolicyFault>(
                        PolicyFault::SharedKey { first: all[a].0, second: all[b].0 },
                    ),
                    None => Ok(all),
                },
                forall|a: int, b: int|
                    0 <= a < i && a < b < all.len() ==> (#[trigger] all[a]).1 != (
                    #[trigger] all[b]).1,
            decreases peers@.len() - i,
        {
            let mut k: usize = i + 1;
            while k < peers.len()
                invariant
                    i < k <= peers@.len(),
                    all == peer_pairs(peers@),
                    first_shared(all, 0) == first_shared(all, i as int),
                    later_same(all, i as int, i + 1) == later_same(all, i as int, k as int),
                    policy_of(j.tree()) == match first_shared(all, 0) {
                        Some((a, b)) => Err::<Seq<(Seq<char>, Seq<u8>)>, PolicyFault>(
                            PolicyFault::SharedKey { first: all[a].0, second: all[b].0 },
                        ),
                        None => Ok(all),
                    },
                    forall|b: int| i < b < k ==> all[i as int].1 != (#[trigger] all[b]).1,
                decreases peers@.len() - k,
            {
                if peers[i].id.same(&peers[k].id) {
                    assert(all[i as int].1 == all[k as int].1);
                    return Err(
                        PolicyError::SharedKey {
                            first: peers[i].petname.clone(),
                            second: peers[k].petname.clone(),
                        },
                    );
                }
                k += 1;
            }
            i += 1;
        }
        let p = Policy { peers };
        proof {
            sorted_keys_are_distinct(f);
            assert forall|a: int, b: int| 0 <= a < b < all.len() implies (#[trigger] all[a]).0 != (
            #[trigger] all[b]).0 by {
                assert(peers@[a].petname@ == f[a].0 && peers@[b].petname@ == f[b].0);
                assert(f[a].0 != f[b].0);
            }
        }
        Ok(p)
    }

    /// The peer that a key is listed for; `None` where it is not on the list.
    pub fn peer(&self, id: AgentId) -> (r: Option<&Peer>)
        ensures
            match r {
                Some(p) => p.id@ == id@ && petname_of(self@, id@) == Some(p.petname@),
                None => petname_of(self@, id@) is None,
            },
    {
        let mut i: usize = 0;
        while i < self.peers.len()
            invariant
                i <= self.peers@.len(),
                forall|j: int| 0 <= j < i ==> (#[trigger] self@[j]).1 != id@,
            decreases self.peers@.len() - i,
        {
            if self.peers[i].id.same(&id) {
                proof {
                    assert(self@[i as int].1 == id@);
                    id_index_is(self@, id@, i as int);
                }
                return Some(&self.peers[i]);
            }
            assert(self@[i as int].1 != id@);
            i += 1;
        }
        proof {
            id_index_is(self@, id@, i as int);
        }
        None
    }

    fn position(&self, petname: &str) -> (r: usize)
        ensures
            r == key_index(self@, petname@),
            r <= self.peers@.len(),
    {
        let mut i: usize = 0;
        while i < self.peers.len()
            invariant
                i <= self.peers@.len(),
                forall|j: int| 0 <= j < i ==> (#[trigger] self@[j]).0 != petname@,
            decreases self.peers@.len() - i,
        {
            if same_text(self.peers[i].petname.as_str(), petname) {
                proof {
                    assert(self@[i as int].0 == petname@);
                    key_index_is(self@, petname@, i as int);
                }
                return i;
            }
            assert(self@[i as int].0 != petname@);
            i += 1;
        }
        proof {
            key_index_is(self@, petname@, i as int);
        }
        i
    }

    /// The key that a petname names, for sending.
    pub fn resolve(&self, petname: &str) -> (r: Result<AgentId, PolicyError>)
        ensures
            match r {
                Ok(id) => key_value(self@, petname@) == Some(id@),
                Err(e) => key_value(self@, petname@) is None && e@ == (
                PolicyFault::UnknownPeer { petname: petname@ }),
            },
    {
        let i = self.position(petname);
        if i < self.peers.len() {
            Ok(self.peers[i].id)
        } else {
            Err(PolicyError::UnknownPeer { petname: petname.to_string() })
        }
    }

    /// How many peers are listed.
    pub fn len(&self) -> (r: usize)
        ensures
            r == self@.len(),
    {
        self.peers.len()
    }

    /// Whether nobody is listed.
    pub fn is_empty(&self) -> (r: bool)
        ensures
            r == (self@.len() == 0),
    {
        self.peers.len() == 0
    }

    /// All peers, for listing.
    pub fn peers(&self) -> (r: &Vec<Peer>)
        ensures
            peer_pairs(r@) == self@,
    {
        &self.peers
    }

    /// Admits a peer. The pair that is there already changes nothing. A petname that names a
    /// different key, and a key that is held under a different petname, are refused: either would
    /// make the lookup of an authenticated sender ambiguous.
    pub fn add(&mut self, petname: &str, key_b64: &str) -> (r: Result<(), PolicyError>)
        requires
            old(self).wf(),
        ensures
            final(self).wf(),
            match r {
                Ok(()) => policy_add(old(self)@, petname@, key_b64@) == Ok::<
                    Seq<(Seq<char>, Seq<u8>)>,
                    PolicyFault,
                >(final(self)@),
                Err(e) => final(self)@ == old(self)@ && policy_add(
                    old(self)@,
                    petname@,
                    key_b64@,
                ) == Err::<Seq<(Seq<char>, Seq<u8>)>, PolicyFault>(e@),
            },
    {
        let id = match AgentId::from_b64(key_b64) {
            Ok(id) => id,
            Err(cause) => {
                return Err(PolicyError::InvalidKey { petname: petname.to_string(), cause });
            },
        };
        match self.peer(id) {
            Some(holder) => {
                if same_text(holder.petname.as_str(), petname) {
                    return Ok(());
                }
                return Err(PolicyError::KeyTaken { holder: holder.petname.clone() });
            },
            None => {},
        }
        if self.position(petname) < self.peers.len() {
            return Err(PolicyError::PetnameTaken { petname: petname.to_string() });
        }
        let ghost before = self@;
        self.peers.push(Peer { petname: petname.to_string(), id });
        proof {
            assert(self@ =~= before.push((petname@, id@)));
            key_index_says(before, petname@);
            id_index_says(before, id@);
            assert(unambiguous(self@)) by {
                let after = self@;
                let n = before.len() as int;
                assert forall|i: int, j: int| 0 <= i < j < after.len() implies (
                #[trigger] after[i]).0 != (#[trigger] after[j]).0 by {
                    if j == n {
                        assert(before[i].0 != petname@);
                    } else {
                        assert(before[i].0 != before[j].0);
                    }
                }
                assert forall|i: int, j: int| 0 <= i < j < after.len() implies (
                #[trigger] after[i]).1 != (#[trigger] after[j]).1 by {
                    if j == n {
                        assert(before[i].1 != id@);
                    } else {
                        assert(before[i].1 != before[j].1);
                    }
                }
                assert forall|i: int| 0 <= i < after.len() implies (#[trigger] after[i]).1.len()
                    == 32 && is_public_key(after[i].1) by {
                    if i < n {
                        assert(before[i].1.len() == 32);
                    }
                }
            }
        }
        Ok(())
    }

    /// Removes a peer by petname, and says whether there was one.
    pub fn remove(&mut self, petname: &str) -> (r: bool)
        requires
            old(self).wf(),
        ensures
            final(self).wf(),
            final(self)@ == policy_remove(old(self)@, petname@),
            r == (key_value(old(self)@, petname@) is Some),
    {
        let i = self.position(petname);
        if i < self.peers.len() {
            let ghost before = self@;
            let _ = self.peers.remove(i);
            proof {
                assert(self@ =~= before.remove(i as int));
                let after = self@;
                assert forall|a: int| 0 <= a < after.len() implies #[trigger] after[a] == if a
                    < i {
                    before[a]
                } else {
                    before[a + 1]
                } by {}
                assert(unambiguous(after));
            }
            true
        } else {
            false
        }
    }

    /// The allowlist as a JSON object.
    pub fn to_tree(&self) -> (r: Json)
        ensures
            r.tree() == policy_tree(self@),
            r.tree().wf(),
            r.tree().plain(127),
    {
        let mut out = Json::object();
        let mut i: usize = 0;
        assert(self@.take(0) =~= Seq::<(Seq<char>, Seq<u8>)>::empty());
        while i < self.peers.len()
            invariant
                i <= self.peers@.len(),
                out.tree() == policy_tree(self@.take(i as int)),
                out.tree().wf(),
                out.tree().plain(127),
            decreases self.peers@.len() - i,
        {
            let key = self.peers[i].id.to_b64();
            let entry = Json::object().with("key", Json::Text(key));
            proof {
                assert(self@.take(i + 1).drop_last() =~= self@.take(i as int));
                with_is_plain(empty_object(), "key"@, JsonTree::Text(key@), 1);
                plain_at_greater_depth(entry.tree(), 1, 126);
                with_is_plain(out.tree(), self@[i as int].0, entry.tree(), 127);
            }
            out = out.with(self.peers[i].petname.as_str(), entry);
            i += 1;
        }
        assert(self@.take(self@.len() as int) =~= self@);
        out
    }

    /// The allowlist as JSON text, which reads as the same allowlist.
    pub fn to_json(&self) -> (r: String)
        ensures
            r@ == pretty_json(policy_tree(self@)),
            parsed_json(encode_utf8(r@)) == Some(policy_tree(self@)),
            policy_of_bytes(encode_utf8(r@)) == policy_of(keys_in(policy_tree(self@))),
            policy_of_bytes(encode_utf8(r@.push('\n'))) == policy_of(keys_in(policy_tree(self@))),
    {
        let r = self.to_tree().to_pretty_text();
        proof {
            policy_tree_holds_entries(self@);
            written_keys_are_listed(encode_utf8(r@), policy_tree(self@));
            written_keys_are_listed(encode_utf8(r@.push('\n')), policy_tree(self@));
        }
        r
    }

    /// What the peers file holds: the JSON text and a line end. It reads as the same allowlist.
    pub fn to_file_text(&self) -> (r: String)
        ensures
            r@ == pretty_json(policy_tree(self@)).push('\n'),
            policy_of_bytes(encode_utf8(r@)) == policy_of(keys_in(policy_tree(self@))),
    {
        let mut out = self.to_json();
        push_char(&mut out, '\n');
        out
    }

    /// A copy of the allowlist.
    pub fn copy(&self) -> (r: Policy)
        ensures
            r@ == self@,
    {
        let mut peers: Vec<Peer> = Vec::new();
        let mut i: usize = 0;
        while i < self.peers.len()
            invariant
                i <= self.peers@.len(),
                peer_pairs(peers@) == self@.take(i as int),
            decreases self.peers@.len() - i,
        {
            let ghost done = peer_pairs(peers@);
            peers.push(Peer { petname: self.peers[i].petname.clone(), id: self.peers[i].id });
            assert(peer_pairs(peers@) =~= done.push(self@[i as int]));
            assert(self@.take(i + 1) =~= self@.take(i as int).push(self@[i as int]));
            i += 1;
        }
        assert(self@.take(self@.len() as int) =~= self@);
        Policy { peers }
    }
}

impl Default for Policy {
    fn default() -> (r: Policy)
        ensures
            r@.len() == 0,
            r.wf(),
    {
        Policy { peers: Vec::new() }
    }
}

fn read_keys(bytes: &[u8]) -> (r: Option<Json>)
    ensures
        match r {
            Some(j) => listed_keys(bytes@) == Some(j.tree()) && j.tree().wf(),
            None => listed_keys(bytes@) is None,
        },
{
    let record = match read_one_record(bytes) {
        Some(record) => record,
        None => return None,
    };
    let members = match record.members(bytes) {
        Some(v) => v,
        None => return None,
    };
    let ghost ms = front_members(bytes@);
    let mut out = Json::object();
    let mut i: usize = 0;
    assert(ms.take(0) =~= Seq::<(Seq<char>, int)>::empty());
    while i < members.len()
        invariant
            i <= members@.len(),
            ms == front_members(bytes@),
            ms.len() == members@.len(),
            forall|k: int|
                0 <= k < members@.len() ==> (#[trigger] members@[k]).1 <= bytes@.len() && ms[k] == (
                    members@[k].0@,
                    members@[k].1 as int,
                ),
            listed_keys(bytes@) == key_texts(bytes@, ms),
            key_texts(bytes@, ms.take(i as int)) == Some(out.tree()),
            out.tree().wf(),
        decreases members@.len() - i,
    {
        assert(ms.take(i + 1).drop_last() =~= ms.take(i as int));
        assert(ms[i as int] == (members@[i as int].0@, members@[i as int].1 as int));
        match text_at(bytes, members[i].1, "key", 0, 1) {
            Some(key) => {
                out = out.with(members[i].0.as_str(), Json::Text(key));
            },
            None => {
                proof {
                    keys_fail_early(bytes@, ms, i + 1);
                }
                return None;
            },
        }
        i += 1;
    }
    assert(ms.take(ms.len() as int) =~= ms);
    Some(out)
}

proof fn keys_fail_early(b: Seq<u8>, ms: Seq<(Seq<char>, int)>, n: int)
    requires
        0 <= n <= ms.len(),
        key_texts(b, ms.take(n)) is None,
    ensures
        key_texts(b, ms) is None,
    decreases ms.len() - n,
{
    if n < ms.len() {
        assert(ms.take(n + 1).drop_last() =~= ms.take(n));
        keys_fail_early(b, ms, n + 1);
    } else {
        assert(ms.take(n) =~= ms);
    }
}

/// The key texts of an object of entries, by petname.
pub open spec fn keys_in(t: JsonTree) -> JsonTree {
    JsonTree::Object(
        t->Object_0.map_values(
            |f: (Seq<char>, JsonTree)| (f.0, JsonTree::Text(f.1.get_text("key"@)->0)),
        ),
    )
}

/// The value is an object of entries that have a key text each.
pub open spec fn holds_entries(t: JsonTree) -> bool {
    &&& t is Object
    &&& t.wf()
    &&& forall|i: int|
        0 <= i < t->Object_0.len() ==> (#[trigger] t->Object_0[i]).1 is Object
            && t->Object_0[i].1.get_text("key"@) is Some
}

proof fn sorted_put_is_last(fields: Seq<(Seq<char>, JsonTree)>, key: Seq<char>, value: JsonTree)
    requires
        forall|i: int| 0 <= i < fields.len() ==> text_before((#[trigger] fields[i]).0, key),
    ensures
        key_put(fields, key, value) == fields.push((key, value)),
{
    assert forall|i: int| 0 <= i < fields.len() implies (#[trigger] fields[i]).0 != key by {
        text_order_is_total(fields[i].0, key);
    }
    key_index_is(fields, key, fields.len() as int);
    sorted_place_is(fields, key, fields.len() as int);
    assert(fields.insert(fields.len() as int, (key, value)) =~= fields.push((key, value)));
}

proof fn keys_are_folded(b: Seq<u8>, t: JsonTree, n: int)
    requires
        holds_entries(t),
        spells(b, t),
        0 <= n <= t->Object_0.len(),
    ensures
        key_texts(b, front_members(b).take(n)) == Some(
            JsonTree::Object(keys_in(t)->Object_0.take(n)),
        ),
    decreases n,
{
    let ms = front_members(b);
    let fields = t->Object_0;
    let keys = keys_in(t)->Object_0;
    if n == 0 {
        assert(ms.take(0) =~= Seq::<(Seq<char>, int)>::empty());
        assert(keys.take(0) =~= Seq::<(Seq<char>, JsonTree)>::empty());
    } else {
        keys_are_folded(b, t, n - 1);
        assert(ms.take(n).drop_last() =~= ms.take(n - 1));
        let field = fields[n - 1];
        assert(field.0 == ms[n - 1].0);
        assert(field.1 is Object && field.1.wf());
        written_field_is_found(b.skip(ms[n - 1].1), field.1, "key"@, 0, 1);
        let before = keys.take(n - 1);
        assert forall|i: int| 0 <= i < before.len() implies text_before(
            (#[trigger] before[i]).0,
            field.0,
        ) by {
            assert(before[i].0 == fields[i].0);
        }
        sorted_put_is_last(before, field.0, keys[n - 1].1);
        assert(keys.take(n) =~= before.push(keys[n - 1]));
    }
}

/// What is written for an object of entries has their key texts, by petname.
pub proof fn written_keys_are_listed(written: Seq<u8>, t: JsonTree)
    requires
        holds_entries(t),
        spells_alone(written, t),
    ensures
        listed_keys(written) == Some(keys_in(t)),
{
    let n = t->Object_0.len() as int;
    keys_are_folded(written, t, n);
    assert(front_members(written).take(n) =~= front_members(written));
    assert(keys_in(t)->Object_0.take(n) =~= keys_in(t)->Object_0);
}

proof fn policy_tree_holds_entries(p: Seq<(Seq<char>, Seq<u8>)>)
    ensures
        holds_entries(policy_tree(p)),
    decreases p.len(),
{
    if p.len() > 0 {
        let before = policy_tree(p.drop_last());
        let entry = entry_tree(p.last().1);
        policy_tree_holds_entries(p.drop_last());
        with_is_wf(empty_object(), "key"@, JsonTree::Text(b64_text(p.last().1)));
        with_is_found(empty_object(), "key"@, JsonTree::Text(b64_text(p.last().1)), "key"@);
        with_is_wf(before, p.last().0, entry);
        let fields = policy_tree(p)->Object_0;
        assert forall|i: int| 0 <= i < fields.len() implies (#[trigger] fields[i]).1 is Object
            && fields[i].1.get_text("key"@) is Some by {
            fields_after_put(before->Object_0, p.last().0, entry, i);
        }
    }
}

proof fn read_entries_fails_early(fields: Seq<(Seq<char>, JsonTree)>, n: int)
    requires
        0 <= n <= fields.len(),
        read_entries(fields.take(n)) is Err,
    ensures
        read_entries(fields) == read_entries(fields.take(n)),
    decreases fields.len() - n,
{
    if n < fields.len() {
        assert(fields.take(n + 1).drop_last() =~= fields.take(n));
        read_entries_fails_early(fields, n + 1);
    } else {
        assert(fields.take(n) =~= fields);
    }
}

proof fn last_is_found<V>(t: Seq<(Seq<char>, V)>, key: Seq<char>, value: V, name: Seq<char>)
    ensures
        key_value(t.push((key, value)), name) == match key_value(t, name) {
            Some(v) => Some(v),
            None => if name == key {
                Some(value)
            } else {
                None
            },
        },
{
    let s = t.push((key, value));
    key_index_says(t, name);
    let i = key_index(t, name) as int;
    if i < t.len() || name == key {
        assert forall|j: int| 0 <= j < i implies (#[trigger] s[j]).0 != name by {
            assert(t[j].0 != name);
        }
        key_index_is(s, name, i);
    } else {
        assert forall|j: int| 0 <= j < s.len() implies (#[trigger] s[j]).0 != name by {
            if j < t.len() {
                assert(t[j].0 != name);
            }
        }
        key_index_is(s, name, s.len() as int);
    }
}

proof fn policy_tree_fields(p: Seq<(Seq<char>, Seq<u8>)>)
    requires
        distinct_keys(p),
    ensures
        policy_tree(p) is Object,
        sorted_keys(policy_tree(p)->Object_0),
        policy_tree(p)->Object_0.len() == p.len(),
        forall|name: Seq<char>| #[trigger]
            key_value(policy_tree(p)->Object_0, name) == match key_value(p, name) {
                Some(id) => Some(entry_tree(id)),
                None => None::<JsonTree>,
            },
    decreases p.len(),
{
    if p.len() == 0 {
        assert forall|name: Seq<char>| #[trigger]
            key_value(policy_tree(p)->Object_0, name) == match key_value(p, name) {
                Some(id) => Some(entry_tree(id)),
                None => None::<JsonTree>,
            } by {}
    } else {
        let q = p.drop_last();
        assert(distinct_keys(q));
        policy_tree_fields(q);
        let f = policy_tree(q)->Object_0;
        let key = p.last().0;
        let value = entry_tree(p.last().1);
        put_keeps_order(f, key, value);
        sorted_keys_are_distinct(f);
        assert(p =~= q.push(p.last()));
        key_index_says(q, key);
        assert(key_value(q, key) is None) by {
            let i = key_index(q, key) as int;
            if i < q.len() {
                assert(p[i].0 == key && p[p.len() - 1].0 == key);
            }
        }
        key_index_says(f, key);
        assert(key_value(f, key) is None);
        assert forall|name: Seq<char>| #[trigger]
            key_value(policy_tree(p)->Object_0, name) == match key_value(p, name) {
                Some(id) => Some(entry_tree(id)),
                None => None::<JsonTree>,
            } by {
            put_is_found(f, key, value, name);
            last_is_found(q, key, p.last().1, name);
            let _ = key_value(f, name);
        }
        crate::lookup::sorted_place_says(f, key);
    }
}

proof fn no_shared(p: Seq<(Seq<char>, Seq<u8>)>, i: int)
    requires
        distinct_ids(p),
        0 <= i,
    ensures
        first_shared(p, i) is None,
    decreases p.len() - i,
{
    if i < p.len() {
        no_later(p, i, i + 1);
        no_shared(p, i + 1);
    }
}

proof fn no_later(p: Seq<(Seq<char>, Seq<u8>)>, i: int, j: int)
    requires
        distinct_ids(p),
        0 <= i < j,
    ensures
        later_same(p, i, j) is None,
    decreases p.len() - j,
{
    if j < p.len() {
        assert(p[i].1 != p[j].1);
        no_later(p, i, j + 1);
    }
}

proof fn entries_read_back(
    fields: Seq<(Seq<char>, JsonTree)>,
    q: Seq<(Seq<char>, Seq<u8>)>,
)
    requires
        q.len() == fields.len(),
        forall|i: int|
            0 <= i < fields.len() ==> (#[trigger] fields[i]).0 == q[i].0 && fields[i].1.text()
                is Some && parse_id(fields[i].1.text()->0) == Ok::<Seq<u8>, IdentityError>(q[i].1),
    ensures
        read_entries(fields) == Ok::<Seq<(Seq<char>, Seq<u8>)>, PolicyFault>(q),
    decreases fields.len(),
{
    if fields.len() == 0 {
        assert(q =~= Seq::empty());
    } else {
        let n = fields.len() - 1;
        assert(fields[n].0 == q[n].0);
        entries_read_back(fields.drop_last(), q.drop_last());
        assert(q =~= q.drop_last().push(q.last()));
    }
}

/// What is written for an unambiguous allowlist reads as the same allowlist, in the order of its
/// petnames.
pub proof fn policy_round_trips(p: Seq<(Seq<char>, Seq<u8>)>) -> (q: Seq<(Seq<char>, Seq<u8>)>)
    requires
        unambiguous(p),
    ensures
        policy_of(keys_in(policy_tree(p))) == Ok::<Seq<(Seq<char>, Seq<u8>)>, PolicyFault>(q),
        sorted_keys(q),
        q.len() == p.len(),
        forall|name: Seq<char>| #[trigger] key_value(q, name) == key_value(p, name),
{
    policy_tree_fields(p);
    let f = policy_tree(p)->Object_0;
    let g = keys_in(policy_tree(p))->Object_0;
    sorted_keys_are_distinct(f);
    let q = Seq::new(f.len(), |i: int| (f[i].0, key_value(p, f[i].0)->0));
    assert forall|i: int| 0 <= i < g.len() implies (#[trigger] g[i]).0 == q[i].0 && g[i].1.text()
        is Some && parse_id(g[i].1.text()->0) == Ok::<Seq<u8>, IdentityError>(q[i].1) && key_value(
        p,
        f[i].0,
    ) == Some(q[i].1) by {
        let name = f[i].0;
        assert forall|j: int| 0 <= j < i implies (#[trigger] f[j]).0 != name by {}
        key_index_is(f, name, i);
        assert(key_value(f, name) == Some(f[i].1));
        let id = key_value(p, name)->0;
        assert(f[i].1 == entry_tree(id));
        key_index_says(p, name);
        let k = key_index(p, name) as int;
        assert(p[k].1 == id && p[k].1.len() == 32);
        with_is_found(empty_object(), "key"@, JsonTree::Text(b64_text(id)), "key"@);
        b64_round_trips(id);
    }
    assert forall|i: int| 0 <= i < f.len() implies (#[trigger] f[i]).0 == q[i].0 && key_value(
        p,
        f[i].0,
    ) == Some(q[i].1) by {
        assert(g[i].0 == q[i].0);
    }
    entries_read_back(g, q);
    assert forall|i: int, j: int| 0 <= i < j < q.len() implies (#[trigger] q[i]).1 != (
    #[trigger] q[j]).1 by {
        assert(f[i].0 == q[i].0 && f[j].0 == q[j].0);
        key_index_says(p, f[i].0);
        key_index_says(p, f[j].0);
        let a = key_index(p, f[i].0) as int;
        let b = key_index(p, f[j].0) as int;
        assert(p[a].0 != p[b].0);
        if a < b {
            assert(p[a].1 != p[b].1);
        } else {
            assert(p[b].1 != p[a].1);
        }
    }
    no_shared(q, 0);
    assert forall|i: int, j: int| 0 <= i < j < q.len() implies crate::text::text_before(
        (#[trigger] q[i]).0,
        (#[trigger] q[j]).0,
    ) by {
        assert(f[i].0 == q[i].0 && f[j].0 == q[j].0);
    }
    assert forall|name: Seq<char>| #[trigger] key_value(q, name) == key_value(p, name) by {
        key_index_says(f, name);
        let i = key_index(f, name) as int;
        assert forall|j: int| 0 <= j < i implies (#[trigger] q[j]).0 != name by {
            assert(f[j].0 != name);
        }
        if i < f.len() {
            assert(f[i].0 == q[i].0);
        }
        key_index_is(q, name, i);
        let _ = key_value(f, name);
        if i < f.len() {
            assert(key_value(f, name) == Some(f[i].1));
        } else {
            assert(key_value(f, name) is None);
        }
    }
    q
}

/// A peer that was admitted is found by its petname and by its key; the petname and the key of
/// another peer keep their meaning.
pub proof fn admitted_is_found(
    p: Seq<(Seq<char>, Seq<u8>)>,
    petname: Seq<char>,
    key: Seq<char>,
    after: Seq<(Seq<char>, Seq<u8>)>,
    name: Seq<char>,
    id: Seq<u8>,
)
    requires
        unambiguous(p),
        policy_add(p, petname, key) == Ok::<Seq<(Seq<char>, Seq<u8>)>, PolicyFault>(after),
    ensures
        parse_id(key) is Ok,
        key_value(after, petname) == Some(parse_id(key)->Ok_0),
        petname_of(after, parse_id(key)->Ok_0) == Some(petname),
        name != petname ==> key_value(after, name) == key_value(p, name),
        id != parse_id(key)->Ok_0 ==> petname_of(after, id) == petname_of(p, id),
{
    let new = parse_id(key)->Ok_0;
    id_index_says(p, new);
    key_index_says(p, petname);
    if petname_of(p, new) is Some {
        let i = id_index(p, new) as int;
        assert forall|j: int| 0 <= j < i implies (#[trigger] p[j]).0 != petname by {
            assert(p[i].0 == petname);
        }
        key_index_is(p, petname, i);
    } else {
        last_is_found(p, petname, new, petname);
        last_is_found(p, petname, new, name);
        assert forall|j: int| 0 <= j < p.len() implies (#[trigger] after[j]).1 != new by {
            assert(p[j].1 != new);
        }
        id_index_is(after, new, p.len() as int);
        if id != new {
            id_index_says(p, id);
            let i = id_index(p, id) as int;
            if i < p.len() {
                assert forall|j: int| 0 <= j < i implies (#[trigger] after[j]).1 != id by {
                    assert(p[j].1 != id);
                }
                id_index_is(after, id, i);
            } else {
                assert forall|j: int| 0 <= j < after.len() implies (#[trigger] after[j]).1 != id by {
                    if j < p.len() {
                        assert(p[j].1 != id);
                    }
                }
                id_index_is(after, id, after.len() as int);
            }
        }
    }
}

/// A petname that was removed names nobody, and admits its key no longer.
pub proof fn removed_is_denied(p: Seq<(Seq<char>, Seq<u8>)>, petname: Seq<char>, id: Seq<u8>)
    requires
        unambiguous(p),
    ensures
        key_value(policy_remove(p, petname), petname) is None,
        key_value(p, petname) == Some(id) ==> petname_of(policy_remove(p, petname), id) is None,
{
    key_index_says(p, petname);
    let i = key_index(p, petname) as int;
    let after = policy_remove(p, petname);
    if i < p.len() {
        assert forall|j: int| 0 <= j < after.len() implies (#[trigger] after[j]).0 != petname
            && after[j].1 != p[i].1 by {
            if j < i {
                assert(after[j] == p[j]);
            } else {
                assert(after[j] == p[j + 1]);
            }
        }
        key_index_is(after, petname, after.len() as int);
        id_index_is(after, p[i].1, after.len() as int);
    }
}

/// A key has a petname if and only if it is listed, and it is the one that it is listed under
/// first.
pub proof fn petname_is_the_listed_one(p: Seq<(Seq<char>, Seq<u8>)>, id: Seq<u8>)
    ensures
        petname_of(p, id) is None <==> forall|i: int| 0 <= i < p.len() ==> (#[trigger] p[i]).1 != id,
        petname_of(p, id) matches Some(name) ==> exists|i: int|
            0 <= i < p.len() && #[trigger] p[i] == (name, id) && forall|j: int|
                0 <= j < i ==> (#[trigger] p[j]).1 != id,
{
    id_index_says(p, id);
    let i = id_index(p, id) as int;
    if i < p.len() {
        assert(p[i].1 == id);
        assert(p[i] == (p[i].0, id));
    }
}

/// A peer is admitted if and only if its text is a key and either that key is listed under this
/// very petname, in which case nothing changes, or neither the key nor the petname is listed, in
/// which case the pair is the last of the list and the others stay as they are.
pub proof fn admission_is_by_key_and_name(
    p: Seq<(Seq<char>, Seq<u8>)>,
    petname: Seq<char>,
    key: Seq<char>,
)
    requires
        unambiguous(p),
    ensures
        policy_add(p, petname, key) is Ok <==> parse_id(key) is Ok && (p.contains(
            (petname, parse_id(key)->Ok_0),
        ) || forall|i: int|
            0 <= i < p.len() ==> (#[trigger] p[i]).0 != petname && p[i].1 != parse_id(key)->Ok_0),
        policy_add(p, petname, key) matches Ok(after) ==> after == if p.contains(
            (petname, parse_id(key)->Ok_0),
        ) {
            p
        } else {
            p.push((petname, parse_id(key)->Ok_0))
        },
        policy_add(p, petname, key) matches Err(PolicyFault::InvalidKey { petname: name, cause })
            ==> name == petname && parse_id(key) == Err::<Seq<u8>, IdentityError>(cause),
        policy_add(p, petname, key) matches Err(PolicyFault::KeyTaken { holder }) ==> parse_id(key)
            is Ok && p.contains((holder, parse_id(key)->Ok_0)) && holder != petname,
        policy_add(p, petname, key) matches Err(PolicyFault::PetnameTaken { petname: name }) ==> name
            == petname && parse_id(key) is Ok && exists|i: int|
            0 <= i < p.len() && (#[trigger] p[i]).0 == petname && p[i].1 != parse_id(key)->Ok_0,
{
    if let Ok(id) = parse_id(key) {
        petname_is_the_listed_one(p, id);
        crate::lookup::value_is_of_the_first_entry(p, petname);
        if p.contains((petname, id)) {
            let k = choose|k: int| 0 <= k < p.len() && p[k] == (petname, id);
            assert(p[k].1 == id);
            id_index_is(p, id, k);
        }
        if let Some(holder) = petname_of(p, id) {
            let i = id_index(p, id) as int;
            id_index_says(p, id);
            assert(p[i] == (holder, id));
            assert(p.contains((holder, id)));
        }
    }
}

/// Revoking a petname takes its entry from the list and leaves the others as they are, in their
/// order.
pub proof fn revoking_takes_one_entry(p: Seq<(Seq<char>, Seq<u8>)>, petname: Seq<char>)
    requires
        unambiguous(p),
    ensures
        key_value(p, petname) is None ==> policy_remove(p, petname) == p,
        key_value(p, petname) is Some ==> exists|k: int|
            0 <= k < p.len() && (#[trigger] p[k]).0 == petname && policy_remove(p, petname)
                == p.take(k) + p.skip(k + 1),
        forall|e: (Seq<char>, Seq<u8>)| #[trigger]
            policy_remove(p, petname).contains(e) <==> p.contains(e) && e.0 != petname,
{
    key_index_says(p, petname);
    let k = key_index(p, petname) as int;
    let after = policy_remove(p, petname);
    if k < p.len() {
        assert(after =~= p.take(k) + p.skip(k + 1));
        assert(p[k].0 == petname);
        assert forall|e: (Seq<char>, Seq<u8>)| #[trigger]
            after.contains(e) <==> p.contains(e) && e.0 != petname by {
            if after.contains(e) {
                let i = choose|i: int| 0 <= i < after.len() && after[i] == e;
                let at = if i < k {
                    i
                } else {
                    i + 1
                };
                assert(p[at] == e);
                assert(p[at].0 != p[k].0) by {
                    if at < k {
                        assert(p[at].0 != p[k].0);
                    } else {
                        assert(p[k].0 != p[at].0);
                    }
                }
            }
            if p.contains(e) && e.0 != petname {
                let i = choose|i: int| 0 <= i < p.len() && p[i] == e;
                let at = if i < k {
                    i
                } else {
                    i - 1
                };
                assert(after[at] == e);
            }
        }
    } else {
        assert forall|e: (Seq<char>, Seq<u8>)| #[trigger]
            after.contains(e) <==> p.contains(e) && e.0 != petname by {
            if p.contains(e) {
                let i = choose|i: int| 0 <= i < p.len() && p[i] == e;
                assert(p[i].0 != petname);
            }
        }
    }
}

proof fn shared_is_found(p: Seq<(Seq<char>, Seq<u8>)>, i: int)
    requires
        0 <= i,
    ensures
        first_shared(p, i) matches Some((a, b)) ==> i <= a < b < p.len() && p[a].1 == p[b].1,
        first_shared(p, i) is None ==> forall|a: int, b: int|
            i <= a < b < p.len() ==> (#[trigger] p[a]).1 != (#[trigger] p[b]).1,
    decreases p.len() - i,
{
    if i < p.len() {
        later_is_found(p, i, i + 1);
        shared_is_found(p, i + 1);
        if first_shared(p, i) is None {
            assert forall|a: int, b: int| i <= a < b < p.len() implies (#[trigger] p[a]).1 != (
            #[trigger] p[b]).1 by {
                if a == i {
                    assert(p[i].1 != p[b].1);
                }
            }
        }
    }
}

proof fn later_is_found(p: Seq<(Seq<char>, Seq<u8>)>, i: int, j: int)
    requires
        0 <= i < j,
    ensures
        later_same(p, i, j) matches Some(b) ==> j <= b < p.len() && p[i].1 == p[b].1,
        later_same(p, i, j) is None ==> forall|b: int|
            j <= b < p.len() ==> p[i].1 != (#[trigger] p[b]).1,
    decreases p.len() - j,
{
    if j < p.len() {
        later_is_found(p, i, j + 1);
    }
}

proof fn entries_are_read_in_order(fields: Seq<(Seq<char>, JsonTree)>)
    requires
        entries_have_keys(fields),
    ensures
        read_entries(fields) matches Ok(p) ==> p.len() == fields.len() && forall|i: int|
            0 <= i < fields.len() ==> (#[trigger] p[i]).0 == fields[i].0 && parse_id(
                fields[i].1.text()->0,
            ) == Ok::<Seq<u8>, IdentityError>(p[i].1),
        read_entries(fields) matches Err(e) ==> exists|i: int|
            0 <= i < fields.len() && parse_id((#[trigger] fields[i]).1.text()->0) is Err && e
                == (PolicyFault::InvalidKey {
                petname: fields[i].0,
                cause: parse_id(fields[i].1.text()->0)->Err_0,
            }) && forall|j: int|
                0 <= j < i ==> parse_id((#[trigger] fields[j]).1.text()->0) is Ok,
    decreases fields.len(),
{
    if fields.len() > 0 {
        let front = fields.drop_last();
        let n = front.len() as int;
        assert forall|i: int| 0 <= i < n implies #[trigger] front[i] == fields[i] by {}
        assert forall|i: int| 0 <= i < front.len() implies (#[trigger] front[i]).1.text() is Some by {
            assert(fields[i].1.text() is Some);
        }
        entries_are_read_in_order(front);
        assert(fields[n] == fields.last());
        match read_entries(front) {
            Err(e) => {
                let i = choose|i: int|
                    0 <= i < front.len() && parse_id((#[trigger] front[i]).1.text()->0) is Err && e
                        == (PolicyFault::InvalidKey {
                        petname: front[i].0,
                        cause: parse_id(front[i].1.text()->0)->Err_0,
                    }) && forall|j: int|
                        0 <= j < i ==> parse_id((#[trigger] front[j]).1.text()->0) is Ok;
                assert(parse_id(fields[i].1.text()->0) is Err);
                assert forall|j: int| 0 <= j < i implies parse_id(
                    (#[trigger] fields[j]).1.text()->0,
                ) is Ok by {
                    assert(front[j] == fields[j]);
                }
            },
            Ok(peers) => {
                if let Ok(p) = read_entries(fields) {
                    assert forall|i: int| 0 <= i < fields.len() implies (#[trigger] p[i]).0
                        == fields[i].0 && parse_id(fields[i].1.text()->0) == Ok::<
                        Seq<u8>,
                        IdentityError,
                    >(p[i].1) by {
                        if i < n {
                            assert(p[i] == peers[i]);
                            assert(front[i] == fields[i]);
                        }
                    }
                } else {
                    assert(parse_id(fields[n].1.text()->0) is Err);
                    assert forall|j: int| 0 <= j < n implies parse_id(
                        (#[trigger] fields[j]).1.text()->0,
                    ) is Ok by {
                        assert(front[j] == fields[j]);
                        assert(peers[j].0 == front[j].0);
                    }
                }
            },
        }
    }
}

/// An allowlist is read if and only if every petname has a text that is a key, and no two have the
/// same key; it then lists just these petnames with their keys, in their order. Otherwise it is
/// said which petname has no valid key, the first such, or which two share one.
pub proof fn allowlist_is_read_entry_by_entry(fields: Seq<(Seq<char>, JsonTree)>)
    ensures
        policy_of(JsonTree::Object(fields)) is Ok <==> {
            &&& forall|i: int|
                0 <= i < fields.len() ==> (#[trigger] fields[i]).1 is Text && parse_id(
                    fields[i].1->Text_0,
                ) is Ok
            &&& forall|i: int, j: int|
                0 <= i < j < fields.len() ==> parse_id((#[trigger] fields[i]).1->Text_0) != parse_id(
                    (#[trigger] fields[j]).1->Text_0,
                )
        },
        policy_of(JsonTree::Object(fields)) matches Ok(p) ==> p.len() == fields.len() && forall|
            i: int,
        |
            0 <= i < fields.len() ==> (#[trigger] p[i]).0 == fields[i].0 && parse_id(
                fields[i].1->Text_0,
            ) == Ok::<Seq<u8>, IdentityError>(p[i].1),
        policy_of(JsonTree::Object(fields)) matches Err(PolicyFault::InvalidKey { petname, cause })
            ==> exists|i: int|
            0 <= i < fields.len() && (#[trigger] fields[i]).0 == petname && parse_id(
                fields[i].1->Text_0,
            ) == Err::<Seq<u8>, IdentityError>(cause) && forall|j: int|
                0 <= j < i ==> parse_id((#[trigger] fields[j]).1->Text_0) is Ok,
        policy_of(JsonTree::Object(fields)) matches Err(PolicyFault::SharedKey { first, second })
            ==> exists|i: int, j: int|
            0 <= i < j < fields.len() && (#[trigger] fields[i]).0 == first && (
            #[trigger] fields[j]).0 == second && parse_id(fields[i].1->Text_0) == parse_id(
                fields[j].1->Text_0,
            ),
        (policy_of(JsonTree::Object(fields)) matches Err(PolicyFault::NotPolicyJson)) <==> exists|
            i: int,
        |
            0 <= i < fields.len() && !((#[trigger] fields[i]).1 is Text),
{
    if entries_have_keys(fields) {
        assert forall|i: int| 0 <= i < fields.len() implies (#[trigger] fields[i]).1 is Text
            && fields[i].1.text() == Some(fields[i].1->Text_0) by {
            assert(fields[i].1.text() is Some);
        }
        entries_are_read_in_order(fields);
        match read_entries(fields) {
            Ok(peers) => {
                shared_is_found(peers, 0);
                assert forall|i: int| 0 <= i < fields.len() implies parse_id(
                    (#[trigger] fields[i]).1->Text_0,
                ) == Ok::<Seq<u8>, IdentityError>(peers[i].1) by {
                    assert(peers[i].0 == fields[i].0);
                }
                if let Some((a, b)) = first_shared(peers, 0) {
                    assert(fields[a].0 == peers[a].0 && fields[b].0 == peers[b].0);
                    assert(parse_id(fields[a].1->Text_0) == parse_id(fields[b].1->Text_0));
                } else {
                    assert forall|i: int, j: int| 0 <= i < j < fields.len() implies parse_id(
                        (#[trigger] fields[i]).1->Text_0,
                    ) != parse_id((#[trigger] fields[j]).1->Text_0) by {
                        assert(peers[i].1 != peers[j].1);
                    }
                }
            },
            Err(e) => {
                let i = choose|i: int|
                    0 <= i < fields.len() && parse_id((#[trigger] fields[i]).1.text()->0) is Err && e
                        == (PolicyFault::InvalidKey {
                        petname: fields[i].0,
                        cause: parse_id(fields[i].1.text()->0)->Err_0,
                    }) && forall|j: int|
                        0 <= j < i ==> parse_id((#[trigger] fields[j]).1.text()->0) is Ok;
                assert(parse_id(fields[i].1->Text_0) is Err);
                assert forall|j: int| 0 <= j < i implies parse_id(
                    (#[trigger] fields[j]).1->Text_0,
                ) is Ok by {
                    assert(parse_id(fields[j].1.text()->0) is Ok);
                }
            },
        }
    } else {
        let i = choose|i: int| 0 <= i < fields.len() && !((#[trigger] fields[i]).1.text() is Some);
        assert(!(fields[i].1 is Text));
    }
}

/// What is said of a fault names what it is about.
pub proof fn faults_are_named(petname: Seq<char>, other: Seq<char>, cause: IdentityError)
    ensures
        (PolicyFault::UnknownPeer { petname }).words() == "unknown peer '"@ + petname + "'"@,
        (PolicyFault::PetnameTaken { petname }).words() == "petname '"@ + petname
            + "' already names a different key"@,
        (PolicyFault::KeyTaken { holder: petname }).words() == "that key is already authorized as '"@
            + petname + "'"@,
        (PolicyFault::SharedKey { first: petname, second: other }).words() == "peers '"@ + petname
            + "' and '"@ + other + "' share the same key"@,
        (PolicyFault::InvalidKey { petname, cause }).words() == "peer '"@ + petname
            + "' has an invalid key: "@ + cause.words(),
{
}

/// The entry of a peer holds the text of its key, by its name.
pub proof fn entry_names_its_key(id: Seq<u8>)
    ensures
        entry_tree(id).get_text("key"@) == Some(b64_text(id)),
{
    with_is_found(empty_object(), "key"@, JsonTree::Text(b64_text(id)), "key"@);
}

/// An allowlist file is one object, with nothing around it, in which every petname has an entry
/// with a key text; a file that is anything else is refused as such.
pub proof fn peers_file_is_one_object_of_entries(b: Seq<u8>, i: int)
    ensures
        object_front(b) is None || !is_one_record(b) ==> policy_of_bytes(b) == Err::<
            Seq<(Seq<char>, Seq<u8>)>,
            PolicyFault,
        >(PolicyFault::NotPolicyJson),
        object_front(b) is Some && 0 <= i < front_members(b).len() && text_field(
            b.skip(front_members(b)[i].1),
            "key"@,
            0,
            1,
        ) is None ==> policy_of_bytes(b) == Err::<Seq<(Seq<char>, Seq<u8>)>, PolicyFault>(
            PolicyFault::NotPolicyJson,
        ),
        listed_keys(b) matches Some(t) ==> policy_of_bytes(b) == policy_of(t),
{
    if object_front(b) is Some && 0 <= i < front_members(b).len() && key_text_at(
        b,
        front_members(b)[i].1,
    ) is None {
        let ms = front_members(b);
        assert(ms.take(i + 1).last() == ms[i]);
        assert(key_texts(b, ms.take(i + 1)) is None);
        keys_fail_early(b, ms, i + 1);
    }
}

/// A petname that comes again in a file counts as it comes last.
pub proof fn last_entry_of_a_petname_counts(
    b: Seq<u8>,
    ms: Seq<(Seq<char>, int)>,
    name: Seq<char>,
    start: int,
    key: Seq<char>,
    t: JsonTree,
)
    requires
        key_texts(b, ms) == Some(t),
        t.wf(),
        t is Object,
        text_field(b.skip(start), "key"@, 0, 1) == Some(key),
    ensures
        key_texts(b, ms.push((name, start))) == Some(t.with(name, JsonTree::Text(key))),
        t.with(name, JsonTree::Text(key)).get_text(name) == Some(key),
{
    assert(ms.push((name, start)).drop_last() =~= ms);
    with_is_found(t, name, JsonTree::Text(key), name);
}

/// In an unambiguous allowlist no two entries have a petname or a key in common, and every key is
/// one.
pub proof fn unambiguous_entries_differ(p: Seq<(Seq<char>, Seq<u8>)>, i: int, j: int)
    requires
        unambiguous(p),
        0 <= i < p.len(),
        0 <= j < p.len(),
        i != j,
    ensures
        p[i].0 != p[j].0,
        p[i].1 != p[j].1,
        p[i].1.len() == 32,
        is_public_key(p[i].1),
{
    if i < j {
        assert(p[i].0 != p[j].0 && p[i].1 != p[j].1);
    } else {
        assert(p[j].0 != p[i].0 && p[j].1 != p[i].1);
    }
}

} // verus!
