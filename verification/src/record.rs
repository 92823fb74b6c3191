//! Records in JSON: an object or a list whose members are the fields of one thing.
//!
//! `serde_json` reads the keys and the values. Which members a record has, and that a field is
//! given once, is decided here. A member that is no field of the record is passed over, whatever it
//! holds, as long as it is written like a value.
use crate::json::{from_value, value_tree, Json, JsonTree};
use crate::lookup::{key_index, key_index_says, sorted_keys_are_distinct};
use crate::text::same_text;
use vstd::prelude::*;
use vstd::slice::slice_subrange;

verus! {

/// The text that `serde_json` reads at the front of the bytes, and how many of them it takes.
pub uninterp spec fn text_front(bytes: Seq<u8>) -> Option<(Seq<char>, nat)>;

/// The value that `serde_json` reads at the front of the bytes, and how many of them it takes.
pub uninterp spec fn value_front(bytes: Seq<u8>) -> Option<(JsonTree, nat)>;

/// How many bytes `serde_json` takes for a value that it passes over at their front.
pub uninterp spec fn ignored_front(bytes: Seq<u8>) -> Option<nat>;

/// The first item of `serde_json::StreamDeserializer` for `String`, and its `byte_offset` then.
#[verifier::external_body]
fn read_text_front(bytes: &[u8]) -> (r: Option<(String, usize)>)
    ensures
        match r {
            Some((s, n)) => text_front(bytes@) == Some((s@, n as nat)) && n <= bytes@.len(),
            None => text_front(bytes@) is None,
        },
{
    let mut items = serde_json::Deserializer::from_slice(bytes).into_iter::<String>();
    match items.next() {
        Some(Ok(s)) => Some((s, items.byte_offset())),
        _ => None,
    }
}

/// The first item of `serde_json::StreamDeserializer` for `Value`, and its `byte_offset` then.
#[verifier::external_body]
fn read_value_front(bytes: &[u8]) -> (r: Option<(serde_json::Value, usize)>)
    ensures
        match r {
            Some((v, n)) => value_front(bytes@) == Some((value_tree(v), n as nat)) && n
                <= bytes@.len(),
            None => value_front(bytes@) is None,
        },
{
    let mut items = serde_json::Deserializer::from_slice(bytes).into_iter::<serde_json::Value>();
    match items.next() {
        Some(Ok(v)) => Some((v, items.byte_offset())),
        _ => None,
    }
}

/// The `byte_offset` of `serde_json::StreamDeserializer` after its first item of
/// `serde::de::IgnoredAny`, which takes any value and keeps nothing of it.
#[verifier::external_body]
fn skip_value_front(bytes: &[u8]) -> (r: Option<usize>)
    ensures
        match r {
            Some(n) => ignored_front(bytes@) == Some(n as nat) && n <= bytes@.len(),
            None => ignored_front(bytes@) is None,
        },
{
    let de = serde_json::Deserializer::from_slice(bytes);
    let mut items = de.into_iter::<serde::de::IgnoredAny>();
    match items.next() {
        Some(Ok(_)) => Some(items.byte_offset()),
        _ => None,
    }
}

/// A byte that may stand between the parts of a record.
pub open spec fn is_gap(b: u8) -> bool {
    b == 32 || b == 10 || b == 9 || b == 13
}

/// Where the next byte from `i` on stands that is no gap.
pub open spec fn after_gap(b: Seq<u8>, i: int) -> int
    decreases b.len() - i,
{
    if 0 <= i < b.len() && is_gap(b[i]) {
        after_gap(b, i + 1)
    } else {
        i
    }
}

/// A gap ends behind its beginning, within the bytes.
pub proof fn gap_goes_on(b: Seq<u8>, i: int)
    requires
        0 <= i <= b.len(),
    ensures
        i <= after_gap(b, i) <= b.len(),
    decreases b.len() - i,
{
    if i < b.len() && is_gap(b[i]) {
        gap_goes_on(b, i + 1);
    }
}

/// The byte that stands next from `i` on, behind a gap.
pub open spec fn next_is(b: Seq<u8>, i: int, c: u8) -> bool {
    0 <= i <= b.len() && after_gap(b, i) < b.len() && b[after_gap(b, i)] == c
}

/// The members of an object from `i` on, where a key stands: their keys with where their values
/// begin, and where the object ends.
pub open spec fn members_from(b: Seq<u8>, i: int) -> Option<(Seq<(Seq<char>, int)>, int)>
    decreases b.len() - i,
{
    if !(0 <= i <= b.len()) {
        None
    } else {
        match text_front(b.skip(i)) {
            None => None,
            Some((key, n)) => if !next_is(b, i + n, 58) {
                None
            } else {
                let start = after_gap(b, i + n) + 1;
                proof {
                    gap_goes_on(b, i + n);
                }
                match ignored_front(b.skip(start)) {
                    None => None,
                    Some(m) => {
                        let next = after_gap(b, start + m) + 1;
                        if next_is(b, start + m, 125) {
                            Some((seq![(key, start)], next))
                        } else if !next_is(b, start + m, 44) {
                            None
                        } else {
                            proof {
                                gap_goes_on(b, start + m);
                            }
                            match members_from(b, next) {
                                None => None,
                                Some((rest, end)) => Some((seq![(key, start)] + rest, end)),
                            }
                        }
                    },
                }
            },
        }
    }
}

/// Where the members of a list begin from `i` on, where one stands, and where the list ends.
pub open spec fn elements_from(b: Seq<u8>, i: int) -> Option<(Seq<int>, int)>
    decreases b.len() - i,
{
    if !(0 <= i <= b.len()) {
        None
    } else {
        match ignored_front(b.skip(i)) {
            None => None,
            Some(n) => {
                let next = after_gap(b, i + n) + 1;
                if next_is(b, i + n, 93) {
                    Some((seq![i], next))
                } else if !next_is(b, i + n, 44) {
                    None
                } else {
                    proof {
                        gap_goes_on(b, i + n);
                    }
                    match elements_from(b, next) {
                        None => None,
                        Some((rest, end)) => Some((seq![i] + rest, end)),
                    }
                }
            },
        }
    }
}

/// The members of the object at the front of the bytes, and where it ends.
pub open spec fn object_front(b: Seq<u8>) -> Option<(Seq<(Seq<char>, int)>, int)> {
    if !next_is(b, 0, 123) {
        None
    } else if next_is(b, after_gap(b, 0) + 1, 125) {
        Some((Seq::empty(), after_gap(b, after_gap(b, 0) + 1) + 1))
    } else {
        members_from(b, after_gap(b, 0) + 1)
    }
}

/// The members of the object at the front of the bytes, where there is one.
pub open spec fn front_members(b: Seq<u8>) -> Seq<(Seq<char>, int)> {
    (object_front(b)->0).0
}

/// The members of the list at the front of the bytes, and where it ends.
pub open spec fn list_front(b: Seq<u8>) -> Option<(Seq<int>, int)> {
    if !next_is(b, 0, 91) {
        None
    } else if next_is(b, after_gap(b, 0) + 1, 93) {
        Some((Seq::empty(), after_gap(b, after_gap(b, 0) + 1) + 1))
    } else {
        elements_from(b, after_gap(b, 0) + 1)
    }
}

/// Where the values of the members with this key begin.
pub open spec fn starts_named(ms: Seq<(Seq<char>, int)>, key: Seq<char>) -> Seq<int>
    decreases ms.len(),
{
    if ms.len() == 0 {
        Seq::empty()
    } else {
        let before = starts_named(ms.drop_last(), key);
        if ms.last().0 == key {
            before.push(ms.last().1)
        } else {
            before
        }
    }
}

/// Where the value of a field begins, of a record of `total` fields: of an object the value of the
/// only member with the field's name, of a list of just so many members the one at its place.
pub open spec fn field_start(b: Seq<u8>, key: Seq<char>, place: int, total: nat) -> Option<int> {
    match object_front(b) {
        Some((ms, _)) => if starts_named(ms, key).len() == 1 {
            Some(starts_named(ms, key)[0])
        } else {
            None
        },
        None => match list_front(b) {
            Some((starts, _)) => if starts.len() == total {
                Some(starts[place])
            } else {
                None
            },
            None => None,
        },
    }
}

/// The text of a field.
pub open spec fn text_field(b: Seq<u8>, key: Seq<char>, place: int, total: nat) -> Option<
    Seq<char>,
> {
    match field_start(b, key, place, total) {
        Some(start) => match text_front(b.skip(start)) {
            Some((s, _)) => Some(s),
            None => None,
        },
        None => None,
    }
}

/// The value of a field. It may be nested one level less than a value that stands alone.
pub open spec fn value_field(b: Seq<u8>, key: Seq<char>, place: int, total: nat) -> Option<
    JsonTree,
> {
    match field_start(b, key, place, total) {
        Some(start) => match value_front(b.skip(start)) {
            Some((t, _)) => if t.nested(126) {
                Some(t)
            } else {
                None
            },
            None => None,
        },
        None => None,
    }
}

/// The bytes are one record and gaps around it.
pub open spec fn is_one_record(b: Seq<u8>) -> bool {
    match object_front(b) {
        Some((_, end)) => after_gap(b, end) == b.len(),
        None => match list_front(b) {
            Some((_, end)) => after_gap(b, end) == b.len(),
            None => false,
        },
    }
}

/// The front of the bytes writes the value: a reader finds it there whole, and finds a text as a
/// text and an object's fields one by one, in their order.
pub open spec fn spells(b: Seq<u8>, t: JsonTree) -> bool
    decreases t,
{
    &&& value_front(b) matches Some((u, _)) && u == t
    &&& match t {
        JsonTree::Text(s) => text_front(b) matches Some((u, _)) && u == s,
        JsonTree::Object(fields) => {
            &&& object_front(b) is Some
            &&& front_members(b).len() == fields.len()
            &&& forall|i: int|
                0 <= i < fields.len() ==> (#[trigger] fields[i]).0 == front_members(b)[i].0
                    && spells(b.skip(front_members(b)[i].1), fields[i].1)
        },
        _ => true,
    }
}

/// The bytes write the value and, where it is an object, nothing else.
pub open spec fn spells_alone(b: Seq<u8>, t: JsonTree) -> bool {
    &&& spells(b, t)
    &&& t is Object ==> is_one_record(b)
}

/// The members of a record, as they were found.
pub(crate) enum Shape {
    Object(Vec<(String, usize)>),
    List(Vec<usize>),
}

spec fn found_members(v: Seq<(String, usize)>) -> Seq<(Seq<char>, int)> {
    v.map_values(|m: (String, usize)| (m.0@, m.1 as int))
}

spec fn found_starts(v: Seq<usize>) -> Seq<int> {
    v.map_values(|n: usize| n as int)
}

impl Shape {
    /// The members are those of the record at the front of the bytes, which ends at `end`.
    pub(crate) closed spec fn is_front(&self, b: Seq<u8>, end: int) -> bool {
        match *self {
            Shape::Object(v) => {
                &&& object_front(b) == Some((found_members(v@), end))
                &&& forall|i: int| 0 <= i < v@.len() ==> (#[trigger] v@[i]).1 <= b.len()
            },
            Shape::List(v) => {
                &&& object_front(b) is None
                &&& list_front(b) == Some((found_starts(v@), end))
                &&& forall|i: int| 0 <= i < v@.len() ==> #[trigger] v@[i] <= b.len()
            },
        }
    }

    /// The members are those of the record at the front of the bytes.
    pub(crate) open spec fn is_of(&self, b: Seq<u8>) -> bool {
        exists|end: int| self.is_front(b, end)
    }
}

fn pass_gap(bytes: &[u8], i: usize) -> (r: usize)
    requires
        i <= bytes@.len(),
    ensures
        r == after_gap(bytes@, i as int),
        i <= r <= bytes@.len(),
{
    let mut k: usize = i;
    while k < bytes.len() && (bytes[k] == 32 || bytes[k] == 10 || bytes[k] == 9 || bytes[k] == 13)
        invariant
            i <= k <= bytes@.len(),
            after_gap(bytes@, i as int) == after_gap(bytes@, k as int),
        decreases bytes@.len() - k,
    {
        k += 1;
    }
    k
}

/// The bytes from `i` on.
fn rest_of(bytes: &[u8], i: usize) -> (r: &[u8])
    requires
        i <= bytes@.len(),
    ensures
        r@ == bytes@.skip(i as int),
{
    let r = slice_subrange(bytes, i, bytes.len());
    assert(r@ =~= bytes@.skip(i as int));
    r
}

fn read_members(bytes: &[u8], from: usize) -> (r: Option<(Vec<(String, usize)>, usize)>)
    requires
        from <= bytes@.len(),
    ensures
        match r {
            Some((v, end)) => {
                &&& members_from(bytes@, from as int) == Some((found_members(v@), end as int))
                &&& forall|i: int| 0 <= i < v@.len() ==> (#[trigger] v@[i]).1 <= bytes@.len()
                &&& end <= bytes@.len()
            },
            None => members_from(bytes@, from as int) is None,
        },
{
    let ghost b = bytes@;
    let len: usize = bytes.len();
    let mut out: Vec<(String, usize)> = Vec::new();
    let mut i: usize = from;
    assert(found_members(out@) =~= Seq::<(Seq<char>, int)>::empty());
    proof {
        if let Some((rest, _)) = members_from(b, i as int) {
            assert(found_members(out@) + rest =~= rest);
        }
    }
    loop
        invariant
            b == bytes@,
            len == b.len(),
            i <= len,
            forall|k: int| 0 <= k < out@.len() ==> (#[trigger] out@[k]).1 <= b.len(),
            members_from(b, from as int) == match members_from(b, i as int) {
                Some((rest, end)) => Some((found_members(out@) + rest, end)),
                None => None,
            },
        decreases b.len() - i,
    {
        let (key, n) = match read_text_front(rest_of(bytes, i)) {
            Some(p) => p,
            None => return None,
        };
        let c: usize = pass_gap(bytes, i + n);
        if c >= len || bytes[c] != 58 {
            return None;
        }
        let start: usize = c + 1;
        let m: usize = match skip_value_front(rest_of(bytes, start)) {
            Some(m) => m,
            None => return None,
        };
        let e: usize = pass_gap(bytes, start + m);
        let ghost before = found_members(out@);
        let ghost this = (key@, start as int);
        out.push((key, start));
        assert(found_members(out@) =~= before.push(this));
        if e >= len {
            return None;
        }
        if bytes[e] == 125 {
            assert(before + seq![this] =~= before.push(this));
            return Some((out, e + 1));
        }
        if bytes[e] != 44 {
            return None;
        }
        proof {
            if let Some((rest, _)) = members_from(b, e + 1) {
                assert(before + (seq![this] + rest) =~= before.push(this) + rest);
            }
        }
        i = e + 1;
    }
}

fn read_elements(bytes: &[u8], from: usize) -> (r: Option<(Vec<usize>, usize)>)
    requires
        from <= bytes@.len(),
    ensures
        match r {
            Some((v, end)) => {
                &&& elements_from(bytes@, from as int) == Some((found_starts(v@), end as int))
                &&& forall|i: int| 0 <= i < v@.len() ==> #[trigger] v@[i] <= bytes@.len()
                &&& end <= bytes@.len()
            },
            None => elements_from(bytes@, from as int) is None,
        },
{
    let ghost b = bytes@;
    let len: usize = bytes.len();
    let mut out: Vec<usize> = Vec::new();
    let mut i: usize = from;
    assert(found_starts(out@) =~= Seq::<int>::empty());
    proof {
        if let Some((rest, _)) = elements_from(b, i as int) {
            assert(found_starts(out@) + rest =~= rest);
        }
    }
    loop
        invariant
            b == bytes@,
            len == b.len(),
            i <= len,
            forall|k: int| 0 <= k < out@.len() ==> #[trigger] out@[k] <= b.len(),
            elements_from(b, from as int) == match elements_from(b, i as int) {
                Some((rest, end)) => Some((found_starts(out@) + rest, end)),
                None => None,
            },
        decreases b.len() - i,
    {
        let n: usize = match skip_value_front(rest_of(bytes, i)) {
            Some(n) => n,
            None => return None,
        };
        let e: usize = pass_gap(bytes, i + n);
        let ghost before = found_starts(out@);
        let ghost this = i as int;
        out.push(i);
        assert(found_starts(out@) =~= before.push(this));
        if e >= len {
            return None;
        }
        if bytes[e] == 93 {
            assert(before + seq![this] =~= before.push(this));
            return Some((out, e + 1));
        }
        if bytes[e] != 44 {
            return None;
        }
        proof {
            if let Some((rest, _)) = elements_from(b, e + 1) {
                assert(before + (seq![this] + rest) =~= before.push(this) + rest);
            }
        }
        i = e + 1;
    }
}

/// Reads the record at the front of the bytes, and where it ends.
pub(crate) fn read_record(bytes: &[u8]) -> (r: Option<(Shape, usize)>)
    ensures
        match r {
            Some((shape, end)) => shape.is_front(bytes@, end as int) && end <= bytes@.len(),
            None => object_front(bytes@) is None && list_front(bytes@) is None,
        },
{
    let i: usize = pass_gap(bytes, 0);
    if i >= bytes.len() {
        return None;
    }
    if bytes[i] == 123 {
        let j: usize = pass_gap(bytes, i + 1);
        if j < bytes.len() && bytes[j] == 125 {
            let v: Vec<(String, usize)> = Vec::new();
            assert(found_members(v@) =~= Seq::<(Seq<char>, int)>::empty());
            return Some((Shape::Object(v), j + 1));
        }
        match read_members(bytes, i + 1) {
            Some((v, end)) => Some((Shape::Object(v), end)),
            None => None,
        }
    } else if bytes[i] == 91 {
        let j: usize = pass_gap(bytes, i + 1);
        if j < bytes.len() && bytes[j] == 93 {
            let v: Vec<usize> = Vec::new();
            assert(found_starts(v@) =~= Seq::<int>::empty());
            return Some((Shape::List(v), j + 1));
        }
        match read_elements(bytes, i + 1) {
            Some((v, end)) => Some((Shape::List(v), end)),
            None => None,
        }
    } else {
        None
    }
}

/// Reads the one record that the bytes are.
pub(crate) fn read_one_record(bytes: &[u8]) -> (r: Option<Shape>)
    ensures
        match r {
            Some(shape) => is_one_record(bytes@) && shape.is_of(bytes@),
            None => !is_one_record(bytes@),
        },
{
    match read_record(bytes) {
        Some((shape, end)) => {
            assert(shape.is_front(bytes@, end as int));
            if pass_gap(bytes, end) == bytes.len() {
                Some(shape)
            } else {
                None
            }
        },
        None => None,
    }
}

impl Shape {
    fn start_of(&self, key: &str, place: usize, total: usize, Ghost(b): Ghost<Seq<u8>>) -> (r:
        Option<usize>)
        requires
            self.is_of(b),
            place < total,
        ensures
            match r {
                Some(n) => field_start(b, key@, place as int, total as nat) == Some(n as int) && n
                    <= b.len(),
                None => field_start(b, key@, place as int, total as nat) is None,
            },
    {
        match self {
            Shape::Object(v) => {
                let ghost ms = found_members(v@);
                let mut found: Vec<usize> = Vec::new();
                let mut i: usize = 0;
                assert(ms.take(0) =~= Seq::<(Seq<char>, int)>::empty());
                assert(found_starts(found@) =~= Seq::<int>::empty());
                while i < v.len()
                    invariant
                        i <= v@.len(),
                        ms == found_members(v@),
                        found_starts(found@) == starts_named(ms.take(i as int), key@),
                        forall|k: int| 0 <= k < v@.len() ==> (#[trigger] v@[k]).1 <= b.len(),
                        forall|k: int| 0 <= k < found@.len() ==> #[trigger] found@[k] <= b.len(),
                    decreases v@.len() - i,
                {
                    let ghost before = found_starts(found@);
                    assert(ms.take(i + 1).drop_last() =~= ms.take(i as int));
                    if same_text(v[i].0.as_str(), key) {
                        found.push(v[i].1);
                        assert(found_starts(found@) =~= before.push(ms[i as int].1));
                    }
                    i += 1;
                }
                assert(ms.take(ms.len() as int) =~= ms);
                assert(found_starts(found@).len() == found@.len());
                if found.len() == 1 {
                    assert(found_starts(found@)[0] == found@[0]);
                    Some(found[0])
                } else {
                    None
                }
            },
            Shape::List(v) => {
                assert(found_starts(v@).len() == v@.len());
                if v.len() == total {
                    assert(found_starts(v@)[place as int] == v@[place as int]);
                    Some(v[place])
                } else {
                    None
                }
            },
        }
    }

    /// The members of an object; nothing of a list.
    pub(crate) fn members(&self, bytes: &[u8]) -> (r: Option<&Vec<(String, usize)>>)
        requires
            self.is_of(bytes@),
        ensures
            match r {
                Some(v) => {
                    &&& object_front(bytes@) is Some
                    &&& front_members(bytes@).len() == v@.len()
                    &&& forall|i: int|
                        0 <= i < v@.len() ==> (#[trigger] v@[i]).1 <= bytes@.len()
                            && front_members(bytes@)[i] == (v@[i].0@, v@[i].1 as int)
                },
                None => object_front(bytes@) is None,
            },
    {
        match self {
            Shape::Object(v) => {
                assert(found_members(v@).len() == v@.len());
                Some(v)
            },
            Shape::List(_) => None,
        }
    }

    /// Reads the text of a field.
    pub(crate) fn text(&self, bytes: &[u8], key: &str, place: usize, total: usize) -> (r: Option<
        String,
    >)
        requires
            self.is_of(bytes@),
            place < total,
        ensures
            match r {
                Some(s) => text_field(bytes@, key@, place as int, total as nat) == Some(s@),
                None => text_field(bytes@, key@, place as int, total as nat) is None,
            },
    {
        match self.start_of(key, place, total, Ghost(bytes@)) {
            Some(start) => match read_text_front(rest_of(bytes, start)) {
                Some((s, _)) => Some(s),
                None => None,
            },
            None => None,
        }
    }

    /// Reads the value of a field.
    pub(crate) fn value(&self, bytes: &[u8], key: &str, place: usize, total: usize) -> (r: Option<
        Json,
    >)
        requires
            self.is_of(bytes@),
            place < total,
        ensures
            match r {
                Some(j) => value_field(bytes@, key@, place as int, total as nat) == Some(j.tree())
                    && j.tree().wf(),
                None => value_field(bytes@, key@, place as int, total as nat) is None,
            },
    {
        match self.start_of(key, place, total, Ghost(bytes@)) {
            Some(start) => match read_value_front(rest_of(bytes, start)) {
                Some((v, _)) => {
                    let j = from_value(&v);
                    if j.is_nested(126) {
                        Some(j)
                    } else {
                        None
                    }
                },
                None => None,
            },
            None => None,
        }
    }
}

/// Reads the text of a field of the record at the front of the bytes from `from` on.
pub(crate) fn text_at(bytes: &[u8], from: usize, key: &str, place: usize, total: usize) -> (r:
    Option<String>)
    requires
        from <= bytes@.len(),
        place < total,
    ensures
        match r {
            Some(s) => text_field(bytes@.skip(from as int), key@, place as int, total as nat)
                == Some(s@),
            None => text_field(bytes@.skip(from as int), key@, place as int, total as nat) is None,
        },
{
    let rest = rest_of(bytes, from);
    match read_record(rest) {
        Some((shape, end)) => {
            assert(shape.is_front(rest@, end as int));
            shape.text(rest, key, place, total)
        },
        None => None,
    }
}

proof fn only_one_is_named(ms: Seq<(Seq<char>, int)>, i: int)
    requires
        0 <= i < ms.len(),
        forall|a: int, b: int|
            0 <= a < b < ms.len() ==> (#[trigger] ms[a]).0 != (#[trigger] ms[b]).0,
    ensures
        starts_named(ms, ms[i].0) == seq![ms[i].1],
    decreases ms.len(),
{
    let before = ms.drop_last();
    let key = ms[i].0;
    if i < before.len() {
        only_one_is_named(before, i);
        assert(ms[i].0 != ms[ms.len() - 1].0);
    } else {
        none_is_named(before, key);
        assert(starts_named(ms, key) =~= seq![ms[i].1]);
    }
}

proof fn none_is_named(ms: Seq<(Seq<char>, int)>, key: Seq<char>)
    requires
        forall|a: int| 0 <= a < ms.len() ==> (#[trigger] ms[a]).0 != key,
    ensures
        starts_named(ms, key) == Seq::<int>::empty(),
    decreases ms.len(),
{
    if ms.len() > 0 {
        none_is_named(ms.drop_last(), key);
        assert(ms[ms.len() - 1].0 != key);
    }
}

/// What is written as an object has each of the object's fields as a field of the record, where a
/// reader finds its value.
pub proof fn written_field_is_found(
    b: Seq<u8>,
    t: JsonTree,
    key: Seq<char>,
    place: int,
    total: nat,
)
    requires
        spells(b, t),
        t.wf(),
        t.get(key) is Some,
    ensures
        field_start(b, key, place, total) is Some,
        spells(b.skip(field_start(b, key, place, total)->0), t.get(key)->0),
        value_front(b.skip(field_start(b, key, place, total)->0)) is Some,
        (value_front(b.skip(field_start(b, key, place, total)->0))->0).0 == t.get(key)->0,
        t.get(key)->0 is Text ==> text_field(b, key, place, total) == t.get_text(key),
{
    let fields = t->Object_0;
    let ms = front_members(b);
    sorted_keys_are_distinct(fields);
    key_index_says(fields, key);
    let i = key_index(fields, key) as int;
    assert forall|x: int, y: int| 0 <= x < y < ms.len() implies (#[trigger] ms[x]).0 != (
    #[trigger] ms[y]).0 by {
        assert(fields[x].0 == ms[x].0 && fields[y].0 == ms[y].0);
        assert(fields[x].0 != fields[y].0);
    }
    assert(fields[i].0 == ms[i].0);
    only_one_is_named(ms, i);
    assert(spells(b.skip(ms[i].1), fields[i].1));
}

/// A gap ends at the first byte that may not stand between the parts of a record.
pub proof fn gap_is_white_bytes(b: Seq<u8>, i: int)
    requires
        0 <= i <= b.len(),
    ensures
        i <= after_gap(b, i) <= b.len(),
        forall|k: int|
            i <= k < after_gap(b, i) ==> #[trigger] b[k] == 32 || b[k] == 10 || b[k] == 9 || b[k]
                == 13,
        after_gap(b, i) < b.len() ==> {
            let c = b[after_gap(b, i)];
            c != 32 && c != 10 && c != 9 && c != 13
        },
    decreases b.len() - i,
{
    if i < b.len() && is_gap(b[i]) {
        gap_is_white_bytes(b, i + 1);
    }
}

proof fn named_by_place(ms: Seq<(Seq<char>, int)>, key: Seq<char>, i: int, j: int)
    ensures
        starts_named(ms, key).len() == 0 <==> forall|k: int|
            0 <= k < ms.len() ==> (#[trigger] ms[k]).0 != key,
        0 <= i < ms.len() && ms[i].0 == key ==> starts_named(ms, key).contains(ms[i].1),
        0 <= i < j < ms.len() && ms[i].0 == key && ms[j].0 == key ==> starts_named(ms, key).len()
            >= 2,
    decreases ms.len(),
{
    if ms.len() > 0 {
        let front = ms.drop_last();
        let n = front.len() as int;
        named_by_place(front, key, i, j);
        assert(ms[n] == ms.last());
        assert forall|k: int| 0 <= k < n implies #[trigger] front[k] == ms[k] by {}
        let before = starts_named(front, key);
        let all = starts_named(ms, key);
        if i < n && 0 <= i && ms[i].0 == key {
            assert(before.contains(ms[i].1));
            let x = choose|x: int| 0 <= x < before.len() && before[x] == ms[i].1;
            assert(all[x] == ms[i].1);
        }
        if i == n && ms[i].0 == key {
            assert(all[before.len() as int] == ms[i].1);
        }
        if before.len() == 0 && ms.last().0 != key {
            assert forall|k: int| 0 <= k < ms.len() implies (#[trigger] ms[k]).0 != key by {
                if k < n {
                    assert(front[k].0 != key);
                }
            }
        }
        if forall|k: int| 0 <= k < ms.len() ==> (#[trigger] ms[k]).0 != key {
            assert forall|k: int| 0 <= k < front.len() implies (#[trigger] front[k]).0 != key by {
                assert(ms[k].0 != key);
            }
        }
    }
}

/// A field of an object is found if and only if one member has its name, and only one; a field
/// that is given twice, or not at all, is refused. Of a list, which must have just so many
/// members, it is the one at its place.
pub proof fn field_is_given_once(
    b: Seq<u8>,
    key: Seq<char>,
    place: int,
    total: nat,
    i: int,
    j: int,
)
    ensures
        object_front(b) is Some && 0 <= i < front_members(b).len() && front_members(b)[i].0 == key
            && (forall|k: int|
            0 <= k < front_members(b).len() && k != i ==> (#[trigger] front_members(b)[k]).0 != key)
            ==> field_start(b, key, place, total) == Some(front_members(b)[i].1),
        object_front(b) is Some && 0 <= i < j < front_members(b).len() && front_members(b)[i].0
            == key && front_members(b)[j].0 == key ==> text_field(b, key, place, total) is None
            && value_field(b, key, place, total) is None,
        object_front(b) is Some && (forall|k: int|
            0 <= k < front_members(b).len() ==> (#[trigger] front_members(b)[k]).0 != key)
            ==> text_field(b, key, place, total) is None && value_field(b, key, place, total)
            is None,
        object_front(b) is None ==> (list_front(b) matches Some((starts, _)) ==> field_start(
            b,
            key,
            place,
            total,
        ) == if starts.len() == total {
            Some(starts[place])
        } else {
            None
        }),
        object_front(b) is None && list_front(b) is None ==> text_field(b, key, place, total)
            is None && value_field(b, key, place, total) is None,
{
    if object_front(b) is Some {
        let ms = front_members(b);
        named_by_place(ms, key, i, j);
        if 0 <= i < ms.len() && ms[i].0 == key && forall|k: int|
            0 <= k < ms.len() && k != i ==> (#[trigger] ms[k]).0 != key {
            one_start(ms, key, i);
        }
    }
}

proof fn one_start(ms: Seq<(Seq<char>, int)>, key: Seq<char>, i: int)
    requires
        0 <= i < ms.len(),
        ms[i].0 == key,
        forall|k: int| 0 <= k < ms.len() && k != i ==> (#[trigger] ms[k]).0 != key,
    ensures
        starts_named(ms, key) == seq![ms[i].1],
    decreases ms.len(),
{
    let front = ms.drop_last();
    assert forall|k: int| 0 <= k < front.len() implies #[trigger] front[k] == ms[k] by {}
    if i < front.len() {
        one_start(front, key, i);
        assert(ms[ms.len() - 1].0 != key);
    } else {
        assert forall|k: int| 0 <= k < front.len() implies (#[trigger] front[k]).0 != key by {
            assert(ms[k].0 != key);
        }
        none_is_named(front, key);
        assert(starts_named(ms, key) =~= seq![ms[i].1]);
    }
}

/// The members of an object each have a value, behind a colon, and the object ends with its
/// bracket.
pub proof fn members_stand_behind_colons(b: Seq<u8>, i: int, k: int)
    requires
        members_from(b, i) is Some,
    ensures
        ({
            let (ms, end) = members_from(b, i)->0;
            &&& ms.len() > 0
            &&& i < end <= b.len()
            &&& b[end - 1] == 125
            &&& 0 <= k < ms.len() ==> i < ms[k].1 <= b.len() && b[ms[k].1 - 1] == 58
                && ignored_front(b.skip(ms[k].1)) is Some
        }),
    decreases b.len() - i,
{
    let (key, n) = text_front(b.skip(i))->0;
    gap_goes_on(b, i + n);
    let start = after_gap(b, i + n) + 1;
    let m = ignored_front(b.skip(start))->0;
    if next_is(b, start + m, 125) {
        gap_goes_on(b, start + m);
    } else {
        gap_goes_on(b, start + m);
        let next = after_gap(b, start + m) + 1;
        members_stand_behind_colons(b, next, k - 1);
    }
}

/// The members of a list each are a value, and the list ends with its bracket.
pub proof fn elements_are_values(b: Seq<u8>, i: int, k: int)
    requires
        elements_from(b, i) is Some,
    ensures
        ({
            let (starts, end) = elements_from(b, i)->0;
            &&& starts.len() > 0
            &&& starts[0] == i
            &&& i < end <= b.len()
            &&& b[end - 1] == 93
            &&& 0 < k < starts.len() ==> i < starts[k] <= b.len() && b[starts[k] - 1] == 44
            &&& 0 <= k < starts.len() ==> ignored_front(b.skip(starts[k])) is Some
        }),
    decreases b.len() - i,
{
    let n = ignored_front(b.skip(i))->0;
    gap_goes_on(b, i + n);
    if !next_is(b, i + n, 93) {
        let next = after_gap(b, i + n) + 1;
        elements_are_values(b, next, k - 1);
    }
}

/// Bytes that are one record are an object or a list with nothing but white bytes around it.
pub proof fn one_record_stands_alone(b: Seq<u8>)
    requires
        is_one_record(b),
    ensures
        object_front(b) is Some || list_front(b) is Some,
        after_gap(b, 0) < b.len(),
        b[after_gap(b, 0)] == 123 || b[after_gap(b, 0)] == 91,
        ({
            let end = match object_front(b) {
                Some((_, end)) => end,
                None => (list_front(b)->0).1,
            };
            forall|k: int|
                end <= k < b.len() ==> #[trigger] b[k] == 32 || b[k] == 10 || b[k] == 9 || b[k] == 13
        }),
{
    gap_goes_on(b, 0);
    let open = after_gap(b, 0) + 1;
    gap_goes_on(b, open);
    if object_front(b) is Some {
        let end = (object_front(b)->0).1;
        if !next_is(b, open, 125) {
            members_stand_behind_colons(b, open, 0);
        }
        gap_is_white_bytes(b, end);
    } else {
        let end = (list_front(b)->0).1;
        if !next_is(b, open, 93) {
            elements_are_values(b, open, 0);
        }
        gap_is_white_bytes(b, end);
    }
}

} // verus!
