//! JSON values: read and written by `serde_json`, inspected and built here.
use crate::lookup::{
    key_index, key_index_is, key_put, key_value, put_is_found, put_keeps_order, sorted_keys,
    sorted_keys_are_distinct, sorted_place_is,
};
use crate::record::spells_alone;
use crate::text::{before, same_text, text_before};
use vstd::prelude::*;
use vstd::utf8::encode_utf8;

verus! {

/// A value of `serde_json`.
#[verifier::external_type_specification]
#[verifier::external_body]
pub struct ExValue(serde_json::Value);

/// A number of `serde_json`.
#[verifier::external_type_specification]
#[verifier::external_body]
pub struct ExNumber(serde_json::Number);

/// `serde_json::Number`'s `clone`: the same number.
pub assume_specification[ <serde_json::Number as Clone>::clone ](n: &serde_json::Number) -> (r:
    serde_json::Number)
    ensures
        r == *n,
;

/// The number as a `u64`, where it is one.
pub uninterp spec fn number_whole(n: serde_json::Number) -> Option<u64>;

/// `serde_json::Number::as_u64`: the number as a `u64`, where it is one.
#[verifier::external_body]
fn as_whole(n: &serde_json::Number) -> (r: Option<u64>)
    ensures
        r == number_whole(*n),
{
    n.as_u64()
}

/// Whether the number is a floating-point one.
pub uninterp spec fn number_float(n: serde_json::Number) -> bool;

/// `serde_json::Number::is_f64`: whether the number is a floating-point one.
#[verifier::external_body]
fn is_float(n: &serde_json::Number) -> (r: bool)
    ensures
        r == number_float(*n),
{
    n.is_f64()
}

/// A JSON value. A number that a `u64` can hold is `Whole`; any other is carried as it is.
#[derive(Debug, PartialEq)]
pub enum Json {
    Null,
    Bool(bool),
    Whole(u64),
    Number(serde_json::Number),
    Text(String),
    Array(Vec<Json>),
    Object(Vec<(String, Json)>),
}

/// What a JSON value says.
pub enum JsonTree {
    Null,
    Bool(bool),
    Whole(u64),
    Number(serde_json::Number),
    Text(Seq<char>),
    Array(Seq<JsonTree>),
    Object(Seq<(Seq<char>, JsonTree)>),
}

impl JsonTree {
    /// Every object's fields stand in ascending order, none twice, and numbers that a `u64` can
    /// hold are so written.
    pub open spec fn wf(self) -> bool
        decreases self,
    {
        match self {
            JsonTree::Number(n) => number_whole(n) is None,
            JsonTree::Array(items) => forall|i: int|
                0 <= i < items.len() ==> (#[trigger] items[i]).wf(),
            JsonTree::Object(fields) => sorted_keys(fields) && forall|i: int|
                0 <= i < fields.len() ==> (#[trigger] fields[i]).1.wf(),
            _ => true,
        }
    }

    /// No number is a floating-point one, and values are nested at most `depth` deep.
    pub open spec fn plain(self, depth: nat) -> bool
        decreases depth,
    {
        match self {
            JsonTree::Number(n) => !number_float(n),
            JsonTree::Array(items) => depth > 0 && forall|i: int|
                0 <= i < items.len() ==> (#[trigger] items[i]).plain((depth - 1) as nat),
            JsonTree::Object(fields) => depth > 0 && forall|i: int|
                0 <= i < fields.len() ==> (#[trigger] fields[i]).1.plain((depth - 1) as nat),
            _ => true,
        }
    }

    /// Values are nested at most `depth` deep.
    pub open spec fn nested(self, depth: nat) -> bool
        decreases depth,
    {
        match self {
            JsonTree::Array(items) => depth > 0 && forall|i: int|
                0 <= i < items.len() ==> (#[trigger] items[i]).nested((depth - 1) as nat),
            JsonTree::Object(fields) => depth > 0 && forall|i: int|
                0 <= i < fields.len() ==> (#[trigger] fields[i]).1.nested((depth - 1) as nat),
            _ => true,
        }
    }

    /// The value of an object's field.
    pub open spec fn get(self, key: Seq<char>) -> Option<JsonTree> {
        match self {
            JsonTree::Object(fields) => key_value(fields, key),
            _ => None,
        }
    }

    /// The text, of a text.
    pub open spec fn text(self) -> Option<Seq<char>> {
        match self {
            JsonTree::Text(s) => Some(s),
            _ => None,
        }
    }

    /// The text of an object's field, of a field that is one.
    pub open spec fn get_text(self, key: Seq<char>) -> Option<Seq<char>> {
        match self.get(key) {
            Some(v) => v.text(),
            None => None,
        }
    }

    /// The object with one field set; any other value as it is.
    pub open spec fn with(self, key: Seq<char>, value: JsonTree) -> JsonTree {
        match self {
            JsonTree::Object(fields) => JsonTree::Object(key_put(fields, key, value)),
            other => other,
        }
    }
}

/// The object without fields.
pub open spec fn empty_object() -> JsonTree {
    JsonTree::Object(Seq::empty())
}

/// Setting a field keeps a value well-formed.
pub proof fn with_is_wf(t: JsonTree, key: Seq<char>, value: JsonTree)
    requires
        t.wf(),
        value.wf(),
    ensures
        t.with(key, value).wf(),
{
    if let JsonTree::Object(fields) = t {
        put_keeps_order(fields, key, value);
        let after = key_put(fields, key, value);
        assert forall|i: int| 0 <= i < after.len() implies (#[trigger] after[i]).1.wf() by {
            fields_after_put(fields, key, value, i);
        }
    }
}

/// Each field of an object with one field set is that one or one that was there.
pub proof fn fields_after_put(
    fields: Seq<(Seq<char>, JsonTree)>,
    key: Seq<char>,
    value: JsonTree,
    i: int,
)
    requires
        0 <= i < key_put(fields, key, value).len(),
    ensures
        key_put(fields, key, value)[i].1 == value || exists|j: int|
            0 <= j < fields.len() && key_put(fields, key, value)[i] == #[trigger] fields[j],
{
    crate::lookup::key_index_says(fields, key);
    crate::lookup::sorted_place_says(fields, key);
    let after = key_put(fields, key, value);
    let k = key_index(fields, key) as int;
    let p = crate::lookup::sorted_place(fields, key) as int;
    if k < fields.len() {
        if i != k {
            assert(after[i] == fields[i]);
        }
    } else if i < p {
        assert(after[i] == fields[i]);
    } else if i > p {
        assert(after[i] == fields[i - 1]);
    }
}

/// Setting a field keeps a value plain.
pub proof fn with_is_plain(t: JsonTree, key: Seq<char>, value: JsonTree, depth: nat)
    requires
        t.plain(depth),
        depth > 0,
        value.plain((depth - 1) as nat),
    ensures
        t.with(key, value).plain(depth),
{
    if let JsonTree::Object(fields) = t {
        let after = key_put(fields, key, value);
        assert forall|i: int| 0 <= i < after.len() implies (#[trigger] after[i]).1.plain(
            (depth - 1) as nat,
        ) by {
            fields_after_put(fields, key, value, i);
        }
    }
}

/// What is plain at one depth is plain at a greater one.
pub proof fn plain_at_greater_depth(t: JsonTree, n: nat, m: nat)
    requires
        t.plain(n),
        n <= m,
    ensures
        t.plain(m),
    decreases n,
{
    match t {
        JsonTree::Array(items) => {
            assert forall|i: int| 0 <= i < items.len() implies (#[trigger] items[i]).plain(
                (m - 1) as nat,
            ) by {
                plain_at_greater_depth(items[i], (n - 1) as nat, (m - 1) as nat);
            }
        },
        JsonTree::Object(fields) => {
            assert forall|i: int| 0 <= i < fields.len() implies (#[trigger] fields[i]).1.plain(
                (m - 1) as nat,
            ) by {
                plain_at_greater_depth(fields[i].1, (n - 1) as nat, (m - 1) as nat);
            }
        },
        _ => {},
    }
}

/// What is plain at a depth is nested no deeper.
pub proof fn plain_is_nested(t: JsonTree, depth: nat)
    requires
        t.plain(depth),
    ensures
        t.nested(depth),
    decreases depth,
{
    match t {
        JsonTree::Array(items) => {
            assert forall|i: int| 0 <= i < items.len() implies (#[trigger] items[i]).nested(
                (depth - 1) as nat,
            ) by {
                plain_is_nested(items[i], (depth - 1) as nat);
            }
        },
        JsonTree::Object(fields) => {
            assert forall|i: int| 0 <= i < fields.len() implies (#[trigger] fields[i]).1.nested(
                (depth - 1) as nat,
            ) by {
                plain_is_nested(fields[i].1, (depth - 1) as nat);
            }
        },
        _ => {},
    }
}

/// A field that was set is found, and the others are as they were.
pub proof fn with_is_found(t: JsonTree, key: Seq<char>, value: JsonTree, other: Seq<char>)
    requires
        t.wf(),
        t is Object,
    ensures
        t.with(key, value).get(key) == Some(value),
        other != key ==> t.with(key, value).get(other) == t.get(other),
{
    if let JsonTree::Object(fields) = t {
        sorted_keys_are_distinct(fields);
        put_is_found(fields, key, value, other);
    }
}

/// What a `serde_json` value says.
pub uninterp spec fn value_tree(v: serde_json::Value) -> JsonTree;

/// The value that `serde_json` reads from these bytes, where it reads one.
pub uninterp spec fn parsed_json(bytes: Seq<u8>) -> Option<JsonTree>;

/// The text that `serde_json` writes for a value.
pub uninterp spec fn rendered_json(tree: JsonTree) -> Seq<char>;

/// The text that `serde_json` writes for a value, over several lines.
pub uninterp spec fn pretty_json(tree: JsonTree) -> Seq<char>;

/// The outermost layer of a `serde_json` value, with the values inside it borrowed.
enum Opened<'a> {
    Null,
    Bool(bool),
    Number(serde_json::Number),
    Text(String),
    Array(Vec<&'a serde_json::Value>),
    Object(Vec<(&'a String, &'a serde_json::Value)>),
}

/// What a number says.
pub open spec fn number_tree(n: serde_json::Number) -> JsonTree {
    match number_whole(n) {
        Some(whole) => JsonTree::Whole(whole),
        None => JsonTree::Number(n),
    }
}

spec fn opened_tree(o: Opened) -> JsonTree {
    match o {
        Opened::Null => JsonTree::Null,
        Opened::Bool(b) => JsonTree::Bool(b),
        Opened::Number(n) => number_tree(n),
        Opened::Text(s) => JsonTree::Text(s@),
        Opened::Array(items) => JsonTree::Array(
            items@.map_values(|v: &serde_json::Value| value_tree(*v)),
        ),
        Opened::Object(fields) => JsonTree::Object(
            fields@.map_values(|f: (&String, &serde_json::Value)| (f.0@, value_tree(*f.1))),
        ),
    }
}

/// The outermost layer of a `serde_json` value, to be made into one.
enum Parts {
    Null,
    Bool(bool),
    Whole(u64),
    Number(serde_json::Number),
    Text(String),
    Array(Vec<serde_json::Value>),
    Object(Vec<(String, serde_json::Value)>),
}

spec fn parts_tree(p: Parts) -> JsonTree {
    match p {
        Parts::Null => JsonTree::Null,
        Parts::Bool(b) => JsonTree::Bool(b),
        Parts::Whole(n) => JsonTree::Whole(n),
        Parts::Number(n) => number_tree(n),
        Parts::Text(s) => JsonTree::Text(s@),
        Parts::Array(items) => JsonTree::Array(
            items@.map_values(|v: serde_json::Value| value_tree(v)),
        ),
        Parts::Object(fields) => JsonTree::Object(
            fields@.map_values(|f: (String, serde_json::Value)| (f.0@, value_tree(f.1))),
        ),
    }
}

/// The variants of `serde_json::Value`, told apart. An object's fields come in ascending order,
/// none twice: `serde_json::Map` is a `BTreeMap` here.
#[verifier::external_body]
fn open(v: &serde_json::Value) -> (r: Opened<'_>)
    ensures
        opened_tree(r) == value_tree(*v),
        opened_tree(r) matches JsonTree::Object(fields) ==> sorted_keys(fields),
{
    match v {
        serde_json::Value::Null => Opened::Null,
        serde_json::Value::Bool(b) => Opened::Bool(*b),
        serde_json::Value::Number(n) => Opened::Number(n.clone()),
        serde_json::Value::String(s) => Opened::Text(s.clone()),
        serde_json::Value::Array(items) => Opened::Array(items.iter().collect()),
        serde_json::Value::Object(fields) => Opened::Object(fields.iter().collect()),
    }
}

/// The variants of `serde_json::Value`, made. An object is made of fields in ascending order,
/// none twice, which is how `serde_json::Map` keeps them.
#[verifier::external_body]
fn close(p: Parts) -> (r: serde_json::Value)
    requires
        p matches Parts::Object(_) ==> sorted_keys(parts_tree(p)->Object_0),
    ensures
        value_tree(r) == parts_tree(p),
{
    match p {
        Parts::Null => serde_json::Value::Null,
        Parts::Bool(b) => serde_json::Value::Bool(b),
        Parts::Whole(n) => serde_json::Value::from(n),
        Parts::Number(n) => serde_json::Value::Number(n),
        Parts::Text(s) => serde_json::Value::String(s),
        Parts::Array(items) => serde_json::Value::Array(items),
        Parts::Object(fields) => serde_json::Value::Object(fields.into_iter().collect()),
    }
}

/// `serde_json::from_slice`: the value that the bytes write.
#[verifier::external_body]
fn read_value(bytes: &[u8]) -> (r: Option<serde_json::Value>)
    ensures
        match r {
            Some(v) => parsed_json(bytes@) == Some(value_tree(v)),
            None => parsed_json(bytes@) is None,
        },
{
    serde_json::from_slice(bytes).ok()
}

/// `serde_json::Value`'s compact text, which stands in one line: line ends inside texts are
/// escaped. Reading it gives the value back where no number is a floating-point one and the nesting
/// is at most 127 deep, which is as deep as the reader goes; so does reading it member by member.
#[verifier::external_body]
fn write_value(v: &serde_json::Value) -> (r: String)
    ensures
        r@ == rendered_json(value_tree(*v)),
        !r@.contains('\n') && !r@.contains('\r'),
        value_tree(*v) is Object ==> r@.len() > 0 && r@[0] == '{',
        value_tree(*v).plain(127) ==> parsed_json(encode_utf8(r@)) == Some(value_tree(*v))
            && spells_alone(encode_utf8(r@), value_tree(*v)),
{
    v.to_string()
}

/// `serde_json::Value`'s text over several lines. Reading it gives the value back where no number
/// is a floating-point one and the nesting is at most 127 deep, which is as deep as the reader
/// goes; so does reading it member by member. A line end behind the text changes nothing of that.
#[verifier::external_body]
fn write_value_pretty(v: &serde_json::Value) -> (r: String)
    ensures
        r@ == pretty_json(value_tree(*v)),
        value_tree(*v).plain(127) ==> parsed_json(encode_utf8(r@)) == Some(value_tree(*v))
            && spells_alone(encode_utf8(r@), value_tree(*v)),
        value_tree(*v).plain(127) ==> parsed_json(encode_utf8(r@.push('\n'))) == Some(
            value_tree(*v),
        ) && spells_alone(encode_utf8(r@.push('\n')), value_tree(*v)),
{
    format!("{v:#}")
}

pub(crate) fn from_value(v: &serde_json::Value) -> (r: Json)
    ensures
        r.tree() == value_tree(*v),
        r.tree().wf(),
    decreases value_tree(*v),
{
    match open(v) {
        Opened::Null => Json::Null,
        Opened::Bool(b) => Json::Bool(b),
        Opened::Number(n) => match as_whole(&n) {
            Some(whole) => Json::Whole(whole),
            None => Json::Number(n),
        },
        Opened::Text(s) => Json::Text(s),
        Opened::Array(items) => {
            let ghost kids = value_tree(*v)->Array_0;
            let mut out: Vec<Json> = Vec::new();
            let mut i: usize = 0;
            while i < items.len()
                invariant
                    i <= items@.len(),
                    out@.len() == i,
                    value_tree(*v) == JsonTree::Array(kids),
                    kids.len() == items@.len(),
                    forall|k: int|
                        0 <= k < kids.len() ==> #[trigger] kids[k] == value_tree(*items@[k]),
                    forall|k: int|
                        0 <= k < i ==> (#[trigger] out@[k]).tree() == kids[k] && kids[k].wf(),
                decreases items@.len() - i,
            {
                assert(decreases_to!(value_tree(*v) => value_tree(*v)->Array_0));
                assert(decreases_to!(
                    value_tree(*v)->Array_0 => value_tree(*v)->Array_0[i as int]
                ));
                out.push(from_value(items[i]));
                i += 1;
            }
            let r = Json::Array(out);
            assert(r.tree()->Array_0 =~= kids);
            assert forall|k: int| 0 <= k < kids.len() implies (#[trigger] kids[k]).wf() by {
                assert(out@[k].tree() == kids[k]);
            }
            r
        },
        Opened::Object(fields) => {
            let ghost kids = value_tree(*v)->Object_0;
            let mut out: Vec<(String, Json)> = Vec::new();
            let mut i: usize = 0;
            while i < fields.len()
                invariant
                    i <= fields@.len(),
                    out@.len() == i,
                    value_tree(*v) == JsonTree::Object(kids),
                    kids.len() == fields@.len(),
                    forall|k: int|
                        0 <= k < kids.len() ==> #[trigger] kids[k] == (
                            fields@[k].0@,
                            value_tree(*fields@[k].1),
                        ),
                    forall|k: int|
                        0 <= k < i ==> (#[trigger] out@[k]).0@ == kids[k].0 && out@[k].1.tree()
                            == kids[k].1 && kids[k].1.wf(),
                decreases fields@.len() - i,
            {
                assert(decreases_to!(value_tree(*v) => value_tree(*v)->Object_0));
                assert(decreases_to!(
                    value_tree(*v)->Object_0 => value_tree(*v)->Object_0[i as int]
                ));
                assert(decreases_to!(
                    value_tree(*v)->Object_0[i as int] => value_tree(*v)->Object_0[i as int].1
                ));
                assert(kids[i as int] == (fields@[i as int].0@, value_tree(*fields@[i as int].1)));
                out.push((fields[i].0.clone(), from_value(fields[i].1)));
                i += 1;
            }
            let r = Json::Object(out);
            assert(r.tree()->Object_0 =~= kids);
            assert forall|k: int| 0 <= k < kids.len() implies (#[trigger] kids[k]).1.wf() by {
                assert(out@[k].1.tree() == kids[k].1);
            }
            r
        },
    }
}

fn to_value(j: &Json) -> (r: serde_json::Value)
    requires
        j.tree().wf(),
    ensures
        value_tree(r) == j.tree(),
    decreases j,
{
    match j {
        Json::Null => close(Parts::Null),
        Json::Bool(b) => close(Parts::Bool(*b)),
        Json::Whole(n) => close(Parts::Whole(*n)),
        Json::Number(n) => close(Parts::Number(n.clone())),
        Json::Text(s) => close(Parts::Text(s.clone())),
        Json::Array(items) => {
            let mut out: Vec<serde_json::Value> = Vec::new();
            let mut i: usize = 0;
            while i < items.len()
                invariant
                    i <= items@.len(),
                    out@.len() == i,
                    j == Json::Array(*items),
                    j.tree().wf(),
                    forall|k: int|
                        0 <= k < i ==> value_tree(#[trigger] out@[k]) == items@[k].tree(),
                decreases items@.len() - i,
            {
                assert(decreases_to!(*j => j->Array_0));
                assert(decreases_to!(j->Array_0 => j->Array_0[i as int]));
                assert(j.tree()->Array_0[i as int].wf());
                out.push(to_value(&items[i]));
                i += 1;
            }
            let p = Parts::Array(out);
            assert(parts_tree(p)->Array_0 =~= j.tree()->Array_0);
            close(p)
        },
        Json::Object(fields) => {
            let mut out: Vec<(String, serde_json::Value)> = Vec::new();
            let mut i: usize = 0;
            while i < fields.len()
                invariant
                    i <= fields@.len(),
                    out@.len() == i,
                    j == Json::Object(*fields),
                    j.tree().wf(),
                    forall|k: int|
                        0 <= k < i ==> (#[trigger] out@[k]).0@ == fields@[k].0@ && value_tree(
                            out@[k].1,
                        ) == fields@[k].1.tree(),
                decreases fields@.len() - i,
            {
                assert(decreases_to!(*j => j->Object_0));
                assert(decreases_to!(j->Object_0 => j->Object_0[i as int]));
                assert(decreases_to!(j->Object_0[i as int] => j->Object_0[i as int].1));
                assert(j.tree()->Object_0[i as int].1.wf());
                out.push((fields[i].0.clone(), to_value(&fields[i].1)));
                i += 1;
            }
            let p = Parts::Object(out);
            assert(parts_tree(p)->Object_0 =~= j.tree()->Object_0);
            close(p)
        },
    }
}

impl Json {
    /// What the value says.
    pub open spec fn tree(self) -> JsonTree
        decreases self,
    {
        match self {
            Json::Null => JsonTree::Null,
            Json::Bool(b) => JsonTree::Bool(b),
            Json::Whole(n) => JsonTree::Whole(n),
            Json::Number(n) => JsonTree::Number(n),
            Json::Text(s) => JsonTree::Text(s@),
            Json::Array(items) => JsonTree::Array(
                Seq::new(
                    items@.len(),
                    |i: int|
                        if 0 <= i < items@.len() {
                            items@[i].tree()
                        } else {
                            arbitrary()
                        },
                ),
            ),
            Json::Object(fields) => JsonTree::Object(
                Seq::new(
                    fields@.len(),
                    |i: int|
                        if 0 <= i < fields@.len() {
                            (fields@[i].0@, fields@[i].1.tree())
                        } else {
                            arbitrary()
                        },
                ),
            ),
        }
    }

    /// Reads a value from bytes.
    pub fn parse_bytes(bytes: &[u8]) -> (r: Option<Json>)
        ensures
            match r {
                Some(j) => parsed_json(bytes@) == Some(j.tree()) && j.tree().wf(),
                None => parsed_json(bytes@) is None,
            },
    {
        match read_value(bytes) {
            Some(v) => Some(from_value(&v)),
            None => None,
        }
    }

    /// Reads a value from text.
    pub fn parse(text: &str) -> (r: Option<Json>)
        ensures
            match r {
                Some(j) => parsed_json(encode_utf8(text@)) == Some(j.tree()) && j.tree().wf(),
                None => parsed_json(encode_utf8(text@)) is None,
            },
    {
        Json::parse_bytes(text.as_bytes())
    }

    /// The value's text on one line.
    pub fn to_text(&self) -> (r: String)
        requires
            self.tree().wf(),
        ensures
            r@ == rendered_json(self.tree()),
            !r@.contains('\n') && !r@.contains('\r'),
            self.tree() is Object ==> r@.len() > 0 && r@[0] == '{',
            self.tree().plain(127) ==> parsed_json(encode_utf8(r@)) == Some(self.tree())
                && spells_alone(encode_utf8(r@), self.tree()),
    {
        write_value(&to_value(self))
    }

    /// The value's text over several lines.
    pub fn to_pretty_text(&self) -> (r: String)
        requires
            self.tree().wf(),
        ensures
            r@ == pretty_json(self.tree()),
            self.tree().plain(127) ==> parsed_json(encode_utf8(r@)) == Some(self.tree())
                && spells_alone(encode_utf8(r@), self.tree()),
            self.tree().plain(127) ==> parsed_json(encode_utf8(r@.push('\n'))) == Some(
                self.tree(),
            ) && spells_alone(encode_utf8(r@.push('\n')), self.tree()),
    {
        write_value_pretty(&to_value(self))
    }

    /// Whether no number is a floating-point one and values are nested at most `depth` deep. A value
    /// that is so at depth 127 reads back as it was written.
    pub fn is_plain(&self, depth: u8) -> (r: bool)
        ensures
            r == self.tree().plain(depth as nat),
        decreases depth,
    {
        match self {
            Json::Number(n) => !is_float(n),
            Json::Array(items) => {
                if depth == 0 {
                    return false;
                }
                let mut i: usize = 0;
                while i < items.len()
                    invariant
                        i <= items@.len(),
                        depth > 0,
                        self == Json::Array(*items),
                        forall|k: int|
                            0 <= k < i ==> (#[trigger] self.tree()->Array_0[k]).plain(
                                (depth - 1) as nat,
                            ),
                    decreases items@.len() - i,
                {
                    assert(self.tree()->Array_0[i as int] == items@[i as int].tree());
                    if !items[i].is_plain(depth - 1) {
                        return false;
                    }
                    i += 1;
                }
                true
            },
            Json::Object(fields) => {
                if depth == 0 {
                    return false;
                }
                let mut i: usize = 0;
                while i < fields.len()
                    invariant
                        i <= fields@.len(),
                        depth > 0,
                        self == Json::Object(*fields),
                        forall|k: int|
                            0 <= k < i ==> (#[trigger] self.tree()->Object_0[k]).1.plain(
                                (depth - 1) as nat,
                            ),
                    decreases fields@.len() - i,
                {
                    assert(self.tree()->Object_0[i as int].1 == fields@[i as int].1.tree());
                    if !fields[i].1.is_plain(depth - 1) {
                        return false;
                    }
                    i += 1;
                }
                true
            },
            _ => true,
        }
    }

    /// Whether values are nested at most `depth` deep.
    pub fn is_nested(&self, depth: u8) -> (r: bool)
        ensures
            r == self.tree().nested(depth as nat),
        decreases depth,
    {
        match self {
            Json::Array(items) => {
                if depth == 0 {
                    return false;
                }
                let mut i: usize = 0;
                while i < items.len()
                    invariant
                        i <= items@.len(),
                        depth > 0,
                        self == Json::Array(*items),
                        forall|k: int|
                            0 <= k < i ==> (#[trigger] self.tree()->Array_0[k]).nested(
                                (depth - 1) as nat,
                            ),
                    decreases items@.len() - i,
                {
                    assert(self.tree()->Array_0[i as int] == items@[i as int].tree());
                    if !items[i].is_nested(depth - 1) {
                        return false;
                    }
                    i += 1;
                }
                true
            },
            Json::Object(fields) => {
                if depth == 0 {
                    return false;
                }
                let mut i: usize = 0;
                while i < fields.len()
                    invariant
                        i <= fields@.len(),
                        depth > 0,
                        self == Json::Object(*fields),
                        forall|k: int|
                            0 <= k < i ==> (#[trigger] self.tree()->Object_0[k]).1.nested(
                                (depth - 1) as nat,
                            ),
                    decreases fields@.len() - i,
                {
                    assert(self.tree()->Object_0[i as int].1 == fields@[i as int].1.tree());
                    if !fields[i].1.is_nested(depth - 1) {
                        return false;
                    }
                    i += 1;
                }
                true
            },
            _ => true,
        }
    }

    /// A text value.
    pub fn text(s: &str) -> (r: Json)
        ensures
            r.tree() == JsonTree::Text(s@),
    {
        Json::Text(s.to_string())
    }

    /// The object without fields.
    pub fn object() -> (r: Json)
        ensures
            r.tree() == empty_object(),
            r.tree().wf(),
    {
        let r = Json::Object(Vec::new());
        assert(r.tree()->Object_0 =~= Seq::<(Seq<char>, JsonTree)>::empty());
        r
    }

    /// The value of an object's field.
    pub fn get(&self, key: &str) -> (r: Option<&Json>)
        ensures
            match r {
                Some(j) => self.tree().get(key@) == Some(j.tree()),
                None => self.tree().get(key@) is None,
            },
            self.tree().wf() ==> (r matches Some(j) ==> j.tree().wf()),
    {
        match self {
            Json::Object(fields) => {
                let ghost f = self.tree()->Object_0;
                let mut i: usize = 0;
                while i < fields.len()
                    invariant
                        i <= fields@.len(),
                        self == Json::Object(*fields),
                        f == self.tree()->Object_0,
                        forall|j: int| 0 <= j < i ==> (#[trigger] f[j]).0 != key@,
                    decreases fields@.len() - i,
                {
                    if same_text(fields[i].0.as_str(), key) {
                        proof {
                            assert(f[i as int].0 == key@);
                            key_index_is(f, key@, i as int);
                        }
                        return Some(&fields[i].1);
                    }
                    assert(f[i as int].0 != key@);
                    i += 1;
                }
                proof {
                    key_index_is(f, key@, i as int);
                }
                None
            },
            _ => None,
        }
    }

    /// The text, of a text.
    pub fn as_str(&self) -> (r: Option<&str>)
        ensures
            match r {
                Some(s) => self.tree().text() == Some(s@),
                None => self.tree().text() is None,
            },
    {
        match self {
            Json::Text(s) => Some(s.as_str()),
            _ => None,
        }
    }

    /// The text of an object's field, of a field that is one.
    pub fn get_str(&self, key: &str) -> (r: Option<&str>)
        ensures
            match r {
                Some(s) => self.tree().get_text(key@) == Some(s@),
                None => self.tree().get_text(key@) is None,
            },
    {
        match self.get(key) {
            Some(j) => j.as_str(),
            None => None,
        }
    }

    /// The object with one field set; any other value as it is.
    pub fn with(self, key: &str, value: Json) -> (r: Json)
        ensures
            r.tree() == self.tree().with(key@, value.tree()),
            self.tree().wf() && value.tree().wf() ==> r.tree().wf(),
    {
        let ghost whole = self.tree();
        let ghost set = value.tree();
        proof {
            if whole.wf() && set.wf() {
                with_is_wf(whole, key@, set);
            }
        }
        match self {
            Json::Object(fields) => {
                let mut fields = fields;
                let ghost f = whole->Object_0;
                let mut i: usize = 0;
                while i < fields.len() && !same_text(fields[i].0.as_str(), key)
                    invariant
                        i <= fields@.len(),
                        f.len() == fields@.len(),
                        forall|j: int|
                            0 <= j < f.len() ==> #[trigger] f[j] == (
                                fields@[j].0@,
                                fields@[j].1.tree(),
                            ),
                        forall|j: int| 0 <= j < i ==> (#[trigger] f[j]).0 != key@,
                    decreases fields@.len() - i,
                {
                    assert(f[i as int].0 == fields@[i as int].0@);
                    i += 1;
                }
                proof {
                    if i < f.len() {
                        assert(f[i as int].0 == fields@[i as int].0@);
                    }
                    key_index_is(f, key@, i as int);
                }
                if i < fields.len() {
                    fields.set(i, (key.to_string(), value));
                    let r = Json::Object(fields);
                    assert(r.tree()->Object_0 =~= f.update(i as int, (key@, set)));
                    return r;
                }
                let mut p: usize = 0;
                while p < fields.len() && before(fields[p].0.as_str(), key)
                    invariant
                        p <= fields@.len(),
                        f.len() == fields@.len(),
                        forall|j: int|
                            0 <= j < f.len() ==> #[trigger] f[j] == (
                                fields@[j].0@,
                                fields@[j].1.tree(),
                            ),
                        forall|j: int| 0 <= j < p ==> text_before((#[trigger] f[j]).0, key@),
                    decreases fields@.len() - p,
                {
                    assert(f[p as int].0 == fields@[p as int].0@);
                    p += 1;
                }
                proof {
                    if p < f.len() {
                        assert(f[p as int].0 == fields@[p as int].0@);
                    }
                    sorted_place_is(f, key@, p as int);
                }
                fields.insert(p, (key.to_string(), value));
                let r = Json::Object(fields);
                assert(r.tree()->Object_0 =~= f.insert(p as int, (key@, set)));
                r
            },
            other => other,
        }
    }

    /// A copy of the value.
    pub fn copy(&self) -> (r: Json)
        ensures
            r.tree() == self.tree(),
        decreases self,
    {
        match self {
            Json::Null => Json::Null,
            Json::Bool(b) => Json::Bool(*b),
            Json::Whole(n) => Json::Whole(*n),
            Json::Number(n) => Json::Number(n.clone()),
            Json::Text(s) => Json::Text(s.clone()),
            Json::Array(items) => {
                let mut out: Vec<Json> = Vec::new();
                let mut i: usize = 0;
                while i < items.len()
                    invariant
                        i <= items@.len(),
                        out@.len() == i,
                        self == Json::Array(*items),
                        forall|k: int|
                            0 <= k < i ==> (#[trigger] out@[k]).tree() == items@[k].tree(),
                    decreases items@.len() - i,
                {
                    assert(decreases_to!(*self => self->Array_0));
                    assert(decreases_to!(self->Array_0 => self->Array_0[i as int]));
                    out.push(items[i].copy());
                    i += 1;
                }
                let r = Json::Array(out);
                assert(r.tree()->Array_0 =~= self.tree()->Array_0);
                r
            },
            Json::Object(fields) => {
                let mut out: Vec<(String, Json)> = Vec::new();
                let mut i: usize = 0;
                while i < fields.len()
                    invariant
                        i <= fields@.len(),
                        out@.len() == i,
                        self == Json::Object(*fields),
                        forall|k: int|
                            0 <= k < i ==> (#[trigger] out@[k]).0@ == fields@[k].0@
                                && out@[k].1.tree() == fields@[k].1.tree(),
                    decreases fields@.len() - i,
                {
                    assert(decreases_to!(*self => self->Object_0));
                    assert(decreases_to!(self->Object_0 => self->Object_0[i as int]));
                    assert(decreases_to!(self->Object_0[i as int] => self->Object_0[i as int].1));
                    out.push((fields[i].0.clone(), fields[i].1.copy()));
                    i += 1;
                }
                let r = Json::Object(out);
                assert(r.tree()->Object_0 =~= self.tree()->Object_0);
                r
            },
        }
    }
}

} // verus!
