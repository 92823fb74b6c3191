//! Lists of keyed entries.
use crate::text::{text_before, text_order_is_total, text_order_is_transitive};
use vstd::prelude::*;

verus! {

/// Where the first entry with this key stands; the length where there is none.
pub open spec fn key_index<V>(t: Seq<(Seq<char>, V)>, key: Seq<char>) -> nat
    decreases t.len(),
{
    if t.len() == 0 || t[0].0 == key {
        0
    } else {
        1 + key_index(t.drop_first(), key)
    }
}

/// The value of the first entry with this key.
pub open spec fn key_value<V>(t: Seq<(Seq<char>, V)>, key: Seq<char>) -> Option<V> {
    let i = key_index(t, key) as int;
    if i < t.len() {
        Some(t[i].1)
    } else {
        None
    }
}

/// No key stands twice.
pub open spec fn distinct_keys<V>(t: Seq<(Seq<char>, V)>) -> bool {
    forall|i: int, j: int| 0 <= i < j < t.len() ==> (#[trigger] t[i]).0 != (#[trigger] t[j]).0
}

/// The keys stand in ascending order, none twice.
pub open spec fn sorted_keys<V>(t: Seq<(Seq<char>, V)>) -> bool {
    forall|i: int, j: int|
        0 <= i < j < t.len() ==> text_before((#[trigger] t[i]).0, (#[trigger] t[j]).0)
}

/// The index of a key is where it first stands.
pub proof fn key_index_is<V>(t: Seq<(Seq<char>, V)>, key: Seq<char>, i: int)
    requires
        0 <= i <= t.len(),
        i < t.len() ==> t[i].0 == key,
        forall|j: int| 0 <= j < i ==> (#[trigger] t[j]).0 != key,
    ensures
        key_index(t, key) == i,
    decreases i,
{
    if i > 0 {
        assert(t[0].0 != key);
        let s = t.drop_first();
        assert forall|j: int| 0 <= j < i - 1 implies (#[trigger] s[j]).0 != key by {
            assert(s[j] == t[j + 1]);
        }
        key_index_is(s, key, i - 1);
    }
}

/// What the index of a key says.
pub proof fn key_index_says<V>(t: Seq<(Seq<char>, V)>, key: Seq<char>)
    ensures
        key_index(t, key) <= t.len(),
        key_index(t, key) < t.len() ==> t[key_index(t, key) as int].0 == key,
        forall|j: int| 0 <= j < key_index(t, key) ==> (#[trigger] t[j]).0 != key,
    decreases t.len(),
{
    if t.len() > 0 && t[0].0 != key {
        let s = t.drop_first();
        key_index_says(s, key);
        assert forall|j: int| 0 <= j < key_index(t, key) implies (#[trigger] t[j]).0 != key by {
            if j > 0 {
                assert(t[j] == s[j - 1]);
            }
        }
    }
}

/// Keys in ascending order are distinct.
pub proof fn sorted_keys_are_distinct<V>(t: Seq<(Seq<char>, V)>)
    requires
        sorted_keys(t),
    ensures
        distinct_keys(t),
{
    assert forall|i: int, j: int| 0 <= i < j < t.len() implies (#[trigger] t[i]).0 != (
    #[trigger] t[j]).0 by {
        text_order_is_total(t[i].0, t[j].0);
    }
}

/// How many of the leading keys stand before `key`.
pub open spec fn sorted_place<V>(t: Seq<(Seq<char>, V)>, key: Seq<char>) -> nat
    decreases t.len(),
{
    if t.len() == 0 || !text_before(t[0].0, key) {
        0
    } else {
        1 + sorted_place(t.drop_first(), key)
    }
}

/// The place of a key is behind the leading keys that stand before it.
pub proof fn sorted_place_is<V>(t: Seq<(Seq<char>, V)>, key: Seq<char>, i: int)
    requires
        0 <= i <= t.len(),
        i < t.len() ==> !text_before(t[i].0, key),
        forall|j: int| 0 <= j < i ==> text_before((#[trigger] t[j]).0, key),
    ensures
        sorted_place(t, key) == i,
    decreases i,
{
    if i > 0 {
        assert(text_before(t[0].0, key));
        let s = t.drop_first();
        assert forall|j: int| 0 <= j < i - 1 implies text_before((#[trigger] s[j]).0, key) by {
            assert(s[j] == t[j + 1]);
        }
        sorted_place_is(s, key, i - 1);
    }
}

/// What the place of a key says.
pub proof fn sorted_place_says<V>(t: Seq<(Seq<char>, V)>, key: Seq<char>)
    ensures
        sorted_place(t, key) <= t.len(),
        sorted_place(t, key) < t.len() ==> !text_before(t[sorted_place(t, key) as int].0, key),
        forall|j: int| 0 <= j < sorted_place(t, key) ==> text_before((#[trigger] t[j]).0, key),
    decreases t.len(),
{
    if t.len() > 0 && text_before(t[0].0, key) {
        let s = t.drop_first();
        sorted_place_says(s, key);
        assert forall|j: int| 0 <= j < sorted_place(t, key) implies text_before(
            (#[trigger] t[j]).0,
            key,
        ) by {
            if j > 0 {
                assert(t[j] == s[j - 1]);
            }
        }
    }
}

/// The list with the entry for `key` replaced, or with a new one at its place in the order.
pub open spec fn key_put<V>(t: Seq<(Seq<char>, V)>, key: Seq<char>, value: V) -> Seq<
    (Seq<char>, V),
> {
    let i = key_index(t, key) as int;
    if i < t.len() {
        t.update(i, (key, value))
    } else {
        t.insert(sorted_place(t, key) as int, (key, value))
    }
}

/// Putting an entry keeps the order.
pub proof fn put_keeps_order<V>(t: Seq<(Seq<char>, V)>, key: Seq<char>, value: V)
    requires
        sorted_keys(t),
    ensures
        sorted_keys(key_put(t, key, value)),
{
    key_index_says(t, key);
    sorted_place_says(t, key);
    let i = key_index(t, key) as int;
    let s = key_put(t, key, value);
    if i < t.len() {
        assert forall|a: int, b: int| 0 <= a < b < s.len() implies text_before(
            (#[trigger] s[a]).0,
            (#[trigger] s[b]).0,
        ) by {
            assert(s[a].0 == t[a].0 && s[b].0 == t[b].0);
        }
    } else {
        let p = sorted_place(t, key) as int;
        assert forall|b: int| p <= b < t.len() implies text_before(key, (#[trigger] t[b]).0) by {
            text_order_is_total(t[p].0, key);
            if b > p {
                text_order_is_transitive(key, t[p].0, t[b].0);
            }
        }
        assert forall|a: int, b: int| 0 <= a < b < s.len() implies text_before(
            (#[trigger] s[a]).0,
            (#[trigger] s[b]).0,
        ) by {
            assert(s[a] == if a < p {
                t[a]
            } else if a == p {
                (key, value)
            } else {
                t[a - 1]
            });
            assert(s[b] == if b < p {
                t[b]
            } else if b == p {
                (key, value)
            } else {
                t[b - 1]
            });
        }
    }
}

/// After an entry is put, its key has that value and the others keep theirs.
pub proof fn put_is_found<V>(t: Seq<(Seq<char>, V)>, key: Seq<char>, value: V, other: Seq<char>)
    requires
        distinct_keys(t),
    ensures
        key_value(key_put(t, key, value), key) == Some(value),
        other != key ==> key_value(key_put(t, key, value), other) == key_value(t, other),
        distinct_keys(key_put(t, key, value)),
{
    key_index_says(t, key);
    key_index_says(t, other);
    sorted_place_says(t, key);
    let i = key_index(t, key) as int;
    let o = key_index(t, other) as int;
    let s = key_put(t, key, value);
    if i < t.len() {
        assert forall|j: int| 0 <= j < s.len() implies (#[trigger] s[j]).0 == t[j].0 by {}
        assert forall|j: int| 0 <= j < i implies (#[trigger] s[j]).0 != key by {
            assert(t[j].0 != key);
        }
        key_index_is(s, key, i);
        assert forall|j: int| 0 <= j < o implies (#[trigger] s[j]).0 != other by {
            assert(t[j].0 != other);
        }
        key_index_is(s, other, o);
        assert forall|a: int, b: int| 0 <= a < b < s.len() implies (#[trigger] s[a]).0 != (
        #[trigger] s[b]).0 by {
            assert(t[a].0 != t[b].0);
        }
    } else {
        let p = sorted_place(t, key) as int;
        assert forall|a: int| 0 <= a < s.len() implies #[trigger] s[a] == if a < p {
            t[a]
        } else if a == p {
            (key, value)
        } else {
            t[a - 1]
        } by {}
        assert forall|j: int| 0 <= j < p implies (#[trigger] s[j]).0 != key by {
            assert(t[j].0 != key);
        }
        key_index_is(s, key, p);
        if other != key {
            let q = if o < p {
                o
            } else {
                o + 1
            };
            assert forall|j: int| 0 <= j < q implies (#[trigger] s[j]).0 != other by {
                if j < p {
                    assert(t[j].0 != other);
                } else if j > p {
                    assert(t[j - 1].0 != other);
                }
            }
            key_index_is(s, other, q);
        }
        assert forall|a: int, b: int| 0 <= a < b < s.len() implies (#[trigger] s[a]).0 != (
        #[trigger] s[b]).0 by {
            if a < p && b < p {
                assert(t[a].0 != t[b].0);
            } else if a < p && b > p {
                assert(t[a].0 != t[b - 1].0);
            } else if a > p {
                assert(t[a - 1].0 != t[b - 1].0);
            } else if a == p {
                assert(t[b - 1].0 != key);
            } else {
                assert(t[a].0 != key);
            }
        }
    }
}

/// A key has a value if and only if an entry has that key: the value of the first such entry.
pub proof fn value_is_of_the_first_entry<V>(t: Seq<(Seq<char>, V)>, key: Seq<char>)
    ensures
        key_value(t, key) is None <==> forall|i: int| 0 <= i < t.len() ==> (#[trigger] t[i]).0 != key,
        key_value(t, key) matches Some(v) ==> exists|i: int|
            0 <= i < t.len() && #[trigger] t[i] == (key, v) && forall|j: int|
                0 <= j < i ==> (#[trigger] t[j]).0 != key,
{
    key_index_says(t, key);
    let i = key_index(t, key) as int;
    if i < t.len() {
        assert(t[i].0 == key);
        assert(t[i] == (key, t[i].1));
    }
}

} // verus!
