//! The keys under which messages and log entries are stored, and what their order means.
//!
//! A message's key is its recipient, a NUL and a sequence number of twenty digits, so that the
//! keys of one recipient are a range, in the order of insertion.
use crate::lookup::{
    key_index, key_index_says, key_put, put_keeps_order, sorted_keys, sorted_place,
    sorted_place_says,
};
use crate::text::{
    padded_order, padded_text, padded_text_has_len, push_char, push_padded, text_before,
    text_order_is_total, text_order_skips_prefix, u64_fits_twenty_digits,
};
use vstd::prelude::*;

verus! {

/// The key of a message: its recipient, a NUL and its sequence number.
pub open spec fn message_key(recipient: Seq<char>, seq: nat) -> Seq<char> {
    recipient.push('\0') + padded_text(seq, 20)
}

/// The key of a message.
pub fn msg_key(recipient: &str, seq: u64) -> (r: String)
    ensures
        r@ == message_key(recipient@, seq as nat),
{
    let mut out = recipient.to_string();
    push_char(&mut out, '\0');
    push_padded(&mut out, seq, 20);
    out
}

/// The key of a log entry: its peer, a NUL, its time, a NUL and its message's id.
pub open spec fn entry_key(peer: Seq<char>, ts: nat, msg_id: Seq<char>) -> Seq<char> {
    (peer.push('\0') + padded_text(ts, 20)).push('\0') + msg_id
}

/// The key of a log entry.
pub fn log_index_key(peer: &str, ts: u64, msg_id: &str) -> (r: String)
    ensures
        r@ == entry_key(peer@, ts as nat, msg_id@),
{
    let mut out = peer.to_string();
    push_char(&mut out, '\0');
    push_padded(&mut out, ts, 20);
    push_char(&mut out, '\0');
    out.append(msg_id);
    out
}

/// The bounds of the keys that begin with a name and a NUL.
pub fn recipient_bounds(recipient: &str) -> (r: (String, String))
    ensures
        r.0@ == recipient@.push('\0'),
        r.1@ == recipient@.push('\u{1}'),
{
    let mut lo = recipient.to_string();
    let mut hi = recipient.to_string();
    push_char(&mut lo, '\0');
    push_char(&mut hi, '\u{1}');
    (lo, hi)
}

/// The key is at least `lo` and before `hi`.
pub open spec fn in_range(key: Seq<char>, lo: Seq<char>, hi: Seq<char>) -> bool {
    !text_before(key, lo) && text_before(key, hi)
}

/// The entries of a table with keys from `lo` to before `hi`, in the order of the keys.
pub open spec fn is_listing<V>(
    table: Map<Seq<char>, V>,
    lo: Seq<char>,
    hi: Seq<char>,
    entries: Seq<(Seq<char>, V)>,
) -> bool {
    &&& sorted_keys(entries)
    &&& forall|i: int|
        0 <= i < entries.len() ==> in_range((#[trigger] entries[i]).0, lo, hi)
            && table.contains_key(entries[i].0) && table[entries[i].0] == entries[i].1
    &&& forall|key: Seq<char>| #[trigger]
        table.contains_key(key) && in_range(key, lo, hi) ==> lists_key(entries, key)
}

/// The key is one of the entries'.
pub open spec fn lists_key<V>(entries: Seq<(Seq<char>, V)>, key: Seq<char>) -> bool {
    exists|i: int| 0 <= i < entries.len() && (#[trigger] entries[i]).0 == key
}

/// The entries of a table in a range, in the order of the keys.
pub open spec fn listing<V>(table: Map<Seq<char>, V>, lo: Seq<char>, hi: Seq<char>) -> Seq<
    (Seq<char>, V),
> {
    choose|entries: Seq<(Seq<char>, V)>| is_listing(table, lo, hi, entries)
}

/// What waits for a recipient, oldest first.
pub open spec fn queue_of(table: Map<Seq<char>, Seq<u8>>, recipient: Seq<char>) -> Seq<
    (Seq<char>, Seq<u8>),
> {
    listing(table, recipient.push('\0'), recipient.push('\u{1}'))
}

/// There is only one listing of a range.
pub proof fn listing_is_unique<V>(
    table: Map<Seq<char>, V>,
    lo: Seq<char>,
    hi: Seq<char>,
    a: Seq<(Seq<char>, V)>,
    b: Seq<(Seq<char>, V)>,
)
    requires
        is_listing(table, lo, hi, a),
        is_listing(table, lo, hi, b),
    ensures
        a == b,
{
    let n = if a.len() < b.len() {
        a.len() as int
    } else {
        b.len() as int
    };
    agree_up_to(table, lo, hi, a, b, n);
    agree_up_to(table, lo, hi, b, a, n);
    no_extra_entry(table, lo, hi, a, b);
    no_extra_entry(table, lo, hi, b, a);
    assert(a =~= b);
}

proof fn agree_up_to<V>(
    table: Map<Seq<char>, V>,
    lo: Seq<char>,
    hi: Seq<char>,
    a: Seq<(Seq<char>, V)>,
    b: Seq<(Seq<char>, V)>,
    n: int,
)
    requires
        is_listing(table, lo, hi, a),
        is_listing(table, lo, hi, b),
        0 <= n <= a.len(),
        n <= b.len(),
    ensures
        forall|i: int| 0 <= i < n ==> #[trigger] a[i] == b[i],
    decreases n,
{
    if n > 0 {
        let m = n - 1;
        agree_up_to(table, lo, hi, a, b, m);
        if a[m].0 != b[m].0 {
            text_order_is_total(a[m].0, b[m].0);
            not_missing(table, lo, hi, a, b, m);
            not_missing(table, lo, hi, b, a, m);
        }
        assert(a[m] == b[m]);
    }
}

/// A key of one listing cannot fall between the keys of the other.
proof fn not_missing<V>(
    table: Map<Seq<char>, V>,
    lo: Seq<char>,
    hi: Seq<char>,
    a: Seq<(Seq<char>, V)>,
    b: Seq<(Seq<char>, V)>,
    m: int,
)
    requires
        is_listing(table, lo, hi, a),
        is_listing(table, lo, hi, b),
        0 <= m < a.len(),
        m < b.len(),
        forall|i: int| 0 <= i < m ==> #[trigger] a[i] == b[i],
    ensures
        !text_before(a[m].0, b[m].0),
{
    if text_before(a[m].0, b[m].0) {
        let key = a[m].0;
        assert(table.contains_key(key) && in_range(key, lo, hi));
        assert(lists_key(b, key));
        let i = choose|i: int| 0 <= i < b.len() && (#[trigger] b[i]).0 == key;
        if i < m {
            assert(a[i] == b[i]);
            assert(text_before(a[i].0, a[m].0));
        } else if i > m {
            assert(text_before(b[m].0, b[i].0));
        }
        text_order_is_total(a[m].0, b[m].0);
        text_order_is_total(key, key);
    }
}

/// One listing is not longer than another that it agrees with.
proof fn no_extra_entry<V>(
    table: Map<Seq<char>, V>,
    lo: Seq<char>,
    hi: Seq<char>,
    a: Seq<(Seq<char>, V)>,
    b: Seq<(Seq<char>, V)>,
)
    requires
        is_listing(table, lo, hi, a),
        is_listing(table, lo, hi, b),
        forall|i: int| 0 <= i < a.len() && i < b.len() ==> #[trigger] a[i] == b[i],
    ensures
        b.len() <= a.len(),
{
    if a.len() < b.len() {
        let n = a.len() as int;
        let key = b[n].0;
        assert(table.contains_key(key) && in_range(key, lo, hi));
        assert(lists_key(a, key));
        let i = choose|i: int| 0 <= i < a.len() && (#[trigger] a[i]).0 == key;
        assert(a[i] == b[i]);
        assert(text_before(b[i].0, b[n].0));
        text_order_is_total(key, key);
    }
}

/// What is a listing is the listing.
pub proof fn listing_is<V>(
    table: Map<Seq<char>, V>,
    lo: Seq<char>,
    hi: Seq<char>,
    entries: Seq<(Seq<char>, V)>,
)
    requires
        is_listing(table, lo, hi, entries),
    ensures
        listing(table, lo, hi) == entries,
{
    let chosen = listing(table, lo, hi);
    assert(is_listing(table, lo, hi, chosen));
    listing_is_unique(table, lo, hi, chosen, entries);
}

/// The keys in a name's range are those that begin with the name and a NUL.
pub proof fn range_is_prefix(name: Seq<char>, key: Seq<char>)
    ensures
        in_range(key, name.push('\0'), name.push('\u{1}')) <==> name.push('\0').is_prefix_of(key),
    decreases name.len(),
{
    let lo = name.push('\0');
    let hi = name.push('\u{1}');
    if name.len() == 0 {
        assert(lo =~= seq!['\0'] && hi =~= seq!['\u{1}']);
        assert(!text_before(key.drop_first(), lo.drop_first()));
        assert(!text_before(key.drop_first(), hi.drop_first()));
        if key.len() > 0 && key[0] == '\0' {
            assert(key.subrange(0, 1) =~= lo);
        }
        if lo.is_prefix_of(key) {
            assert(key.subrange(0, 1)[0] == key[0]);
        }
    } else if key.len() > 0 && key[0] == name[0] {
        let rest = name.drop_first();
        let tail = key.drop_first();
        assert(lo.drop_first() =~= rest.push('\0'));
        assert(hi.drop_first() =~= rest.push('\u{1}'));
        range_is_prefix(rest, tail);
        if rest.push('\0').is_prefix_of(tail) {
            assert(key.subrange(0, lo.len() as int) =~= seq![key[0]] + tail.subrange(
                0,
                rest.push('\0').len() as int,
            ));
            assert(lo =~= seq![name[0]] + rest.push('\0'));
        }
        if lo.is_prefix_of(key) {
            assert(tail.subrange(0, rest.push('\0').len() as int) =~= key.subrange(
                0,
                lo.len() as int,
            ).drop_first());
        }
    } else {
        if lo.is_prefix_of(key) {
            assert(key.subrange(0, lo.len() as int)[0] == key[0]);
        }
    }
}

/// The text holds no NUL.
pub open spec fn nul_free(s: Seq<char>) -> bool {
    forall|i: int| 0 <= i < s.len() ==> s[i] != '\0'
}

/// What follows the first NUL, and what precedes it, are determined.
pub proof fn first_nul_splits(a: Seq<char>, x: Seq<char>, b: Seq<char>, y: Seq<char>)
    requires
        nul_free(a),
        nul_free(b),
        a.push('\0') + x == b.push('\0') + y,
    ensures
        a == b,
        x == y,
{
    let s = a.push('\0') + x;
    let t = b.push('\0') + y;
    assert(s[a.len() as int] == '\0');
    assert(t[b.len() as int] == '\0');
    if a.len() < b.len() {
        assert(t[a.len() as int] == b[a.len() as int]);
    } else if b.len() < a.len() {
        assert(s[b.len() as int] == a[b.len() as int]);
    }
    assert(s.take(a.len() as int) =~= a);
    assert(t.take(a.len() as int) =~= b);
    assert(s.skip(a.len() as int + 1) =~= x);
    assert(t.skip(a.len() as int + 1) =~= y);
}

/// Every stored message has the key of a recipient without a NUL and of a sequence number that
/// was given out.
pub open spec fn keyed_below(table: Map<Seq<char>, Seq<u8>>, next: nat) -> bool {
    forall|key: Seq<char>| #[trigger]
        table.contains_key(key) ==> exists|recipient: Seq<char>, seq: nat|
            nul_free(recipient) && seq < next && seq <= u64::MAX && key == #[trigger] message_key(
                recipient,
                seq,
            )
}

/// A key in a recipient's range is one of its messages'.
proof fn range_key(
    table: Map<Seq<char>, Seq<u8>>,
    next: nat,
    recipient: Seq<char>,
    key: Seq<char>,
) -> (seq: nat)
    requires
        keyed_below(table, next),
        nul_free(recipient),
        table.contains_key(key),
        in_range(key, recipient.push('\0'), recipient.push('\u{1}')),
    ensures
        seq < next,
        seq <= u64::MAX,
        key == message_key(recipient, seq),
{
    let (r, s) = choose|r: Seq<char>, s: nat|
        nul_free(r) && s < next && s <= u64::MAX && key == #[trigger] message_key(r, s);
    range_is_prefix(recipient, key);
    let p = recipient.push('\0');
    let rest = key.skip(p.len() as int);
    assert(key =~= p + rest) by {
        assert(key.subrange(0, p.len() as int) =~= p);
    }
    first_nul_splits(r, padded_text(s, 20), recipient, rest);
    s
}

/// Messages of one recipient stand in the order of their sequence numbers.
pub proof fn message_keys_in_order(recipient: Seq<char>, a: u64, b: u64)
    ensures
        text_before(message_key(recipient, a as nat), message_key(recipient, b as nat)) == (a < b),
        a != b ==> message_key(recipient, a as nat) != message_key(recipient, b as nat),
{
    u64_fits_twenty_digits(a);
    u64_fits_twenty_digits(b);
    padded_order(a as nat, b as nat, 20);
    text_order_skips_prefix(
        recipient.push('\0'),
        padded_text(a as nat, 20),
        padded_text(b as nat, 20),
    );
    if a != b {
        let p = recipient.push('\0');
        let x = message_key(recipient, a as nat);
        let y = message_key(recipient, b as nat);
        assert(x.skip(p.len() as int) =~= padded_text(a as nat, 20));
        assert(y.skip(p.len() as int) =~= padded_text(b as nat, 20));
    }
}

/// A finite table has a listing of every range.
pub proof fn listing_exists<V>(table: Map<Seq<char>, V>, lo: Seq<char>, hi: Seq<char>)
    requires
        table.dom().finite(),
    ensures
        is_listing(table, lo, hi, listing(table, lo, hi)),
{
    let entries = some_listing(table, lo, hi);
    listing_is(table, lo, hi, entries);
}

proof fn some_listing<V>(table: Map<Seq<char>, V>, lo: Seq<char>, hi: Seq<char>) -> (entries: Seq<
    (Seq<char>, V),
>)
    requires
        table.dom().finite(),
    ensures
        is_listing(table, lo, hi, entries),
    decreases table.dom().len(),
{
    if table.dom().len() == 0 {
        assert forall|key: Seq<char>| #[trigger]
            table.contains_key(key) && in_range(key, lo, hi) implies lists_key(
            Seq::<(Seq<char>, V)>::empty(),
            key,
        ) by {
            assert(table.dom().contains(key));
        }
        Seq::empty()
    } else {
        let key = table.dom().choose();
        let value = table[key];
        let rest = table.remove(key);
        assert(rest.dom() =~= table.dom().remove(key));
        let s = some_listing(rest, lo, hi);
        if in_range(key, lo, hi) {
            let new = key_put(s, key, value);
            key_index_says(s, key);
            let k = key_index(s, key) as int;
            if k < s.len() {
                assert(rest.contains_key(s[k].0));
            }
            put_keeps_order(s, key, value);
            sorted_place_says(s, key);
            let p = sorted_place(s, key) as int;
            assert forall|i: int| 0 <= i < new.len() implies #[trigger] new[i] == if i < p {
                s[i]
            } else if i == p {
                (key, value)
            } else {
                s[i - 1]
            } by {}
            assert forall|i: int| 0 <= i < new.len() implies in_range((#[trigger] new[i]).0, lo, hi)
                && table.contains_key(new[i].0) && table[new[i].0] == new[i].1 by {
                if i < p {
                    assert(rest.contains_key(s[i].0));
                } else if i > p {
                    assert(rest.contains_key(s[i - 1].0));
                }
            }
            assert forall|k: Seq<char>| #[trigger]
                table.contains_key(k) && in_range(k, lo, hi) implies lists_key(new, k) by {
                if k == key {
                    assert(new[p].0 == key);
                } else {
                    assert(rest.contains_key(k));
                    let i = choose|i: int| 0 <= i < s.len() && (#[trigger] s[i]).0 == k;
                    if i < p {
                        assert(new[i].0 == k);
                    } else {
                        assert(new[i + 1].0 == k);
                    }
                }
            }
            new
        } else {
            assert forall|i: int| 0 <= i < s.len() implies in_range((#[trigger] s[i]).0, lo, hi)
                && table.contains_key(s[i].0) && table[s[i].0] == s[i].1 by {
                assert(rest.contains_key(s[i].0));
            }
            assert forall|k: Seq<char>| #[trigger]
                table.contains_key(k) && in_range(k, lo, hi) implies lists_key(s, k) by {
                assert(rest.contains_key(k));
            }
            s
        }
    }
}

/// First in, first out: a message goes to the back of its recipient's queue, and no other
/// recipient's queue changes.
pub proof fn enqueue_goes_to_the_back(
    table: Map<Seq<char>, Seq<u8>>,
    next: u64,
    recipient: Seq<char>,
    value: Seq<u8>,
    other: Seq<char>,
)
    requires
        keyed_below(table, next as nat),
        nul_free(recipient),
        nul_free(other),
        table.dom().finite(),
    ensures
        queue_of(table.insert(message_key(recipient, next as nat), value), recipient) == queue_of(
            table,
            recipient,
        ).push((message_key(recipient, next as nat), value)),
        other != recipient ==> queue_of(
            table.insert(message_key(recipient, next as nat), value),
            other,
        ) == queue_of(table, other),
        next < u64::MAX ==> keyed_below(
            table.insert(message_key(recipient, next as nat), value),
            next as nat + 1,
        ),
{
    let key = message_key(recipient, next as nat);
    let after = table.insert(key, value);
    let lo = recipient.push('\0');
    let hi = recipient.push('\u{1}');
    let q = queue_of(table, recipient);
    let new = q.push((key, value));
    listing_exists(table, lo, hi);
    range_is_prefix(recipient, key);
    assert(key.subrange(0, lo.len() as int) =~= lo);
    assert(in_range(key, lo, hi));
    assert forall|i: int| 0 <= i < q.len() implies text_before((#[trigger] q[i]).0, key) by {
        let s = range_key(table, next as nat, recipient, q[i].0);
        message_keys_in_order(recipient, s as u64, next);
    }
    assert(is_listing(after, lo, hi, new)) by {
        assert forall|i: int, j: int| 0 <= i < j < new.len() implies text_before(
            (#[trigger] new[i]).0,
            (#[trigger] new[j]).0,
        ) by {
            if j == q.len() {
                assert(text_before(q[i].0, key));
            } else {
                assert(text_before(q[i].0, q[j].0));
            }
        }
        assert forall|i: int| 0 <= i < new.len() implies in_range((#[trigger] new[i]).0, lo, hi)
            && after.contains_key(new[i].0) && after[new[i].0] == new[i].1 by {
            if i < q.len() {
                assert(in_range(q[i].0, lo, hi) && table.contains_key(q[i].0));
                text_order_is_total(q[i].0, key);
            }
        }
        assert forall|k: Seq<char>| #[trigger]
            after.contains_key(k) && in_range(k, lo, hi) implies lists_key(new, k) by {
            if k == key {
                assert(new[q.len() as int].0 == key);
            } else {
                assert(table.contains_key(k));
                let i = choose|i: int| 0 <= i < q.len() && (#[trigger] q[i]).0 == k;
                assert(new[i].0 == k);
            }
        }
    }
    listing_is(after, lo, hi, new);
    if other != recipient {
        let olo = other.push('\0');
        let ohi = other.push('\u{1}');
        let o = queue_of(table, other);
        listing_exists(table, olo, ohi);
        assert(!in_range(key, olo, ohi)) by {
            range_is_prefix(other, key);
            if olo.is_prefix_of(key) {
                let rest = key.skip(olo.len() as int);
                assert(key.subrange(0, olo.len() as int) =~= olo);
                assert(key =~= olo + rest);
                first_nul_splits(recipient, padded_text(next as nat, 20), other, rest);
            }
        }
        assert(is_listing(after, olo, ohi, o)) by {
            assert forall|i: int| 0 <= i < o.len() implies in_range((#[trigger] o[i]).0, olo, ohi)
                && after.contains_key(o[i].0) && after[o[i].0] == o[i].1 by {
                assert(in_range(o[i].0, olo, ohi));
            }
            assert forall|k: Seq<char>| #[trigger]
                after.contains_key(k) && in_range(k, olo, ohi) implies lists_key(o, k) by {
                assert(table.contains_key(k));
            }
        }
        listing_is(after, olo, ohi, o);
    }
    if next < u64::MAX {
        assert forall|k: Seq<char>| #[trigger] after.contains_key(k) implies exists|
            r: Seq<char>,
            s: nat,
        |
            nul_free(r) && s < next as nat + 1 && s <= u64::MAX && k == #[trigger] message_key(
                r,
                s,
            ) by {
            if k == key {
                assert(k == message_key(recipient, next as nat));
            } else {
                assert(table.contains_key(k));
                let (r, s) = choose|r: Seq<char>, s: nat|
                    nul_free(r) && s < next && s <= u64::MAX && k == #[trigger] message_key(r, s);
                assert(k == message_key(r, s));
            }
        }
    }
}

/// An acknowledged message leaves its queue: of the oldest, the rest remains.
pub proof fn ack_removes_one(table: Map<Seq<char>, Seq<u8>>, recipient: Seq<char>, i: int)
    requires
        table.dom().finite(),
        0 <= i < queue_of(table, recipient).len(),
    ensures
        queue_of(table.remove(queue_of(table, recipient)[i].0), recipient) == queue_of(
            table,
            recipient,
        ).remove(i),
{
    let lo = recipient.push('\0');
    let hi = recipient.push('\u{1}');
    let q = queue_of(table, recipient);
    listing_exists(table, lo, hi);
    let key = q[i].0;
    let after = table.remove(key);
    let new = q.remove(i);
    assert forall|j: int| 0 <= j < new.len() implies #[trigger] new[j] == if j < i {
        q[j]
    } else {
        q[j + 1]
    } by {}
    assert(is_listing(after, lo, hi, new)) by {
        assert forall|j: int| 0 <= j < new.len() implies in_range((#[trigger] new[j]).0, lo, hi)
            && after.contains_key(new[j].0) && after[new[j].0] == new[j].1 by {
            let k = if j < i {
                j
            } else {
                j + 1
            };
            assert(new[j] == q[k]);
            assert(in_range(q[k].0, lo, hi));
            if k < i {
                text_order_is_total(q[k].0, q[i].0);
                assert(text_before(q[k].0, q[i].0));
            } else {
                text_order_is_total(q[i].0, q[k].0);
                assert(text_before(q[i].0, q[k].0));
            }
        }
        assert forall|k: Seq<char>| #[trigger]
            after.contains_key(k) && in_range(k, lo, hi) implies lists_key(new, k) by {
            assert(table.contains_key(k));
            let j = choose|j: int| 0 <= j < q.len() && (#[trigger] q[j]).0 == k;
            if j < i {
                assert(new[j].0 == k);
            } else {
                assert(new[j - 1].0 == k);
            }
        }
    }
    listing_is(after, lo, hi, new);
}

/// An acknowledged message of one recipient changes no other recipient's queue.
pub proof fn ack_leaves_others(
    table: Map<Seq<char>, Seq<u8>>,
    recipient: Seq<char>,
    seq: nat,
    other: Seq<char>,
)
    requires
        table.dom().finite(),
        nul_free(recipient),
        nul_free(other),
        other != recipient,
    ensures
        queue_of(table.remove(message_key(recipient, seq)), other) == queue_of(table, other),
{
    let key = message_key(recipient, seq);
    let lo = other.push('\0');
    let hi = other.push('\u{1}');
    let q = queue_of(table, other);
    let after = table.remove(key);
    listing_exists(table, lo, hi);
    assert(!in_range(key, lo, hi)) by {
        range_is_prefix(other, key);
        if lo.is_prefix_of(key) {
            let rest = key.skip(lo.len() as int);
            assert(key.subrange(0, lo.len() as int) =~= lo);
            assert(key =~= lo + rest);
            first_nul_splits(recipient, padded_text(seq, 20), other, rest);
        }
    }
    assert(is_listing(after, lo, hi, q)) by {
        assert forall|i: int| 0 <= i < q.len() implies in_range((#[trigger] q[i]).0, lo, hi)
            && after.contains_key(q[i].0) && after[q[i].0] == q[i].1 by {
            assert(in_range(q[i].0, lo, hi));
        }
        assert forall|k: Seq<char>| #[trigger]
            after.contains_key(k) && in_range(k, lo, hi) implies lists_key(q, k) by {
            assert(table.contains_key(k));
        }
    }
    listing_is(after, lo, hi, q);
}

/// Removing messages keeps the keys as they must be.
pub proof fn removal_keeps_keys(table: Map<Seq<char>, Seq<u8>>, next: nat, key: Seq<char>)
    requires
        keyed_below(table, next),
    ensures
        keyed_below(table.remove(key), next),
{
    let after = table.remove(key);
    assert forall|k: Seq<char>| #[trigger] after.contains_key(k) implies exists|
        r: Seq<char>,
        s: nat,
    |
        nul_free(r) && s < next && s <= u64::MAX && k == #[trigger] message_key(r, s) by {
        assert(table.contains_key(k));
    }
}

/// A key is given once: messages with different sequence numbers have different keys, so one that
/// was acknowledged never comes again.
pub proof fn keys_are_given_once(a: Seq<char>, s: u64, b: Seq<char>, t: u64)
    requires
        nul_free(a),
        nul_free(b),
        s != t,
    ensures
        message_key(a, s as nat) != message_key(b, t as nat),
{
    if message_key(a, s as nat) == message_key(b, t as nat) {
        first_nul_splits(a, padded_text(s as nat, 20), b, padded_text(t as nat, 20));
        u64_fits_twenty_digits(s);
        u64_fits_twenty_digits(t);
        padded_order(s as nat, t as nat, 20);
    }
}

/// Removing a key that is not stored changes nothing: an acknowledgement may come twice.
pub proof fn ack_is_idempotent(table: Map<Seq<char>, Seq<u8>>, key: Seq<char>)
    ensures
        table.remove(key).remove(key) == table.remove(key),
        !table.contains_key(key) ==> table.remove(key) == table,
{
    assert(table.remove(key).remove(key) =~= table.remove(key));
    if !table.contains_key(key) {
        assert(table.remove(key) =~= table);
    }
}

/// Entries of one peer stand in the order of time.
pub proof fn log_entries_in_order(
    peer: Seq<char>,
    a: u64,
    id_a: Seq<char>,
    b: u64,
    id_b: Seq<char>,
)
    requires
        a < b,
    ensures
        text_before(entry_key(peer, a as nat, id_a), entry_key(peer, b as nat, id_b)),
{
    u64_fits_twenty_digits(a);
    u64_fits_twenty_digits(b);
    padded_order(a as nat, b as nat, 20);
    padded_text_has_len(a as nat, 20);
    padded_text_has_len(b as nat, 20);
    let p = peer.push('\0');
    let x = padded_text(a as nat, 20);
    let y = padded_text(b as nat, 20);
    assert(entry_key(peer, a as nat, id_a) =~= p + (x + (seq!['\0'] + id_a)));
    assert(entry_key(peer, b as nat, id_b) =~= p + (y + (seq!['\0'] + id_b)));
    text_order_skips_prefix(p, x + (seq!['\0'] + id_a), y + (seq!['\0'] + id_b));
    order_before_tails(x, seq!['\0'] + id_a, y, seq!['\0'] + id_b);
}

proof fn order_before_tails(x: Seq<char>, a: Seq<char>, y: Seq<char>, b: Seq<char>)
    requires
        x.len() == y.len(),
        text_before(x, y),
    ensures
        text_before(x + a, y + b),
    decreases x.len(),
{
    assert((x + a)[0] == x[0] && (y + b)[0] == y[0]);
    if x[0] == y[0] {
        assert((x + a).drop_first() =~= x.drop_first() + a);
        assert((y + b).drop_first() =~= y.drop_first() + b);
        order_before_tails(x.drop_first(), a, y.drop_first(), b);
    }
}

/// A message's key is its recipient, a NUL, and its number in twenty digits.
pub proof fn message_key_is_written(recipient: Seq<char>, seq: u64) -> (zeros: nat)
    ensures
        message_key(recipient, seq as nat) == recipient.push('\0') + (Seq::new(zeros, |i: int| '0')
            + crate::text::decimal_text(seq as nat)),
        message_key(recipient, seq as nat).len() == recipient.len() + 21,
{
    u64_fits_twenty_digits(seq);
    crate::text::padded_text_has_len(seq as nat, 20);
    crate::text::padding_is_zeros(seq as nat, 20)
}

/// An entry of one recipient's queue is of no other's: removing it changes no other queue.
pub proof fn entry_is_of_one_queue(
    table: Map<Seq<char>, Seq<u8>>,
    recipient: Seq<char>,
    i: int,
    other: Seq<char>,
)
    requires
        table.dom().finite(),
        nul_free(recipient),
        nul_free(other),
        other != recipient,
        0 <= i < queue_of(table, recipient).len(),
    ensures
        queue_of(table.remove(queue_of(table, recipient)[i].0), other) == queue_of(table, other),
{
    let own = queue_of(table, recipient);
    let key = own[i].0;
    let lo = other.push('\0');
    let hi = other.push('\u{1}');
    let q = queue_of(table, other);
    let after = table.remove(key);
    listing_exists(table, lo, hi);
    listing_exists(table, recipient.push('\0'), recipient.push('\u{1}'));
    assert(in_range(own[i].0, recipient.push('\0'), recipient.push('\u{1}')));
    range_is_prefix(recipient, key);
    assert(!in_range(key, lo, hi)) by {
        range_is_prefix(other, key);
        if lo.is_prefix_of(key) {
            let rest = key.skip(lo.len() as int);
            assert(key.subrange(0, lo.len() as int) =~= lo);
            assert(key =~= lo + rest);
            let mine = recipient.push('\0');
            let tail = key.skip(mine.len() as int);
            assert(key.subrange(0, mine.len() as int) =~= mine);
            assert(key =~= mine + tail);
            first_nul_splits(recipient, tail, other, rest);
        }
    }
    assert(is_listing(after, lo, hi, q)) by {
        assert forall|j: int| 0 <= j < q.len() implies in_range((#[trigger] q[j]).0, lo, hi)
            && after.contains_key(q[j].0) && after[q[j].0] == q[j].1 by {
            assert(in_range(q[j].0, lo, hi));
        }
        assert forall|k: Seq<char>| #[trigger]
            after.contains_key(k) && in_range(k, lo, hi) implies lists_key(q, k) by {
            assert(table.contains_key(k));
        }
    }
    listing_is(after, lo, hi, q);
}

/// A recipient's queue holds what is stored under the recipient's keys, all of it and nothing
/// else, each once and in the order of the keys.
pub proof fn queue_holds_what_is_stored(
    table: Map<Seq<char>, Seq<u8>>,
    recipient: Seq<char>,
    key: Seq<char>,
)
    requires
        table.dom().finite(),
    ensures
        forall|i: int|
            0 <= i < queue_of(table, recipient).len() ==> {
                let e = #[trigger] queue_of(table, recipient)[i];
                table.contains_key(e.0) && table[e.0] == e.1 && recipient.push('\0').is_prefix_of(
                    e.0,
                )
            },
        forall|i: int, j: int|
            0 <= i < j < queue_of(table, recipient).len() ==> text_before(
                (#[trigger] queue_of(table, recipient)[i]).0,
                (#[trigger] queue_of(table, recipient)[j]).0,
            ),
        table.contains_key(key) && recipient.push('\0').is_prefix_of(key) ==> queue_of(
            table,
            recipient,
        ).contains((key, table[key])),
{
    let lo = recipient.push('\0');
    let hi = recipient.push('\u{1}');
    let q = queue_of(table, recipient);
    listing_exists(table, lo, hi);
    assert forall|i: int| 0 <= i < q.len() implies {
        let e = #[trigger] q[i];
        table.contains_key(e.0) && table[e.0] == e.1 && recipient.push('\0').is_prefix_of(e.0)
    } by {
        assert(in_range(q[i].0, lo, hi));
        range_is_prefix(recipient, q[i].0);
    }
    range_is_prefix(recipient, key);
    if table.contains_key(key) && recipient.push('\0').is_prefix_of(key) {
        assert(lists_key(q, key));
        let j = choose|j: int| 0 <= j < q.len() && (#[trigger] q[j]).0 == key;
        assert(q[j] == (key, table[key]));
    }
}

} // verus!
