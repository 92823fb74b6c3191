//! The byte encoding that signatures cover: little-endian integers and length-prefixed fields.
use vstd::prelude::*;
use vstd::utf8::encode_utf8;
use vstd::utf8::encode_utf8_decode_utf8;

verus! {

/// The low `width` bytes of `n`, least significant first.
pub open spec fn le_bytes(n: nat, width: nat) -> Seq<u8>
    decreases width,
{
    if width == 0 {
        Seq::empty()
    } else {
        seq![(n % 256) as u8] + le_bytes(n / 256, (width - 1) as nat)
    }
}

/// A field: the length of its UTF-8 bytes in four bytes, then those bytes.
pub open spec fn field_bytes(text: Seq<char>) -> Seq<u8> {
    le_bytes(encode_utf8(text).len() % 0x1_0000_0000, 4) + encode_utf8(text)
}

/// Fields, one behind the other.
pub open spec fn fields_bytes(fields: Seq<Seq<char>>) -> Seq<u8>
    decreases fields.len(),
{
    if fields.len() == 0 {
        Seq::empty()
    } else {
        field_bytes(fields[0]) + fields_bytes(fields.drop_first())
    }
}

/// The length of the text fits the four bytes that say it.
pub open spec fn field_fits(text: Seq<char>) -> bool {
    encode_utf8(text).len() < 0x1_0000_0000
}

/// Every length fits the four bytes that say it.
pub open spec fn fields_fit(fields: Seq<Seq<char>>) -> bool {
    forall|i: int| 0 <= i < fields.len() ==> #[trigger] field_fits(fields[i])
}

/// Appends the bytes.
pub fn push_bytes(out: &mut Vec<u8>, bytes: &[u8])
    ensures
        final(out)@ == old(out)@ + bytes@,
{
    let mut i: usize = 0;
    while i < bytes.len()
        invariant
            i <= bytes@.len(),
            out@ == old(out)@ + bytes@.take(i as int),
        decreases bytes@.len() - i,
    {
        out.push(bytes[i]);
        assert(bytes@.take(i + 1) =~= bytes@.take(i as int).push(bytes@[i as int]));
        i += 1;
    }
    assert(bytes@.take(bytes@.len() as int) =~= bytes@);
}

/// Appends the low `width` bytes of `n`, least significant first.
pub fn push_le(out: &mut Vec<u8>, n: u64, width: u64)
    ensures
        final(out)@ == old(out)@ + le_bytes(n as nat, width as nat),
    decreases width,
{
    if width > 0 {
        out.push((n % 256) as u8);
        push_le(out, n / 256, width - 1);
    }
    assert(out@ =~= old(out)@ + le_bytes(n as nat, width as nat));
}

/// Appends a field.
pub fn push_field(out: &mut Vec<u8>, text: &str)
    ensures
        final(out)@ == old(out)@ + field_bytes(text@),
{
    let bytes = text.as_bytes();
    let len: u64 = bytes.len() as u64;
    push_le(out, len % 0x1_0000_0000, 4);
    push_bytes(out, bytes);
    assert(out@ =~= old(out)@ + field_bytes(text@));
}

proof fn one_more_field(fields: Seq<Seq<char>>, text: Seq<char>)
    ensures
        fields_bytes(fields.push(text)) == fields_bytes(fields) + field_bytes(text),
    decreases fields.len(),
{
    let all = fields.push(text);
    if fields.len() == 0 {
        assert(all.drop_first() =~= Seq::<Seq<char>>::empty());
        assert(fields_bytes(all.drop_first()) =~= Seq::<u8>::empty());
        assert(fields_bytes(all) =~= field_bytes(text));
        assert(fields_bytes(fields) + field_bytes(text) =~= field_bytes(text));
    } else {
        let rest = fields.drop_first();
        one_more_field(rest, text);
        assert(all.drop_first() =~= rest.push(text));
        assert(field_bytes(fields[0]) + (fields_bytes(rest) + field_bytes(text)) =~= (field_bytes(
            fields[0],
        ) + fields_bytes(rest)) + field_bytes(text));
    }
}

/// A field that is written behind others is one more of them.
pub proof fn field_follows(head: Seq<u8>, fields: Seq<Seq<char>>, text: Seq<char>)
    ensures
        head + fields_bytes(fields) + field_bytes(text) == head + fields_bytes(fields.push(text)),
{
    one_more_field(fields, text);
    assert(head + fields_bytes(fields) + field_bytes(text) =~= head + (fields_bytes(fields)
        + field_bytes(text)));
}

/// A field that is written first is the only one.
pub proof fn first_field_follows(head: Seq<u8>, text: Seq<char>)
    ensures
        head + field_bytes(text) == head + fields_bytes(seq![text]),
{
    let none = Seq::<Seq<char>>::empty();
    one_more_field(none, text);
    assert(none.push(text) =~= seq![text]);
    assert(fields_bytes(none) + field_bytes(text) =~= field_bytes(text));
}

/// `width` bytes are written.
pub proof fn le_bytes_len(n: nat, width: nat)
    ensures
        le_bytes(n, width).len() == width,
    decreases width,
{
    if width > 0 {
        le_bytes_len(n / 256, (width - 1) as nat);
    }
}

/// How many numbers `width` bytes can say.
pub open spec fn byte_values(width: nat) -> nat
    decreases width,
{
    if width == 0 {
        1
    } else {
        256 * byte_values((width - 1) as nat)
    }
}

/// Numbers that `width` bytes can say differ in those bytes.
pub proof fn le_bytes_is_injective(n: nat, m: nat, width: nat)
    requires
        n < byte_values(width),
        m < byte_values(width),
        le_bytes(n, width) == le_bytes(m, width),
    ensures
        n == m,
    decreases width,
{
    if width > 0 {
        let x = le_bytes(n, width);
        let y = le_bytes(m, width);
        assert(x[0] == (n % 256) as u8 && y[0] == (m % 256) as u8);
        assert(x.skip(1) =~= le_bytes(n / 256, (width - 1) as nat));
        assert(y.skip(1) =~= le_bytes(m / 256, (width - 1) as nat));
        le_bytes_is_injective(n / 256, m / 256, (width - 1) as nat);
    }
}

/// Two texts with the same UTF-8 bytes are the same.
pub proof fn utf8_is_injective(a: Seq<char>, b: Seq<char>)
    requires
        encode_utf8(a) == encode_utf8(b),
    ensures
        a == b,
{
    encode_utf8_decode_utf8(a);
    encode_utf8_decode_utf8(b);
}

/// No bytes can move across a field's boundary: what begins with a field begins with one field
/// only.
pub proof fn field_boundary_is_fixed(a: Seq<char>, x: Seq<u8>, b: Seq<char>, y: Seq<u8>)
    requires
        field_fits(a),
        field_fits(b),
        field_bytes(a) + x == field_bytes(b) + y,
    ensures
        a == b,
        x == y,
{
    let s = field_bytes(a) + x;
    let n = encode_utf8(a).len();
    let m = encode_utf8(b).len();
    le_bytes_len(n, 4);
    le_bytes_len(m, 4);
    assert(s.take(4) =~= le_bytes(n, 4));
    assert(s.take(4) =~= le_bytes(m, 4));
    assert(byte_values(4) == 0x1_0000_0000) by {
        reveal_with_fuel(byte_values, 5);
    }
    le_bytes_is_injective(n, m, 4);
    assert(s.subrange(4, 4 + n as int) =~= encode_utf8(a));
    assert(s.subrange(4, 4 + n as int) =~= encode_utf8(b));
    utf8_is_injective(a, b);
    assert(s.skip(4 + n as int) =~= x);
    assert(s.skip(4 + n as int) =~= y);
}

/// The same for a list of fields of known length.
pub proof fn fields_boundaries_are_fixed(
    a: Seq<Seq<char>>,
    x: Seq<u8>,
    b: Seq<Seq<char>>,
    y: Seq<u8>,
)
    requires
        a.len() == b.len(),
        fields_fit(a),
        fields_fit(b),
        fields_bytes(a) + x == fields_bytes(b) + y,
    ensures
        a == b,
        x == y,
    decreases a.len(),
{
    if a.len() == 0 {
        assert(fields_bytes(a) + x =~= x);
        assert(fields_bytes(b) + y =~= y);
        assert(a =~= b);
    } else {
        let p = fields_bytes(a.drop_first());
        let q = fields_bytes(b.drop_first());
        assert(fields_bytes(a) + x =~= field_bytes(a[0]) + (p + x));
        assert(fields_bytes(b) + y =~= field_bytes(b[0]) + (q + y));
        assert(field_fits(a[0]) && field_fits(b[0]));
        field_boundary_is_fixed(a[0], p + x, b[0], q + y);
        assert forall|i: int| 0 <= i < a.drop_first().len() implies #[trigger] field_fits(
            a.drop_first()[i],
        ) by {
            assert(field_fits(a[i + 1]));
        }
        assert forall|i: int| 0 <= i < b.drop_first().len() implies #[trigger] field_fits(
            b.drop_first()[i],
        ) by {
            assert(field_fits(b[i + 1]));
        }
        fields_boundaries_are_fixed(a.drop_first(), x, b.drop_first(), y);
        assert(a =~= seq![a[0]] + a.drop_first());
        assert(b =~= seq![b[0]] + b.drop_first());
    }
}

/// The low bytes come first: a number's bytes are its lowest one and then those of the rest.
pub proof fn low_bytes_come_first(n: nat, b: u8, width: nat)
    ensures
        le_bytes(256 * n + b as nat, width + 1) == seq![b] + le_bytes(n, width),
        le_bytes(n, 0).len() == 0,
{
    assert((256 * n + b as nat) % 256 == b && (256 * n + b as nat) / 256 == n);
}

/// A field is its length in four bytes, the low ones first, and then the text.
pub proof fn field_is_length_and_text(text: Seq<char>)
    requires
        field_fits(text),
    ensures
        field_bytes(text).len() == 4 + encode_utf8(text).len(),
        field_bytes(text).skip(4) == encode_utf8(text),
        encode_utf8(text).len() == field_bytes(text)[0] + 256 * field_bytes(text)[1] + 65536
            * field_bytes(text)[2] + 16777216 * field_bytes(text)[3],
{
    let n = encode_utf8(text).len();
    le_bytes_len(n, 4);
    reveal_with_fuel(le_bytes, 5);
    assert(field_bytes(text).skip(4) =~= encode_utf8(text));
}

} // verus!
