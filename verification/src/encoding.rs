//! Base64 in the URL-safe alphabet without padding: how keys and signatures are written.
use crate::text::is_white;
use base64::Engine;
use vstd::prelude::*;

verus! {

/// The character for the six-bit value `v`.
pub open spec fn symbol(v: int) -> char {
    if v < 26 {
        (65 + v) as char
    } else if v < 52 {
        (71 + v) as char
    } else if v < 62 {
        (v - 4) as char
    } else if v == 62 {
        '-'
    } else {
        '_'
    }
}

/// The base64 text of `bytes`: four characters for each three bytes, and two or three for the
/// one or two that are left, whose unused bits are zero.
pub open spec fn b64_text(bytes: Seq<u8>) -> Seq<char>
    decreases bytes.len(),
{
    if bytes.len() == 0 {
        Seq::empty()
    } else if bytes.len() == 1 {
        let a = bytes[0] as int;
        seq![symbol(a / 4), symbol(a % 4 * 16)]
    } else if bytes.len() == 2 {
        let a = bytes[0] as int;
        let b = bytes[1] as int;
        seq![symbol(a / 4), symbol(a % 4 * 16 + b / 16), symbol(b % 16 * 4)]
    } else {
        let a = bytes[0] as int;
        let b = bytes[1] as int;
        let c = bytes[2] as int;
        seq![
            symbol(a / 4),
            symbol(a % 4 * 16 + b / 16),
            symbol(b % 16 * 4 + c / 64),
            symbol(c % 64),
        ] + b64_text(bytes.skip(3))
    }
}

/// The bytes that `text` is the base64 of, where there are any.
pub open spec fn b64_bytes(text: Seq<char>) -> Option<Seq<u8>> {
    if exists|b: Seq<u8>| #[trigger] b64_text(b) == text {
        Some(choose|b: Seq<u8>| #[trigger] b64_text(b) == text)
    } else {
        None
    }
}

proof fn symbols_differ(v: int, w: int)
    requires
        0 <= v < 64,
        0 <= w < 64,
        symbol(v) == symbol(w),
    ensures
        v == w,
{
}

/// How long the base64 text of `n` bytes is.
pub open spec fn b64_len(n: int) -> int {
    if n % 3 == 0 {
        n / 3 * 4
    } else {
        n / 3 * 4 + n % 3 + 1
    }
}

/// The length of the text follows from the number of bytes alone.
pub proof fn b64_text_has_len(bytes: Seq<u8>)
    ensures
        b64_text(bytes).len() == b64_len(bytes.len() as int),
    decreases bytes.len(),
{
    if bytes.len() > 2 {
        b64_text_has_len(bytes.skip(3));
    }
}

/// Different bytes have different base64 texts.
pub proof fn b64_text_is_injective(x: Seq<u8>, y: Seq<u8>)
    requires
        b64_text(x) == b64_text(y),
    ensures
        x == y,
    decreases x.len(),
{
    b64_text_has_len(x);
    b64_text_has_len(y);
    assert(x.len() == y.len());
    let s = b64_text(x);
    let t = b64_text(y);
    if x.len() >= 1 {
        let a = x[0] as int;
        let d = y[0] as int;
        assert(s[0] == symbol(a / 4) && t[0] == symbol(d / 4));
        symbols_differ(a / 4, d / 4);
        if x.len() == 1 {
            assert(s[1] == symbol(a % 4 * 16) && t[1] == symbol(d % 4 * 16));
            symbols_differ(a % 4 * 16, d % 4 * 16);
        } else {
            let b = x[1] as int;
            let e = y[1] as int;
            assert(s[1] == symbol(a % 4 * 16 + b / 16) && t[1] == symbol(d % 4 * 16 + e / 16));
            symbols_differ(a % 4 * 16 + b / 16, d % 4 * 16 + e / 16);
            if x.len() == 2 {
                assert(s[2] == symbol(b % 16 * 4) && t[2] == symbol(e % 16 * 4));
                symbols_differ(b % 16 * 4, e % 16 * 4);
            } else {
                let c = x[2] as int;
                let f = y[2] as int;
                assert(s[2] == symbol(b % 16 * 4 + c / 64) && t[2] == symbol(e % 16 * 4 + f / 64));
                symbols_differ(b % 16 * 4 + c / 64, e % 16 * 4 + f / 64);
                assert(s[3] == symbol(c % 64) && t[3] == symbol(f % 64));
                symbols_differ(c % 64, f % 64);
                assert(s.skip(4) =~= b64_text(x.skip(3)));
                assert(t.skip(4) =~= b64_text(y.skip(3)));
                b64_text_is_injective(x.skip(3), y.skip(3));
                assert(x =~= seq![x[0], x[1], x[2]] + x.skip(3));
                assert(y =~= seq![y[0], y[1], y[2]] + y.skip(3));
            }
        }
    }
    assert(x =~= y);
}

/// Decoding the text of some bytes gives those bytes back.
pub proof fn b64_round_trips(bytes: Seq<u8>)
    ensures
        b64_bytes(b64_text(bytes)) == Some(bytes),
{
    let text = b64_text(bytes);
    let back = choose|b: Seq<u8>| #[trigger] b64_text(b) == text;
    b64_text_is_injective(back, bytes);
}

/// No base64 text holds white space or a `#`.
pub proof fn b64_text_has_no_white(bytes: Seq<u8>)
    ensures
        forall|i: int|
            0 <= i < b64_text(bytes).len() ==> !is_white(#[trigger] b64_text(bytes)[i])
                && b64_text(bytes)[i] != '#',
    decreases bytes.len(),
{
    let s = b64_text(bytes);
    if bytes.len() > 2 {
        let rest = bytes.skip(3);
        b64_text_has_no_white(rest);
        assert forall|i: int| 0 <= i < s.len() implies !is_white(#[trigger] s[i]) && s[i] != '#' by {
            if i >= 4 {
                assert(s[i] == b64_text(rest)[i - 4]);
            }
        }
    }
}

/// `base64`'s `URL_SAFE_NO_PAD.encode`: the text of the bytes in the URL-safe alphabet, without
/// padding. It panics where the text would be longer than a `usize` can say.
#[verifier::external_body]
pub(crate) fn encode(bytes: &[u8]) -> (r: String)
    requires
        bytes@.len() * 4 <= usize::MAX,
    ensures
        r@ == b64_text(bytes@),
{
    base64::engine::general_purpose::URL_SAFE_NO_PAD.encode(bytes)
}

/// `base64`'s `URL_SAFE_NO_PAD.decode`: the bytes whose text this is. It refuses padding,
/// characters outside the alphabet, a lone last character and unused bits that are set, so a
/// text that it accepts is the one that `encode` writes.
#[verifier::external_body]
fn decode_text(text: &str) -> (r: Option<Vec<u8>>)
    ensures
        r matches Some(v) ==> b64_text(v@) == text@,
        r is None ==> forall|b: Seq<u8>| #[trigger] b64_text(b) != text@,
{
    base64::engine::general_purpose::URL_SAFE_NO_PAD.decode(text).ok()
}

/// The bytes that `text` is the base64 of.
pub fn decode(text: &str) -> (r: Option<Vec<u8>>)
    ensures
        match r {
            Some(v) => b64_bytes(text@) == Some(v@),
            None => b64_bytes(text@) is None,
        },
{
    match decode_text(text) {
        Some(v) => {
            proof {
                b64_round_trips(v@);
            }
            Some(v)
        },
        None => None,
    }
}

} // verus!
