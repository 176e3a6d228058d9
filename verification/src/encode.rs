//! The text forms in which stored bytes and annotations are handed out:
//! base64 and JSON.

use vstd::prelude::*;

verus! {

/// The character of the standard base64 alphabet for six bits.
pub open spec fn base64_char(v: int) -> char {
    if v < 26 {
        (65 + v) as u8 as char
    } else if v < 52 {
        (97 + (v - 26)) as u8 as char
    } else if v < 62 {
        (48 + (v - 52)) as u8 as char
    } else if v == 62 {
        '+'
    } else {
        '/'
    }
}

/// Base64 with the standard alphabet and padding: each three bytes are four
/// characters of six bits each, and what is missing at the end is `=`.
pub open spec fn base64_text(d: Seq<u8>) -> Seq<char>
    decreases d.len(),
{
    if d.len() == 0 {
        Seq::empty()
    } else if d.len() == 1 {
        seq![base64_char(d[0] as int / 4), base64_char(d[0] as int % 4 * 16), '=', '=']
    } else if d.len() == 2 {
        seq![
            base64_char(d[0] as int / 4),
            base64_char(d[0] as int % 4 * 16 + d[1] as int / 16),
            base64_char(d[1] as int % 16 * 4),
            '=',
        ]
    } else {
        seq![
            base64_char(d[0] as int / 4),
            base64_char(d[0] as int % 4 * 16 + d[1] as int / 16),
            base64_char(d[1] as int % 16 * 4 + d[2] as int / 64),
            base64_char(d[2] as int % 64),
        ] + base64_text(d.skip(3))
    }
}

/// How long the base64 text of that many bytes is.
pub open spec fn base64_len(n: nat) -> nat {
    (n + 2) / 3 * 4
}

/// `Engine::encode` of the `base64` crate's `STANDARD` engine: standard
/// alphabet, with padding. The text has to fit in one allocation.
#[verifier::external_body]
pub(crate) fn base64_encode(data: &[u8]) -> (r: String)
    requires
        base64_len(data@.len()) <= isize::MAX,
    ensures
        r@ == base64_text(data@),
{
    base64::Engine::encode(&base64::engine::general_purpose::STANDARD, data)
}

/// Six bits are one character and no padding.
proof fn lemma_base64_char(v: int, w: int)
    requires
        0 <= v < 64,
        0 <= w < 64,
        base64_char(v) == base64_char(w),
    ensures
        v == w,
        base64_char(v) != '=',
{
}

/// The byte at `i`, or zero past the end.
spec fn byte_at(d: Seq<u8>, i: int) -> int {
    if i < d.len() {
        d[i] as int
    } else {
        0
    }
}

/// The first four characters.
proof fn lemma_base64_head(d: Seq<u8>)
    requires
        d.len() > 0,
    ensures
        base64_text(d).len() >= 4,
        base64_text(d)[0] == base64_char(byte_at(d, 0) / 4),
        base64_text(d)[1] == base64_char(byte_at(d, 0) % 4 * 16 + byte_at(d, 1) / 16),
        base64_text(d)[2] == (if d.len() > 1 {
            base64_char(byte_at(d, 1) % 16 * 4 + byte_at(d, 2) / 64)
        } else {
            '='
        }),
        base64_text(d)[3] == (if d.len() > 2 {
            base64_char(byte_at(d, 2) % 64)
        } else {
            '='
        }),
        d.len() > 2 ==> base64_text(d).skip(4) == base64_text(d.skip(3)),
{
    if d.len() > 2 {
        assert(base64_text(d).skip(4) =~= base64_text(d.skip(3)));
    }
}

/// Base64 keeps all of the data: different bodies have different texts.
pub proof fn law_base64_keeps_data(a: Seq<u8>, b: Seq<u8>)
    requires
        base64_text(a) == base64_text(b),
    ensures
        a == b,
    decreases a.len(),
{
    if a.len() > 0 {
        lemma_base64_head(a);
    }
    if b.len() > 0 {
        lemma_base64_head(b);
    }
    if a.len() == 0 || b.len() == 0 {
        assert(a =~= b);
    } else {
        let a0 = byte_at(a, 0);
        let a1 = byte_at(a, 1);
        let a2 = byte_at(a, 2);
        let b0 = byte_at(b, 0);
        let b1 = byte_at(b, 1);
        let b2 = byte_at(b, 2);
        lemma_base64_char(a0 / 4, b0 / 4);
        lemma_base64_char(a0 % 4 * 16 + a1 / 16, b0 % 4 * 16 + b1 / 16);
        lemma_base64_char(a1 % 16 * 4 + a2 / 64, a1 % 16 * 4 + a2 / 64);
        lemma_base64_char(b1 % 16 * 4 + b2 / 64, b1 % 16 * 4 + b2 / 64);
        lemma_base64_char(a2 % 64, a2 % 64);
        lemma_base64_char(b2 % 64, b2 % 64);
        if a.len() > 1 && b.len() > 1 {
            lemma_base64_char(a1 % 16 * 4 + a2 / 64, b1 % 16 * 4 + b2 / 64);
        }
        if a.len() > 2 && b.len() > 2 {
            lemma_base64_char(a2 % 64, b2 % 64);
            law_base64_keeps_data(a.skip(3), b.skip(3));
            assert(a =~= seq![a[0], a[1], a[2]] + a.skip(3));
            assert(b =~= seq![b[0], b[1], b[2]] + b.skip(3));
        } else {
            assert(a.len() == b.len());
            assert(a[0] == b[0]);
            assert(a =~= b);
        }
    }
}

/// What `serde_json` prints after reading a text as a JSON value; nothing
/// when the text is no JSON.
pub uninterp spec fn json_reprinted(text: Seq<char>) -> Option<Seq<char>>;

/// `serde_json::from_str` into a JSON value, and the value's own text form.
/// Which texts are JSON, and how a value is printed, is left to the crate.
#[verifier::external_body]
pub(crate) fn reprint_json(text: &str) -> (r: Option<String>)
    ensures
        match r {
            Some(s) => json_reprinted(text@) == Some(s@),
            None => json_reprinted(text@) is None,
        },
{
    match serde_json::from_str::<serde_json::Value>(text) {
        Ok(value) => Some(value.to_string()),
        Err(_) => None,
    }
}

/// The alphabet of base64, in order.
pub proof fn law_base64_alphabet(v: int)
    requires
        0 <= v < 64,
    ensures
        base64_char(v)
            == "ABCDEFGHIJKLMNOPQRSTUVWXYZabcdefghijklmnopqrstuvwxyz0123456789+/"@[v],
{
    reveal_strlit("ABCDEFGHIJKLMNOPQRSTUVWXYZabcdefghijklmnopqrstuvwxyz0123456789+/");
}

} // verus!
