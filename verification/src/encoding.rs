//! The `application/x-www-form-urlencoded` text of name/value pairs.

use vstd::prelude::*;

use crate::dialect::joined;

verus! {

/// The upper-case hexadecimal digit for `n` (0 through 15).
pub open spec fn upper_hex(n: int) -> char {
    if n < 10 { (n + 48) as char } else { (n + 55) as char }
}

/// Bytes the form serializer writes as they are.
pub open spec fn kept_byte(b: u8) -> bool {
    b == 42 || b == 45 || b == 46 || (48 <= b <= 57) || (65 <= b <= 90) || b == 95 || (97 <= b <= 122)
}

/// The text one byte is serialized as: itself, `+` for a space, else `%XX`.
pub open spec fn form_byte(b: u8) -> Seq<char> {
    if kept_byte(b) {
        seq![b as char]
    } else if b == 32 {
        seq!['+']
    } else {
        seq!['%', upper_hex(b as int / 16), upper_hex(b as int % 16)]
    }
}

/// The serialized text of a run of bytes.
pub open spec fn form_bytes(bs: Seq<u8>) -> Seq<char>
    decreases bs.len(),
{
    if bs.len() == 0 {
        Seq::empty()
    } else {
        form_bytes(bs.drop_last()) + form_byte(bs.last())
    }
}

/// `name=value`, each serialized from its UTF-8 bytes.
pub open spec fn form_pair(p: (Seq<char>, Seq<char>)) -> Seq<char> {
    form_bytes(vstd::utf8::encode_utf8(p.0)) + "="@ + form_bytes(vstd::utf8::encode_utf8(p.1))
}

/// The pairs serialized and joined with `&`.
pub open spec fn form_text(pairs: Seq<(Seq<char>, Seq<char>)>) -> Seq<char> {
    joined(pairs.map_values(|p: (Seq<char>, Seq<char>)| form_pair(p)), "&"@)
}

/// The text of each pair.
pub open spec fn pair_texts(v: Seq<(String, String)>) -> Seq<(Seq<char>, Seq<char>)> {
    v.map_values(|p: (String, String)| (p.0@, p.1@))
}

/// Serializes name/value pairs as a form body or query string.
///
/// Trusted: calls `serde_urlencoded::to_string` on a list of string pairs. Its source appends,
/// for each pair, `&` when it is not the first, the name's UTF-8 bytes through
/// `form_urlencoded::byte_serialize`, `=`, and the value's bytes the same way; it cannot fail on
/// string pairs. The contract states that text.
#[verifier::external_body]
pub(crate) fn form_encode(pairs: &Vec<(String, String)>) -> (r: String)
    ensures
        r@ == form_text(pair_texts(pairs@)),
{
    serde_urlencoded::to_string(pairs).unwrap_or_default()
}

/// The name/value pairs `serde_urlencoded` reads from a form body, in order.
pub uninterp spec fn form_decoded(body: Seq<char>) -> Seq<(Seq<char>, Seq<char>)>;

/// The fields a submitted form body holds, as name/value pairs in order; an unreadable body
/// holds none.
pub fn form_pairs(body: &str) -> (r: Vec<(String, String)>)
    ensures
        pair_texts(r@) == form_decoded(body@),
{
    form_decode(body)
}

/// Reads a form body as name/value pairs, in order; an unreadable body gives none.
///
/// Trusted: calls `serde_urlencoded::from_str::<Vec<(String, String)>>`, which splits the body
/// on `&`, each piece at its first `=`, and decodes `+` and `%XX` escapes (invalid UTF-8 is
/// replaced); the result falls back to an empty list on an error. The contract names the
/// pairs, which depend on the body alone.
#[verifier::external_body]
pub(crate) fn form_decode(body: &str) -> (r: Vec<(String, String)>)
    ensures
        pair_texts(r@) == form_decoded(body@),
{
    serde_urlencoded::from_str::<Vec<(String, String)>>(body).unwrap_or_default()
}

} // verus!
