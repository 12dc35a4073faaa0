//! SHA-256 digests, hexadecimal text and the byte material of cache keys.
use vstd::prelude::*;
use crate::text::string_from_chars;

verus! {

broadcast use vstd::string::group_string_axioms;

/// The SHA-256 digest of `data`, as the `sha2` crate computes it.
pub uninterp spec fn sha256_of(data: Seq<u8>) -> Seq<u8>;

/// Calls `sha2::Sha256::digest`. Claimed: the digest is the hash of the bytes and is 32 bytes long
/// (`Sha256`'s output size is `U32`). Feeding the bytes in several `update` calls gives the same
/// digest as one call on their concatenation, so callers hash the concatenation.
#[verifier::external_body]
pub(crate) fn sha256(data: &[u8]) -> (d: Vec<u8>)
    ensures
        d@ == sha256_of(data@),
        d@.len() == 32,
{
    <sha2::Sha256 as sha2::Digest>::digest(data).to_vec()
}

/// The lower-case form of `s` that `str::to_lowercase` gives (full Unicode case mapping).
pub uninterp spec fn lowercase_of(s: Seq<char>) -> Seq<char>;

/// Calls `str::to_lowercase`. Claimed: the result is the function `lowercase_of` of the text;
/// nothing is stated about which characters change.
#[verifier::external_body]
pub(crate) fn to_lowercase(s: &str) -> (r: String)
    ensures
        r@ == lowercase_of(s@),
{
    s.to_lowercase()
}

/// The lower-case hexadecimal digit of a nibble.
pub open spec fn hex_char_of(v: u8) -> char {
    if v < 10 {
        ((v + 48) as u32) as char
    } else {
        ((v + 87) as u32) as char
    }
}

/// Each byte as two lower-case hexadecimal digits, as `{:x}` writes a digest.
pub open spec fn hex_lower(data: Seq<u8>) -> Seq<char>
    decreases data.len(),
{
    if data.len() == 0 {
        seq![]
    } else {
        hex_lower(data.drop_last()) + seq![hex_char_of(data.last() / 16), hex_char_of(data.last() % 16)]
    }
}

fn nibble_char(v: u8) -> (c: char)
    requires
        v < 16,
    ensures
        c == hex_char_of(v),
{
    if v < 10 {
        (v + 48) as char
    } else {
        (v + 87) as char
    }
}

/// Text made only of the digits `0`-`9` and the letters `a`-`f`.
pub open spec fn is_lower_hex(s: Seq<char>) -> bool {
    forall|i: int| 0 <= i < s.len() ==> ('0' <= #[trigger] s[i] <= '9' || 'a' <= s[i] <= 'f')
}

/// Hexadecimal text has two lower-case digits per byte.
pub proof fn lemma_hex_lower_shape(data: Seq<u8>)
    ensures
        hex_lower(data).len() == 2 * data.len(),
        is_lower_hex(hex_lower(data)),
    decreases data.len(),
{
    if data.len() > 0 {
        lemma_hex_lower_shape(data.drop_last());
        let h = hex_lower(data);
        let p = hex_lower(data.drop_last());
        let hi = data.last() / 16;
        let lo = data.last() % 16;
        assert(h == p + seq![hex_char_of(hi), hex_char_of(lo)]);
        assert forall|i: int| 0 <= i < h.len() implies ('0' <= #[trigger] h[i] <= '9' || 'a' <= h[i]
            <= 'f') by {
            if i < p.len() {
                assert(h[i] == p[i]);
            } else {
                let v = if i == p.len() {
                    hi
                } else {
                    lo
                };
                assert(h[i] == hex_char_of(v));
                assert(v < 16);
            }
        }
    }
}

/// The bytes as lower-case hexadecimal text.
pub fn to_hex(data: &[u8]) -> (s: String)
    ensures
        s@ == hex_lower(data@),
        s@.len() == 2 * data@.len(),
        is_lower_hex(s@),
{
    proof {
        lemma_hex_lower_shape(data@);
    }
    let mut out: Vec<char> = Vec::new();
    let mut i: usize = 0;
    while i < data.len()
        invariant
            i <= data@.len(),
            out@ == hex_lower(data@.take(i as int)),
        decreases data@.len() - i,
    {
        let b = data[i];
        out.push(nibble_char(b / 16));
        out.push(nibble_char(b % 16));
        proof {
            assert(data@.take(i + 1).drop_last() =~= data@.take(i as int));
            assert(out@ =~= hex_lower(data@.take(i + 1)));
        }
        i = i + 1;
    }
    assert(data@.take(data@.len() as int) =~= data@);
    string_from_chars(out.as_slice())
}

/// Appends the UTF-8 bytes of `s` to `out`.
pub fn push_bytes(out: &mut Vec<u8>, s: &str)
    ensures
        final(out)@ == old(out)@ + vstd::utf8::encode_utf8(s@),
{
    let b = s.as_bytes();
    out.extend_from_slice(b);
}

/// The lower-case hexadecimal SHA-256 digest of the UTF-8 bytes `data`.
pub open spec fn hex_digest(data: Seq<u8>) -> Seq<char> {
    hex_lower(sha256_of(data))
}

} // verus!
