//! UUIDs, held as their 128-bit values.
use vstd::prelude::*;


verus! {

/// The 128-bit value that `uuid::Uuid::parse_str` reads from the text `s`, or `None` where it
/// refuses the text.
pub uninterp spec fn uuid_from_text(s: Seq<char>) -> Option<u128>;

/// Calls `uuid::Uuid::parse_str` and keeps the UUID's value (`Uuid::as_u128`). Claimed: the
/// result is what the parser makes of the text, and the hyphenated lower-case text of a UUID (as
/// its `Display` writes it) reads back as that UUID, as `parse_hyphenated` in the crate's source
/// shows; nothing more is said of which other texts it takes.
#[verifier::external_body]
pub(crate) fn parse_uuid_text(s: &str) -> (r: Option<u128>)
    ensures
        r == uuid_from_text(s@),
        forall|u: u128| #[trigger] uuid_text(u) == s@ ==> r == Some(u),
{
    match uuid::Uuid::parse_str(s) {
        Ok(u) => Some(u.as_u128()),
        Err(_) => None,
    }
}

/// Whether `u` carries the version-4 and RFC 4122 variant bits that `Uuid::new_v4` sets.
pub open spec fn is_v4(u: u128) -> bool {
    &&& (u >> 76u128) & 0xfu128 == 4
    &&& (u >> 62u128) & 0x3u128 == 2
}

/// Calls `uuid::Uuid::new_v4`. Claimed, as its source shows (it masks a random value with
/// `0xFFFFFFFFFFFF4FFFBFFFFFFFFFFFFFFF` and sets `0x40008000000000000000`): the version nibble is 4
/// and the variant bits are `10`. The other bits are random and unstated.
#[verifier::external_body]
pub(crate) fn new_uuid_v4() -> (u: u128)
    ensures
        is_v4(u),
{
    uuid::Uuid::new_v4().as_u128()
}

/// The lower-case hexadecimal digit of `v < 16`.
pub open spec fn hex_digit(v: u128) -> char {
    if v < 10 {
        ((v + 48) as u32) as char
    } else {
        ((v + 87) as u32) as char
    }
}

/// The index, among the 32 hex digits, of position `i` of the hyphenated form.
pub open spec fn nibble_index(i: int) -> int {
    if i < 8 {
        i
    } else if i < 13 {
        i - 1
    } else if i < 18 {
        i - 2
    } else if i < 23 {
        i - 3
    } else {
        i - 4
    }
}

/// The hyphenated lower-case form `xxxxxxxx-xxxx-xxxx-xxxx-xxxxxxxxxxxx` of the UUID `u`.
pub open spec fn uuid_text(u: u128) -> Seq<char> {
    Seq::new(
        36,
        |i: int|
            if i == 8 || i == 13 || i == 18 || i == 23 {
                '-'
            } else {
                hex_digit((u >> ((4 * (31 - nibble_index(i))) as u128)) & 0xfu128)
            },
    )
}

fn hex_char(v: u128) -> (c: char)
    requires
        v < 16,
    ensures
        c == hex_digit(v),
{
    if v < 10 {
        let b: u8 = (v + 48) as u8;
        b as char
    } else {
        let b: u8 = (v + 87) as u8;
        b as char
    }
}

/// The hyphenated lower-case form of `u`, as `Uuid`'s `Display` writes it.
pub fn uuid_to_text(u: u128) -> (out: Vec<char>)
    ensures
        out@ == uuid_text(u),
{
    let mut out: Vec<char> = Vec::new();
    let mut i: usize = 0;
    while i < 36
        invariant
            i <= 36,
            out@.len() == i,
            forall|j: int| 0 <= j < i ==> #[trigger] out@[j] == uuid_text(u)[j],
        decreases 36 - i,
    {
        if i == 8 || i == 13 || i == 18 || i == 23 {
            out.push('-');
        } else {
            let k: u128 = if i < 8 {
                i as u128
            } else if i < 13 {
                (i - 1) as u128
            } else if i < 18 {
                (i - 2) as u128
            } else if i < 23 {
                (i - 3) as u128
            } else {
                (i - 4) as u128
            };
            assert(k == nibble_index(i as int));
            let shift: u128 = 4 * (31 - k);
            let nib = (u >> shift) & 0xf;
            assert(nib < 16) by (bit_vector)
                requires
                    nib == (u >> shift) & 0xf,
            ;
            out.push(hex_char(nib));
        }
        i = i + 1;
    }
    assert(out@ =~= uuid_text(u));
    out
}

} // verus!
