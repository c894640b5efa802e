//! Identifiers: UUIDs as 128-bit numbers, their text form, and fresh ones.

use vstd::prelude::*;

verus! {

/// The identifier that stands for "none": the nil UUID.
pub const NIL: u128 = 0;

/// The identifier that a text denotes in one of the UUID notations (plain
/// hexadecimal, hyphenated, braced, or URN), or `None` for any other text.
pub uninterp spec fn uuid_of_text(text: Seq<char>) -> Option<u128>;

/// 16 to the power `n`.
pub open spec fn pow16(n: nat) -> int
    decreases n,
{
    if n == 0 {
        1
    } else {
        16 * pow16((n - 1) as nat)
    }
}

/// The `k`-th of the 32 hexadecimal digits of `id`, most significant first.
pub open spec fn hex_digit(id: u128, k: int) -> char {
    seq![
        '0',
        '1',
        '2',
        '3',
        '4',
        '5',
        '6',
        '7',
        '8',
        '9',
        'a',
        'b',
        'c',
        'd',
        'e',
        'f',
    ][((id as int) / pow16((31 - k) as nat)) % 16]
}

/// The hyphenated lower-case text of `id`: 36 characters, hyphens after the
/// 8th, 12th, 16th and 20th digit.
pub open spec fn hyphenated(id: u128) -> Seq<char> {
    Seq::new(
        36,
        |i: int|
            if i == 8 || i == 13 || i == 18 || i == 23 {
                '-'
            } else if i < 8 {
                hex_digit(id, i)
            } else if i < 13 {
                hex_digit(id, i - 1)
            } else if i < 18 {
                hex_digit(id, i - 2)
            } else if i < 23 {
                hex_digit(id, i - 3)
            } else {
                hex_digit(id, i - 4)
            },
    )
}

/// Reads an identifier from text.
///
/// Calls `uuid::Uuid::parse_str` and, on success, `Uuid::as_u128`; the
/// contract only names the outcome.
#[verifier::external_body]
pub(crate) fn parse_uuid(text: &str) -> (id: Option<u128>)
    ensures
        id == uuid_of_text(text@),
{
    match uuid::Uuid::parse_str(text) {
        Ok(id) => Some(id.as_u128()),
        Err(_) => None,
    }
}

/// Writes an identifier as text.
///
/// Calls `uuid::Uuid::from_u128` and the `Display` impl of `Uuid`, which
/// writes the hyphenated lower-case form.
#[verifier::external_body]
pub(crate) fn uuid_text(id: u128) -> (text: String)
    ensures
        text@ == hyphenated(id),
{
    uuid::Uuid::from_u128(id).to_string()
}

/// A fresh random identifier.
///
/// Calls `uuid::Uuid::new_v4` and `Uuid::as_u128`.  Nothing is claimed of
/// the value.  `new_v4` gives up where the operating system has no random
/// numbers to give.
#[verifier::external_body]
pub(crate) fn fresh_uuid() -> (id: u128) {
    uuid::Uuid::new_v4().as_u128()
}

} // verus!
