//! Universally unique identifiers, held as the 128-bit number that they are.

use crate::text::lowered;
use vstd::prelude::*;

verus! {

/// A universally unique identifier.
pub type Uuid = u128;

/// The lower-case hexadecimal digit for a number below sixteen.
pub open spec fn hex_char(n: nat) -> char {
    if n < 10 {
        ('0' as u8 + n) as char
    } else {
        ('a' as u8 + (n - 10)) as char
    }
}

/// How many hyphens stand before a place in the text of an identifier.
pub open spec fn hyphens_before(i: int) -> int {
    if i <= 8 {
        0
    } else if i <= 13 {
        1
    } else if i <= 18 {
        2
    } else if i <= 23 {
        3
    } else {
        4
    }
}

/// The text of an identifier: its 32 hexadecimal digits, most significant
/// first, in groups of 8, 4, 4, 4 and 12 with hyphens in between.
pub open spec fn uuid_text(id: Uuid) -> Seq<char> {
    Seq::new(
        36,
        |i: int|
            if i == 8 || i == 13 || i == 18 || i == 23 {
                '-'
            } else {
                hex_char(
                    ((id as int / vstd::arithmetic::power::pow(16, (31 - (i - hyphens_before(i))) as nat))
                        % 16) as nat,
                )
            },
    )
}

/// The identifier that a text denotes, if it denotes one: hexadecimal digits
/// plain, hyphenated, behind `urn:uuid:` or in braces.
pub uninterp spec fn uuid_of(text: Seq<char>) -> Option<Uuid>;

/// The identifier that a text denotes, whatever the case of its letters.
pub open spec fn uuid_denoted(text: Seq<char>) -> Option<Uuid> {
    uuid_of(lowered(text))
}

/// Reads an identifier with `uuid::Uuid::parse_str`. What that accepts is a
/// function of the text alone; it is named here and not spelled out. It does not
/// depend on the case of ASCII letters, neither in digits nor in `urn:uuid:`.
#[verifier::external_body]
pub(crate) fn parse_uuid(text: &str) -> (id: Option<Uuid>)
    ensures
        id == uuid_of(text@),
        id == uuid_of(lowered(text@)),
{
    uuid::Uuid::parse_str(text).ok().map(|u| u.as_u128())
}

/// Writes an identifier with `uuid::Uuid`'s `Display`: lower-case hexadecimal
/// digits in the hyphenated form, which `uuid::Uuid::parse_str` reads back.
#[verifier::external_body]
pub(crate) fn uuid_to_text(id: Uuid) -> (text: String)
    ensures
        text@ == uuid_text(id),
        uuid_of(text@) == Some(id),
{
    uuid::Uuid::from_u128(id).to_string()
}

/// Reads an identifier.
pub fn read_uuid(text: &str) -> (id: Option<Uuid>)
    ensures
        id == uuid_denoted(text@),
{
    parse_uuid(text)
}

/// Writing an identifier and reading it again gives it back.
pub fn reread(id: Uuid) -> (again: Option<Uuid>)
    ensures
        again == Some(id),
{
    let text = uuid_to_text(id);
    parse_uuid(text.as_str())
}

} // verus!
