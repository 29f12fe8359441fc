//! Identifiers that tell rows and claims apart, as the `uuid` crate makes and reads them.
use vstd::prelude::*;

verus! {

/// The number of the identifier that a text stands for, as `uuid::Uuid::parse_str` reads it;
/// nothing where the text is no identifier.
pub uninterp spec fn uuid_number(text: Seq<char>) -> Option<u128>;

/// `uuid::Uuid::parse_str`, with the identifier as the number that `as_u128` gives. Which texts are
/// identifiers is named, not described.
#[verifier::external_body]
pub(crate) fn read_uuid(text: &str) -> (number: Option<u128>)
    ensures
        number == uuid_number(text@),
{
    uuid::Uuid::parse_str(text).ok().map(|uid| uid.as_u128())
}

/// Whether `c` may stand at place `i` of a fresh identifier: hyphens part the groups, everything
/// else is a hexadecimal digit in lower case, and place 14 tells the version.
pub open spec fn stands_at(i: int, c: char) -> bool {
    if i == 8 || i == 13 || i == 18 || i == 23 {
        c == '-'
    } else if i == 14 {
        c == '4'
    } else if i == 19 {
        c == '8' || c == '9' || c == 'a' || c == 'b'
    } else {
        '0' <= c <= '9' || 'a' <= c <= 'f'
    }
}

/// Whether a text has the form of a fresh identifier.
pub open spec fn is_fresh_form(text: Seq<char>) -> bool {
    text.len() == 36 && forall|i: int| 0 <= i < 36 ==> stands_at(i, #[trigger] text[i])
}

/// A fresh identifier, from `uuid::Uuid::new_v4` and its `to_string`. The contract claims the form
/// of a random identifier with hyphens, and that `parse_str` reads it; which one comes is left to
/// chance.
#[verifier::external_body]
pub(crate) fn fresh_uuid() -> (text: String)
    ensures
        is_fresh_form(text@),
        uuid_number(text@) is Some,
{
    uuid::Uuid::new_v4().to_string()
}

} // verus!
