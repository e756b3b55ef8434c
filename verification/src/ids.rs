//! Identifiers. Every entity carries a 128-bit id; the `uuid` crate supplies
//! fresh random ids and the hyphenated text form the persisted format uses.

use vstd::prelude::*;

verus! {

/// The hyphenated text form that the `uuid` crate gives a 128-bit value.
pub uninterp spec fn uuid_text(id: u128) -> Seq<char>;

/// What `uuid::Uuid::parse_str` recovers from a piece of text: the parsed
/// 128-bit value, or nothing when the text is not a recognized uuid form.
pub uninterp spec fn uuid_parsed(s: Seq<char>) -> Option<u128>;

/// The id facts that the text round trip rests on: parsing the hyphenated
/// form gives the id back, and that form is 36 hyphen or lowercase-hex
/// characters, so it holds no separator of the persisted format.
pub open spec fn id_round_trips(id: u128) -> bool {
    &&& uuid_parsed(uuid_text(id)) == Some(id)
    &&& uuid_text(id).len() == 36
    &&& forall|i: int|
        0 <= i < uuid_text(id).len() ==> (#[trigger] uuid_text(id)[i] == '-' || ('0' as u32)
            <= uuid_text(id)[i] as u32 <= ('9' as u32) || ('a' as u32) <= uuid_text(id)[i] as u32
            <= ('f' as u32))
}

/// A fresh random identifier.
/// Relies on `uuid::Uuid::new_v4`: a random (version 4) uuid, taken as its
/// 128-bit value. Nothing is promised of the outcome.
#[verifier::external_body]
pub fn fresh_id() -> u128 {
    uuid::Uuid::new_v4().as_u128()
}

/// The hyphenated text form of an id.
/// Relies on the `uuid` crate's `Display`: the hyphenated form, 36 characters
/// of lowercase hex digits and hyphens, and on `Uuid::parse_str` accepting
/// that form and giving the same value back.
#[verifier::external_body]
pub fn id_text(id: u128) -> (r: String)
    ensures
        r@ == uuid_text(id),
        uuid_parsed(r@) == Some(id),
        r@.len() == 36,
        forall|i: int|
            0 <= i < r@.len() ==> (#[trigger] r@[i] == '-' || ('0' as u32) <= r@[i] as u32 <= (
            '9' as u32) || ('a' as u32) <= r@[i] as u32 <= ('f' as u32)),
{
    uuid::Uuid::from_u128(id).to_string()
}

/// Parses an id from text.
/// Relies on `uuid::Uuid::parse_str`: a deterministic parse of the uuid text
/// forms, `Err` on anything else.
#[verifier::external_body]
pub fn parse_id(s: &str) -> (r: Option<u128>)
    ensures
        r == uuid_parsed(s@),
{
    match uuid::Uuid::parse_str(s) {
        Ok(u) => Some(u.as_u128()),
        Err(_) => None,
    }
}

} // verus!
