use vstd::prelude::*;

verus! {

/// The canonical text of an id: its hyphenated, lower-case hexadecimal form.
pub uninterp spec fn uuid_text(id: u128) -> Seq<char>;

/// What parsing `s` as a UUID gives, if it is one.
pub uninterp spec fn uuid_parsed(s: Seq<char>) -> Option<u128>;

/// Relies on uuid::Uuid::new_v4 for a random version-4 id. Nothing is
/// promised of its value; callers check that it is free.
#[verifier::external_body]
pub(crate) fn fresh_id() -> (r: u128) {
    uuid::Uuid::new_v4().as_u128()
}

/// Relies on uuid's `Display` for `Uuid`, which writes the 36-character
/// hyphenated lower-case form.
#[verifier::external_body]
pub(crate) fn id_text(id: u128) -> (r: String)
    ensures
        r@ == uuid_text(id),
        r@.len() == 36,
{
    uuid::Uuid::from_u128(id).to_string()
}

/// Relies on uuid::Uuid::parse_str, which reads the simple, hyphenated,
/// braced and URN forms, for the id that `s` denotes.
#[verifier::external_body]
pub(crate) fn parse_id(s: &str) -> (r: Option<u128>)
    ensures
        r == uuid_parsed(s@),
{
    match uuid::Uuid::parse_str(s) {
        Ok(u) => Some(u.as_u128()),
        Err(_) => None,
    }
}

} // verus!
