//! The few places where the library leans on outside code: password hashing
//! and verification, fresh identifiers, the clock, and one `String` method
//! that vstd does not specify. Each item's contract states no more than the
//! outside function's own source shows.

use vstd::prelude::*;

verus! {

/// What bcrypt's `verify` decides for a password and a stored hash string.
/// `verify` re-derives the hash from the cost and salt carried inside
/// `hashed` and compares, so the outcome is a function of the two arguments
/// alone; a malformed `hashed` (a verification error) counts as not accepted.
pub uninterp spec fn bcrypt_accepts(password: Seq<char>, hashed: Seq<char>) -> bool;

/// Relies on bcrypt::verify: a deterministic check of `password` against the
/// salted hash `hashed`; an error from a malformed hash is collapsed into
/// `false`, exactly as a failed match is.
#[verifier::external_body]
pub(crate) fn verify_password(password: &str, hashed: &str) -> (r: bool)
    ensures
        r == bcrypt_accepts(password@, hashed@),
{
    bcrypt::verify(password.as_bytes(), hashed).unwrap_or(false)
}

/// Relies on bcrypt::hash at the default cost: a fresh random salt makes the
/// result different on every call, so nothing is promised of the value; a
/// hashing error comes back as `None`.
#[verifier::external_body]
pub(crate) fn hash_password(password: &str) -> (r: Option<String>) {
    bcrypt::hash(password.as_bytes(), bcrypt::DEFAULT_COST).ok()
}

/// Relies on uuid::Uuid::new_v4: a freshly drawn random 128-bit identifier;
/// nothing can be promised of a random value.
#[verifier::external_body]
pub(crate) fn fresh_uuid() -> (r: u128) {
    uuid::Uuid::new_v4().as_u128()
}

/// Relies on chrono::Utc::now: the current UTC instant, rendered as an
/// RFC 3339 (ISO-8601) string; the value depends on the clock, so nothing is
/// promised of it.
#[verifier::external_body]
pub(crate) fn now_iso() -> (r: String) {
    chrono::Utc::now().to_rfc3339_opts(chrono::SecondsFormat::Millis, true)
}

/// Relies on str's `==`: true exactly when the two slices hold the same
/// text, character for character.
#[verifier::external_body]
pub(crate) fn str_eq(a: &str, b: &str) -> (r: bool)
    ensures
        r == (a@ == b@),
{
    a == b
}

/// Relies on String::push: appends the given character to the end.
#[verifier::external_body]
pub(crate) fn push_char(s: &mut String, c: char)
    ensures
        final(s)@ == old(s)@.push(c),
{
    s.push(c);
}

} // verus!
