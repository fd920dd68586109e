//! Trusted boundary around the `secrecy` crate.
//!
//! The request credential is held in a [`secrecy::Secret`], whose whole
//! point is that the wrapped value never escapes through `Debug`,
//! `Display` or serialization; the only access path is
//! `ExposeSecret::expose_secret`. Verus sees the holder as an opaque
//! container whose contents are named by [`secret_chars`].

use secrecy::ExposeSecret;
use vstd::prelude::*;

verus! {

/// An opaque holder for the credential: a `secrecy::Secret<String>`,
/// redacted by construction (no `Debug`, no `Display`, never
/// serialized).
#[verifier::external_body]
pub struct SecretKey {
    secret: secrecy::Secret<String>,
}

/// The characters held inside a [`SecretKey`].
pub uninterp spec fn secret_chars(s: SecretKey) -> Seq<char>;

/// Relies on `secrecy::Secret::new`: it takes ownership of the given
/// value and stores it unchanged as the wrapped secret.
#[verifier::external_body]
pub(crate) fn new_secret(s: String) -> (r: SecretKey)
    ensures
        secret_chars(r) == s@,
{
    SecretKey { secret: secrecy::Secret::new(s) }
}

/// Relies on `secrecy::ExposeSecret::expose_secret`: it returns a
/// reference to the wrapped secret value, unchanged.
#[verifier::external_body]
pub(crate) fn expose_secret(s: &SecretKey) -> (r: &String)
    ensures
        r@ == secret_chars(*s),
{
    s.secret.expose_secret()
}

} // verus!
