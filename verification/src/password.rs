//! The shared-secret check that guards every snapshot request, and its
//! outgoing counterpart. The comparison itself goes through `secstr` so it
//! runs in constant time.

use vstd::prelude::*;

verus! {

/// The request-metadata key under which the shared secret travels.
pub fn password_metadata_key() -> (r: &'static str)
    ensures
        r@ == "password-bin"@,
{
    "password-bin"
}

/// Why an inbound request was rejected.
#[derive(Debug, Clone, Copy, PartialEq, Eq, Structural)]
pub enum AuthError {
    /// No shared secret accompanied the request.
    Missing,
    /// The shared secret did not match.
    Mismatch,
}

/// Relies on secstr::SecStr's `PartialEq` (constant-time comparison): two
/// secrets compare equal exactly when their lengths and bytes do.
#[verifier::external_body]
fn secure_bytes_eq(a: &Vec<u8>, b: &Vec<u8>) -> (r: bool)
    ensures
        r == (a@ == b@),
{
    secstr::SecStr::new(a.clone()) == secstr::SecStr::new(b.clone())
}

/// Attaches the shared secret to outgoing requests.
#[derive(Debug)]
pub struct AddPassword {
    pub password: Vec<u8>,
}

impl AddPassword {
    pub fn new(password: Vec<u8>) -> (r: Self)
        ensures
            r.password == password,
    {
        AddPassword { password }
    }

    /// The secret bytes to attach under `password_metadata_key`.
    pub fn value(&self) -> (r: &Vec<u8>)
        ensures
            r@ == self.password@,
    {
        &self.password
    }
}

/// Validates the shared secret on inbound requests, before any backend
/// work is done.
#[derive(Debug)]
pub struct CheckPassword {
    pub password: Vec<u8>,
}

impl CheckPassword {
    pub fn new(password: Vec<u8>) -> (r: Self)
        ensures
            r.password == password,
    {
        CheckPassword { password }
    }

    /// Accept the request exactly when it carries the configured secret:
    /// absence and mismatch are distinct rejections, and a request is never
    /// accepted on any other grounds.
    pub fn call(&self, received: Option<&Vec<u8>>) -> (r: Result<(), AuthError>)
        ensures
            r is Ok <==> (received matches Some(p) && p@ == self.password@),
            (r == Err::<(), AuthError>(AuthError::Missing)) <==> received is None,
            (r == Err::<(), AuthError>(AuthError::Mismatch)) <==> (received matches Some(p) && p@
                != self.password@),
    {
        match received {
            None => Err(AuthError::Missing),
            Some(p) => {
                if secure_bytes_eq(p, &self.password) {
                    Ok(())
                } else {
                    Err(AuthError::Mismatch)
                }
            },
        }
    }
}

} // verus!
