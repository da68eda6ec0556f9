//! Globally unique identifier generation for resource metadata.

use vstd::prelude::*;

verus! {

/// Relies on `uuid::Uuid::new_v4`: a freshly generated random (version 4)
/// UUID, carried as its 128-bit value. The result is random, so nothing is
/// promised of it.
#[verifier::external_body]
pub fn fresh_uuid() -> u128 {
    uuid::Uuid::new_v4().as_u128()
}

} // verus!
