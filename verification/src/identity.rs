//! Identifiers of citizens, institutions, deities and cultures.
//!
//! An identifier is the 128-bit value of a random (version 4) UUID.

use uuid::Uuid;
use vstd::prelude::*;

verus! {

/// The bits of an identifier that hold the UUID version and variant.
pub const VERSION_AND_VARIANT_BITS: u128 = 0x0000_0000_0000_F000_C000_0000_0000_0000;

/// The value of those bits in a random UUID: version 4, RFC variant.
pub const RANDOM_UUID_MARK: u128 = 0x0000_0000_0000_4000_8000_0000_0000_0000;

/// Whether `id` has the shape of a random UUID.
pub open spec fn random_uuid_shape(id: u128) -> bool {
    id & VERSION_AND_VARIANT_BITS == RANDOM_UUID_MARK
}

/// Calls `uuid::Uuid::new_v4` and takes the value with `Uuid::as_u128`.
///
/// Trusted: the version and variant bits are those of a random UUID.  The
/// other bits are random, and nothing is claimed of them.
#[verifier::external_body]
pub(crate) fn fresh_id() -> (id: u128)
    ensures
        random_uuid_shape(id),
{
    Uuid::new_v4().as_u128()
}

} // verus!
