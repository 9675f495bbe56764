//! Identifiers given to items of a level while it is edited.
use vstd::prelude::*;

verus! {

/// The nil identifier.
pub const NIL_UUID: u128 = 0;

/// A fresh random identifier: `uuid::Uuid::new_v4()` taken as a 128-bit
/// number (big-endian, as `as_u128` reads it). The value is random; the
/// contract claims only what `new_v4` fixes in every outcome: the version
/// nibble is 4 and the variant bits are `10`, so the value is never nil.
#[verifier::external_body]
pub(crate) fn new_uuid() -> (r: u128)
    ensures
        r & 0xF000_C000_0000_0000_0000u128 == 0x4000_8000_0000_0000_0000u128,
        r != NIL_UUID,
{
    uuid::Uuid::new_v4().as_u128()
}

} // verus!

verus! {

/// A random byte: `rand::random::<u8>()`. Nothing is claimed of the value.
#[verifier::external_body]
pub(crate) fn random_byte() -> u8 {
    rand::random::<u8>()
}

} // verus!
