use vstd::prelude::*;

verus! {

/// The identifier of a street, an intersection or a district: the 128-bit
/// value of a UUID.
pub type ElementId = u128;

/// The version-4 random UUIDs that `new_id` draws: version nibble 4 and
/// variant bits `10`.
pub open spec fn is_random_uuid(id: u128) -> bool {
    &&& (id >> 76u128) & 0xfu128 == 4
    &&& (id >> 62u128) & 0x3u128 == 2
}

/// Draws a new identifier from `uuid::Uuid::new_v4` (as its `u128` value).
/// Trusted: the uuid source builds the value as random bits with the
/// version bits set to 4 and the variant bits to `10`, which is all that
/// the contract claims; which bits are drawn is left open.
#[verifier::external_body]
pub(crate) fn new_id() -> (id: ElementId)
    ensures
        is_random_uuid(id),
{
    uuid::Uuid::new_v4().as_u128()
}

/// A newly drawn identifier for a map element: a version-4 UUID.
pub fn random_element_id() -> (id: ElementId)
    ensures
        is_random_uuid(id),
{
    new_id()
}

/// A drawn identifier is never the nil UUID.
pub proof fn law_random_id_not_nil(id: u128)
    requires
        is_random_uuid(id),
    ensures
        id != 0,
{
    assert((0u128 >> 76u128) & 0xfu128 == 0) by (bit_vector);
}

} // verus!
