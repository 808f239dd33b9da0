//! The circuit identifier: a 32-bit xxHash of the circuit's name.
use vstd::prelude::*;

verus! {

/// What xxHash32 with seed 0 gives for the UTF-8 encoding of the name.
pub uninterp spec fn xxh32_of_name(name: Seq<char>) -> u32;

/// Relies on `twox_hash::XxHash32::oneshot`: a deterministic function of
/// the seed and the bytes, here seed 0 and the name's UTF-8 bytes.
#[verifier::external_body]
pub(crate) fn hash_name(name: &str) -> (r: u32)
    ensures
        r == xxh32_of_name(name@),
{
    twox_hash::XxHash32::oneshot(0, name.as_bytes())
}

} // verus!
