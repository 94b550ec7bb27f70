//! Random bytes, for nonces and padding.

use vstd::prelude::*;

verus! {

/// Calls `rand::thread_rng` and `RngCore::fill_bytes` on a buffer of `n`
/// bytes. Nothing is claimed of the bytes but how many they are.
#[verifier::external_body]
pub(crate) fn random_bytes(n: usize) -> (out: Vec<u8>)
    ensures
        out@.len() == n,
{
    let mut out = Vec::new();
    out.resize(n, 0u8);
    rand::RngCore::fill_bytes(&mut rand::thread_rng(), &mut out);
    out
}

} // verus!
