//! Random bytes.

use vstd::prelude::*;

verus! {

/// `getrandom::getrandom`: sixteen bytes from the system's random source, or
/// none where the source fails. Nothing is stated of the bytes.
#[verifier::external_body]
pub(crate) fn random_bytes() -> (r: Option<[u8; 16]>) {
    let mut bytes = [0u8; 16];
    getrandom::getrandom(&mut bytes).ok().map(|_| bytes)
}

} // verus!
