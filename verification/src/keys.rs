//! Ed25519 verifying keys.

use vstd::prelude::*;

verus! {

/// What `ed25519_dalek::VerifyingKey::from_bytes` finds wrong with 32 bytes,
/// in words; none where it takes them.
pub uninterp spec fn key_problem(key: Seq<u8>) -> Option<Seq<char>>;

/// Whether 32 bytes are an Ed25519 verifying key.
pub open spec fn is_verifying_key(key: Seq<u8>) -> bool {
    key_problem(key) is None
}

/// `ed25519_dalek::VerifyingKey::from_bytes`: whether it takes the bytes, and
/// what it says where it does not, depend on the bytes alone, and are what
/// [`key_problem`] names. Which bytes are the encoding of a point of the
/// curve is not stated.
#[verifier::external_body]
pub(crate) fn problem_with_key(key: &[u8; 32]) -> (r: Option<String>)
    ensures
        (match r {
            Some(why) => key_problem(key@) == Some(why@),
            None => key_problem(key@) is None,
        }),
{
    ed25519_dalek::VerifyingKey::from_bytes(key).err().map(|e| e.to_string())
}

/// Whether 32 bytes are an Ed25519 verifying key.
pub fn verifying_key(key: &[u8; 32]) -> (r: bool)
    ensures
        r == is_verifying_key(key@),
{
    problem_with_key(key).is_none()
}

} // verus!
