//! Base58 text of keys and contract ids.

use vstd::prelude::*;

verus! {

/// The base58 text of some bytes, as `bs58::encode` writes it.
pub uninterp spec fn base58(bytes: Seq<u8>) -> Seq<char>;

/// The bytes a base58 text stands for, as `bs58::decode` reads it; none where
/// the text is not base58.
pub uninterp spec fn base58_bytes(text: Seq<char>) -> Option<Seq<u8>>;

/// `bs58::encode`: the base58 text of a key depends on the key alone, and is
/// what [`base58`] names. The digits themselves are not stated.
#[verifier::external_body]
pub(crate) fn encode(key: &[u8; 32]) -> (r: String)
    ensures
        r@ == base58(key@),
{
    bs58::encode(key).into_string()
}

/// `bs58::decode`: the bytes a text stands for depend on the text alone, and
/// are what [`base58_bytes`] names. Which texts are base58 is not stated.
#[verifier::external_body]
pub(crate) fn decode(text: &str) -> (r: Option<Vec<u8>>)
    ensures
        (match r {
            Some(b) => base58_bytes(text@) == Some(b@),
            None => base58_bytes(text@) is None,
        }),
{
    bs58::decode(text).into_vec().ok()
}

} // verus!
