//! From an output script to the fingerprint that the index knows it by.

use crate::types::{Address, Hash256, ScriptHash};
use bitcoin_hashes::sha256;
use vstd::prelude::*;

verus! {

/// The SHA-256 digest of a byte string, as `bitcoin_hashes` computes it.
pub uninterp spec fn sha256_digest(data: Seq<u8>) -> Seq<u8>;

/// Hashes `data` with `bitcoin_hashes::sha256::Hash::hash` and hands out the
/// 32 bytes of the digest. Nothing is proved of the hash function: the
/// contract only gives its result a name, which is sound because the digest
/// depends on `data` alone.
#[verifier::external_body]
fn sha256_bytes(data: &[u8]) -> (digest: [u8; 32])
    ensures
        digest@ == sha256_digest(data@),
{
    sha256::Hash::hash(data).to_byte_array()
}

impl ScriptHash {
    /// The fingerprint of an output script: its SHA-256 digest.
    pub open spec fn of_script(script: Seq<u8>) -> ScriptHash {
        ScriptHash(Hash256::of_bytes(sha256_digest(script)))
    }

    /// Fingerprint of an output script.
    pub fn from_script(script: &[u8]) -> (scripthash: ScriptHash)
        ensures
            scripthash == Self::of_script(script@),
    {
        let digest = sha256_bytes(script);
        ScriptHash::from_bytes(&digest)
    }

    /// Fingerprint of the script that an address pays to.
    pub fn from_address(address: &Address) -> (scripthash: ScriptHash)
        ensures
            scripthash == Self::of_script(address@.script),
    {
        Self::from_script(address.script.as_slice())
    }
}

} // verus!
