//! SHA-256 digests computed by the Soroban host.

use vstd::prelude::*;

verus! {

/// The Soroban environment, carried through to the host functions that need it.
#[verifier::external_type_specification]
#[verifier::external_body]
pub struct ExEnv(soroban_sdk::Env);

/// The SHA-256 digest of a byte string.
pub uninterp spec fn sha256_digest(data: Seq<u8>) -> Seq<u8>;

/// Calls `soroban_sdk::crypto::Crypto::sha256` on `data` (copied into host
/// `Bytes` by `Bytes::from_slice`) and returns the 32 digest bytes.
/// Claimed: the result is the SHA-256 digest of `data`, a function of `data`
/// alone, and it has 32 bytes. Left unsaid: the host charges the call to the
/// environment's budget and traps once that budget is exhausted.
#[verifier::external_body]
pub(crate) fn sha256(env: &soroban_sdk::Env, data: &Vec<u8>) -> (digest: Vec<u8>)
    ensures
        digest@ == sha256_digest(data@),
        digest@.len() == 32,
{
    let bytes = soroban_sdk::Bytes::from_slice(env, data.as_slice());
    env.crypto().sha256(&bytes).to_array().to_vec()
}

} // verus!
