//! The content-addressing digest behind pool deployment: SHA-256 over a
//! stable serialization of the deployment inputs. The digest itself is
//! computed by the host environment; everything around it is verified.

use vstd::prelude::*;

verus! {

/// What SHA-256 returns for a byte sequence: a function of the bytes
/// alone, the same in every process and on every machine.
pub uninterp spec fn sha256_of(data: Seq<u8>) -> Seq<u8>;

#[verifier::external_type_specification]
#[verifier::external_body]
pub struct ExEnv(soroban_sdk::Env);

/// Relies on soroban_sdk's `Crypto::sha256` (reached as
/// `env.crypto().sha256`): the SHA-256 digest of the input bytes, 32
/// bytes long, depending on the input bytes alone.
#[verifier::external_body]
pub fn sha256_digest(e: &soroban_sdk::Env, data: &Vec<u8>) -> (r: Vec<u8>)
    ensures
        r@ == sha256_of(data@),
        r@.len() == 32,
{
    let bytes = soroban_sdk::Bytes::from_slice(e, data.as_slice());
    e.crypto().sha256(&bytes).to_array().to_vec()
}

} // verus!
