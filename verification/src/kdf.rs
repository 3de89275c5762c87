//! Key derivation: master password to symmetric key, via Argon2id.

use vstd::prelude::*;

use crate::error::VaulturaError;
use crate::models::KdfParams;
use rand::Rng;
use vstd::utf8::encode_utf8;

verus! {

/// Length in bytes of every derived key.
pub const KEY_LENGTH: usize = 32;

/// The 32-byte Argon2id (version 0x13) hash of the password and salt under
/// the given cost parameters. A name for what the KDF returns: the result
/// depends on these arguments alone, which is what makes vault round-trips
/// possible.
pub uninterp spec fn argon2id_key(
    password: Seq<char>,
    salt: Seq<u8>,
    memory_cost_kib: u32,
    time_cost: u32,
    parallelism: u32,
) -> Seq<u8>;

/// The cost parameters that the KDF accepts for a 32-byte output: at least
/// 8 KiB of memory, at least one pass, and between 1 and 2^24 - 1 lanes.
pub open spec fn kdf_params_ok(p: KdfParams) -> bool {
    &&& p.memory_cost_kib >= 8
    &&& p.time_cost >= 1
    &&& 1 <= p.parallelism <= 0xffffff
}

/// The inputs on which key derivation is defined: accepted cost parameters,
/// a salt of 8 to 2^32 - 1 bytes, and a password of at most 2^32 - 1 bytes.
pub open spec fn kdf_inputs_ok(password: Seq<char>, salt: Seq<u8>, p: KdfParams) -> bool {
    &&& kdf_params_ok(p)
    &&& 8 <= salt.len() <= 0xffff_ffff
    &&& encode_utf8(password).len() <= 0xffff_ffff
}

/// Relies on argon2::Argon2::hash_password_into (Argon2id, version 0x13): the
/// hash is a function of password, salt and cost parameters alone; parameters
/// or input sizes outside the documented bounds are rejected; a failure to
/// allocate the working memory is also reported as an error.
#[verifier::external_body]
pub fn derive_key(password: &str, salt: &[u8], params: &KdfParams) -> (r: Result<
    Vec<u8>,
    VaulturaError,
>)
    ensures
        r matches Ok(k) ==> {
            &&& k@ == argon2id_key(
                password@,
                salt@,
                params.memory_cost_kib,
                params.time_cost,
                params.parallelism,
            )
            &&& k@.len() == KEY_LENGTH
        },
        !kdf_inputs_ok(password@, salt@, *params) ==> r is Err,
        r matches Err(e) ==> e is Kdf,
{
    let argon2_params = match argon2::Params::new(
        params.memory_cost_kib,
        params.time_cost,
        params.parallelism,
        Some(KEY_LENGTH),
    ) {
        Ok(p) => p,
        Err(e) => return Err(VaulturaError::Kdf(e.to_string())),
    };
    let argon2 = argon2::Argon2::new(argon2::Algorithm::Argon2id, argon2::Version::V0x13, argon2_params);
    let mut key = vec![0u8; KEY_LENGTH];
    match argon2.hash_password_into(password.as_bytes(), salt, &mut key) {
        Ok(()) => Ok(key),
        Err(e) => Err(VaulturaError::Kdf(e.to_string())),
    }
}

/// Relies on rand::rng's RngCore::fill_bytes: a buffer of freshly random
/// bytes. Nothing can be promised of the contents.
#[verifier::external_body]
pub fn generate_salt(len: usize) -> (r: Vec<u8>)
    ensures
        r@.len() == len,
{
    let mut salt = vec![0u8; len];
    rand::rng().fill_bytes(&mut salt);
    salt
}

/// Key derivation is deterministic: two keys derived from the same password,
/// salt and cost parameters are equal. This is what lets a vault written
/// under a fresh salt be reopened later with the same password.
pub proof fn lemma_derive_key_deterministic(
    password: Seq<char>,
    salt: Seq<u8>,
    params: KdfParams,
    k1: Seq<u8>,
    k2: Seq<u8>,
)
    requires
        k1 == argon2id_key(password, salt, params.memory_cost_kib, params.time_cost, params.parallelism),
        k2 == argon2id_key(password, salt, params.memory_cost_kib, params.time_cost, params.parallelism),
    ensures
        k1 == k2,
{
}

} // verus!
