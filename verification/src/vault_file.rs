//! The on-disk vault format, at the level of complete byte buffers.
//!
//! A vault file is `magic | version | salt | kdf params | nonce | ciphertext`
//! with little-endian integers. Building a buffer ([`write_vault`]) and
//! opening one ([`read_vault`]) are both specified against the same
//! spec-level view of the format, so that a written vault provably opens to
//! the payload it was written from. The caller owns the actual file I/O and
//! hands complete buffers in and out.

use vstd::prelude::*;

use crate::aead;
use crate::codec;
use crate::error::VaulturaError;
use crate::kdf;
use crate::models::{KdfParams, PayloadView, VaultPayload};
use vstd::utf8::encode_utf8;

verus! {

/// Format version; the only value accepted.
pub const VERSION: u32 = 1;

/// Length in bytes of the salt stored in every vault file.
pub const SALT_LENGTH: usize = 32;

/// The serialized KDF parameters: three 32-bit integers.
pub const KDF_PARAMS_LENGTH: usize = 12;

/// Smallest well-formed file: header plus at least one ciphertext byte.
pub const MIN_FILE_SIZE: usize = 4 + 4 + 32 + 12 + 24 + 1;

/// Largest ciphertext this library will decrypt; far beyond any realistic
/// vault, and within the cipher's own message bound.
pub const MAX_CIPHERTEXT: usize = 0xffff_ffff;

/// The four magic bytes, "VLTR".
pub open spec fn magic() -> Seq<u8> {
    seq![0x56u8, 0x4cu8, 0x54u8, 0x52u8]
}

pub open spec fn enc_kdf_params(p: KdfParams) -> Seq<u8> {
    codec::le32(p.memory_cost_kib) + codec::le32(p.time_cost) + codec::le32(p.parallelism)
}

/// A complete vault file for the given salt, parameters, nonce and
/// ciphertext.
pub open spec fn enc_vault_file(
    salt: Seq<u8>,
    params: KdfParams,
    nonce: Seq<u8>,
    ct: Seq<u8>,
) -> Seq<u8> {
    magic() + (codec::le32(VERSION) + (salt + (enc_kdf_params(params) + (nonce + ct))))
}

/// The 32-bit little-endian integer at offset `i`.
pub open spec fn u32_at(s: Seq<u8>, i: int) -> u32 {
    codec::u32_from_le(s[i], s[i + 1], s[i + 2], s[i + 3])
}

/// Serialize the three KDF cost parameters, little-endian.
pub fn write_kdf_params(out: &mut Vec<u8>, params: &KdfParams)
    ensures
        final(out)@ == old(out)@ + enc_kdf_params(*params),
{
    codec::write_u32(out, params.memory_cost_kib);
    codec::write_u32(out, params.time_cost);
    codec::write_u32(out, params.parallelism);
    proof {
        assert(out@ =~= old(out)@ + enc_kdf_params(*params));
    }
}

/// Read the three KDF cost parameters stored at this offset.
pub fn read_kdf_params(data: &Vec<u8>, pos: usize) -> (r: Option<(KdfParams, usize)>)
    ensures
        match r {
            Option::Some((p, j)) => {
                &&& pos + 12 <= data@.len()
                &&& j == pos + 12
                &&& p == (KdfParams {
                    memory_cost_kib: u32_at(data@, pos as int),
                    time_cost: u32_at(data@, pos + 4),
                    parallelism: u32_at(data@, pos + 8),
                })
            },
            Option::None => pos + 12 > data@.len(),
        },
{
    match codec::read_u32(data, pos) {
        Option::None => None,
        Option::Some((m, j1)) => match codec::read_u32(data, j1) {
            Option::None => None,
            Option::Some((t, j2)) => match codec::read_u32(data, j2) {
                Option::None => None,
                Option::Some((p, j3)) => Some(
                    (KdfParams { memory_cost_kib: m, time_cost: t, parallelism: p }, j3),
                ),
            },
        },
    }
}

/// Structural well-formedness of a file: long enough, right magic, right
/// version. Checked before any cryptography; everything else is a matter of
/// the password.
pub open spec fn header_ok(s: Seq<u8>) -> bool {
    &&& s.len() >= MIN_FILE_SIZE
    &&& s.subrange(0, 4) == magic()
    &&& u32_at(s, 4) == VERSION
}

pub open spec fn file_salt(s: Seq<u8>) -> Seq<u8> {
    s.subrange(8, 40)
}

pub open spec fn file_params(s: Seq<u8>) -> KdfParams {
    KdfParams {
        memory_cost_kib: u32_at(s, 40),
        time_cost: u32_at(s, 44),
        parallelism: u32_at(s, 48),
    }
}

pub open spec fn file_nonce(s: Seq<u8>) -> Seq<u8> {
    s.subrange(52, 76)
}

pub open spec fn file_ciphertext(s: Seq<u8>) -> Seq<u8> {
    s.subrange(76, s.len() as int)
}

/// The key that opening this file with this password derives.
pub open spec fn spec_vault_key(s: Seq<u8>, password: Seq<char>) -> Seq<u8> {
    kdf::argon2id_key(
        password,
        file_salt(s),
        file_params(s).memory_cost_kib,
        file_params(s).time_cost,
        file_params(s).parallelism,
    )
}

/// The payload that this file decrypts to under this password, if the
/// ciphertext authenticates and its plaintext decodes.
pub open spec fn spec_open_payload(s: Seq<u8>, password: Seq<char>) -> Option<PayloadView> {
    match aead::xchacha_open(spec_vault_key(s, password), file_nonce(s), file_ciphertext(s)) {
        Option::None => Option::None,
        Option::Some(pt) => codec::spec_decode_payload(pt),
    }
}

/// Whether the KDF accepts this file's parameters together with this
/// password; the stored salt always has the accepted length.
pub open spec fn file_kdf_ok(s: Seq<u8>, password: Seq<char>) -> bool {
    kdf::kdf_params_ok(file_params(s)) && encode_utf8(password).len() <= 0xffff_ffff
}

/// The structure of every well-formed file built by [`write_vault`].
pub proof fn lemma_vault_file_fields(salt: Seq<u8>, params: KdfParams, nonce: Seq<u8>, ct: Seq<u8>)
    requires
        salt.len() == SALT_LENGTH,
        nonce.len() == 24,
        ct.len() >= 1,
    ensures
        ({
            let s = enc_vault_file(salt, params, nonce, ct);
            &&& s.len() == 76 + ct.len()
            &&& header_ok(s)
            &&& file_salt(s) == salt
            &&& file_params(s) == params
            &&& file_nonce(s) == nonce
            &&& file_ciphertext(s) == ct
        }),
{
    let s = enc_vault_file(salt, params, nonce, ct);
    let r2 = codec::le32(VERSION) + (salt + (enc_kdf_params(params) + (nonce + ct)));
    let r3 = salt + (enc_kdf_params(params) + (nonce + ct));
    let r4 = enc_kdf_params(params) + (nonce + ct);
    let r5 = nonce + ct;
    assert(s.subrange(0, s.len() as int) =~= s);
    codec::lemma_subrange_prefix(s, 0, magic(), r2);
    codec::lemma_subrange_prefix(s, 4, codec::le32(VERSION), r3);
    codec::lemma_subrange_prefix(s, 8, salt, r4);
    codec::lemma_subrange_prefix(s, 40, enc_kdf_params(params), r5);
    codec::lemma_subrange_prefix(s, 52, nonce, ct);
    assert(u32_at(s, 4) == VERSION) by {
        codec::lemma_parse_u32_at(s, 4, VERSION);
    }
    assert(file_params(s) == params) by {
        let pk = enc_kdf_params(params);
        assert(s.subrange(40, 52) == pk);
        assert(s.subrange(40, 44) =~= codec::le32(params.memory_cost_kib)) by {
            assert forall|k: int| 0 <= k < 4 implies s.subrange(40, 44)[k] == codec::le32(
                params.memory_cost_kib,
            )[k] by {
                assert(s[40 + k] == s.subrange(40, 52)[k]);
            }
        }
        assert(s.subrange(44, 48) =~= codec::le32(params.time_cost)) by {
            assert forall|k: int| 0 <= k < 4 implies s.subrange(44, 48)[k] == codec::le32(
                params.time_cost,
            )[k] by {
                assert(s[44 + k] == s.subrange(40, 52)[4 + k]);
            }
        }
        assert(s.subrange(48, 52) =~= codec::le32(params.parallelism)) by {
            assert forall|k: int| 0 <= k < 4 implies s.subrange(48, 52)[k] == codec::le32(
                params.parallelism,
            )[k] by {
                assert(s[48 + k] == s.subrange(40, 52)[8 + k]);
            }
        }
        codec::lemma_parse_u32_at(s, 40, params.memory_cost_kib);
        codec::lemma_parse_u32_at(s, 44, params.time_cost);
        codec::lemma_parse_u32_at(s, 48, params.parallelism);
    }
    assert(file_salt(s) == salt);
    assert(file_nonce(s) == nonce);
    assert(file_ciphertext(s) =~= ct);
}

/// Serialize, encrypt and frame a payload under a fresh salt and nonce,
/// returning the complete file contents. The caller writes them to disk
/// atomically.
#[verifier::rlimit(100)]
#[verifier::spinoff_prover]
pub fn write_vault(password: &str, params: &KdfParams, payload: &VaultPayload) -> (r: Result<
    Vec<u8>,
    VaulturaError,
>)
    ensures
        r matches Ok(data) ==> {
            &&& header_ok(data@)
            &&& file_params(data@) == *params
            &&& file_ciphertext(data@).len() <= MAX_CIPHERTEXT
            &&& spec_open_payload(data@, password@) == Some(payload@)
        },
        r matches Err(e) ==> e is Kdf || e is Encryption,
        kdf::kdf_params_ok(*params) && encode_utf8(password@).len() <= 0xffff_ffff && codec::enc_payload(payload@).len() + 16 <= MAX_CIPHERTEXT ==> !(r matches Err(e) && e is Encryption),
{
    let salt = kdf::generate_salt(SALT_LENGTH);
    let key = match kdf::derive_key(password, salt.as_slice(), params) {
        Ok(k) => k,
        Err(e) => return Err(e),
    };
    let plaintext = codec::encode_payload(payload);
    if plaintext.len() > MAX_CIPHERTEXT - 16 {
        return Err(VaulturaError::Encryption("payload too large".to_owned()));
    }
    let (nonce, ciphertext) = match aead::encrypt(&key, plaintext.as_slice()) {
        Ok(nc) => nc,
        Err(e) => return Err(e),
    };
    let mut data: Vec<u8> = Vec::new();
    data.push(0x56);
    data.push(0x4c);
    data.push(0x54);
    data.push(0x52);
    proof {
        assert(data@ =~= magic());
    }
    codec::write_u32(&mut data, VERSION);
    codec::append_bytes(&mut data, salt.as_slice());
    write_kdf_params(&mut data, params);
    codec::append_bytes(&mut data, nonce.as_slice());
    codec::append_bytes(&mut data, ciphertext.as_slice());
    proof {
        let m = magic();
        let ver = codec::le32(VERSION);
        let pk = enc_kdf_params(*params);
        let x = m + ver + salt@;
        vstd::seq_lib::lemma_concat_associative(x + pk, nonce@, ciphertext@);
        vstd::seq_lib::lemma_concat_associative(x, pk, nonce@ + ciphertext@);
        vstd::seq_lib::lemma_concat_associative(m + ver, salt@, pk + (nonce@ + ciphertext@));
        vstd::seq_lib::lemma_concat_associative(m, ver, salt@ + (pk + (nonce@ + ciphertext@)));
        assert(data@ == enc_vault_file(salt@, *params, nonce@, ciphertext@));
        lemma_vault_file_fields(salt@, *params, nonce@, ciphertext@);
        codec::lemma_payload_round_trip(payload@);
    }
    Ok(data)
}

/// Validate the header and decrypt a vault file with an already-derived key.
/// The result is fully determined: a structural error for a malformed
/// header, the wrong-password condition exactly when the ciphertext does not
/// authenticate under the key, a decoding error exactly when the decrypted
/// plaintext is not a payload encoding, and otherwise the payload and the
/// stored parameters.
pub fn read_vault_with_key(data: &Vec<u8>, key: &Vec<u8>) -> (r: Result<
    (VaultPayload, KdfParams),
    VaulturaError,
>)
    requires
        key@.len() == 32,
    ensures
        !header_ok(data@) <==> (r matches Err(e) && e is InvalidVaultFile),
        header_ok(data@) && file_ciphertext(data@).len() > MAX_CIPHERTEXT ==> (r matches Err(e)
            && e is WrongPassword),
        header_ok(data@) && file_ciphertext(data@).len() <= MAX_CIPHERTEXT ==> match aead::xchacha_open(
            key@,
            file_nonce(data@),
            file_ciphertext(data@),
        ) {
            Option::None => r matches Err(e) && e is WrongPassword,
            Option::Some(pt) => match codec::spec_decode_payload(pt) {
                Option::None => r matches Err(e) && e is Serialization,
                Option::Some(p) => r matches Ok((rp, rparams)) && rp@ == p && rparams
                    == file_params(data@),
            },
        },
{
    match read_header(data) {
        Err(e) => Err(e),
        Ok((_salt, params)) => {
            let ct_len = data.len() - 76;
            if ct_len > MAX_CIPHERTEXT {
                return Err(VaulturaError::WrongPassword);
            }
            let nonce = codec::copy_range(data, 52, 76);
            let ciphertext = codec::copy_range(data, 76, data.len());
            match aead::decrypt(key, nonce.as_slice(), ciphertext.as_slice()) {
                Err(_) => Err(VaulturaError::WrongPassword),
                Ok(plaintext) => match codec::decode_payload(&plaintext) {
                    Err(e) => Err(e),
                    Ok(payload) => Ok((payload, params)),
                },
            }
        },
    }
}

/// Open a vault file with a master password: validate the header, derive the
/// key from the stored salt and parameters, decrypt and decode.
pub fn read_vault(data: &Vec<u8>, password: &str) -> (r: Result<
    (VaultPayload, KdfParams),
    VaulturaError,
>)
    ensures
        !header_ok(data@) <==> (r matches Err(e) && e is InvalidVaultFile),
        header_ok(data@) && !file_kdf_ok(data@, password@) ==> (r matches Err(e) && e is Kdf),
        r matches Ok((p, rparams)) ==> {
            &&& header_ok(data@)
            &&& rparams == file_params(data@)
            &&& spec_open_payload(data@, password@) == Some(p@)
        },
        r matches Err(e) && e is WrongPassword ==> aead::xchacha_open(
            spec_vault_key(data@, password@),
            file_nonce(data@),
            file_ciphertext(data@),
        ) is None || file_ciphertext(data@).len() > MAX_CIPHERTEXT,
        header_ok(data@) && file_ciphertext(data@).len() <= MAX_CIPHERTEXT && !(r matches Err(e)
            && e is Kdf) ==> match spec_open_payload(data@, password@) {
            Option::None => r is Err,
            Option::Some(p) => r matches Ok((rp, rparams)) && rp@ == p && rparams == file_params(
                data@,
            ),
        },
{
    match read_header(data) {
        Err(e) => Err(e),
        Ok((salt, params)) => {
            let key = match kdf::derive_key(password, salt.as_slice(), &params) {
                Ok(k) => k,
                Err(e) => return Err(e),
            };
            read_vault_with_key(data, &key)
        },
    }
}

/// Validate the header and return the stored salt and KDF parameters, with
/// no password and no cryptography.
pub fn read_vault_header(data: &Vec<u8>) -> (r: Result<(Vec<u8>, KdfParams), VaulturaError>)
    ensures
        header_ok(data@) <==> r is Ok,
        r matches Ok((salt, params)) ==> salt@ == file_salt(data@) && params == file_params(
            data@,
        ),
        r matches Err(e) ==> e is InvalidVaultFile,
{
    read_header(data)
}

/// Shared header validation: length, magic, version, then salt and
/// parameters at their fixed offsets.
fn read_header(data: &Vec<u8>) -> (r: Result<(Vec<u8>, KdfParams), VaulturaError>)
    ensures
        header_ok(data@) <==> r is Ok,
        r matches Ok((salt, params)) ==> salt@ == file_salt(data@) && params == file_params(
            data@,
        ),
        r matches Err(e) ==> e is InvalidVaultFile,
{
    if data.len() < MIN_FILE_SIZE {
        proof {
            assert(!header_ok(data@));
        }
        return Err(VaulturaError::InvalidVaultFile { reason: "file too small".to_owned() });
    }
    if !(data[0] == 0x56 && data[1] == 0x4c && data[2] == 0x54 && data[3] == 0x52) {
        proof {
            assert(data@.subrange(0, 4) == magic() ==> {
                &&& data@[0] == 0x56u8
                &&& data@[1] == 0x4cu8
                &&& data@[2] == 0x54u8
                &&& data@[3] == 0x52u8
            }) by {
                if data@.subrange(0, 4) == magic() {
                    assert(data@[0] == data@.subrange(0, 4)[0]);
                    assert(data@[1] == data@.subrange(0, 4)[1]);
                    assert(data@[2] == data@.subrange(0, 4)[2]);
                    assert(data@[3] == data@.subrange(0, 4)[3]);
                }
            }
        }
        return Err(VaulturaError::InvalidVaultFile { reason: "invalid magic bytes".to_owned() });
    }
    proof {
        assert(data@.subrange(0, 4) =~= magic());
    }
    let version = match codec::read_u32(data, 4) {
        Some((v, _)) => v,
        None => {
            return Err(VaulturaError::InvalidVaultFile { reason: "file too small".to_owned() });
        },
    };
    if version != VERSION {
        return Err(VaulturaError::InvalidVaultFile { reason: "unsupported version".to_owned() });
    }
    let salt = codec::copy_range(data, 8, 40);
    match read_kdf_params(data, 40) {
        Some((params, _)) => Ok((salt, params)),
        None => Err(VaulturaError::InvalidVaultFile { reason: "file too small".to_owned() }),
    }
}

/// Write a brand-new empty vault: the file an unlocked-but-unused vault
/// starts from.
pub fn create_vault(password: &str, kdf_params: &KdfParams) -> (r: Result<Vec<u8>, VaulturaError>)
    ensures
        r matches Ok(data) ==> {
            &&& header_ok(data@)
            &&& file_params(data@) == *kdf_params
            &&& file_ciphertext(data@).len() <= MAX_CIPHERTEXT
            &&& match spec_open_payload(data@, password@) {
                Option::None => false,
                Option::Some(p) => p.groups.len() == 0 && p.items.len() == 0 && p.meta.version
                    == 1,
            }
        },
        r matches Err(e) ==> e is Kdf || e is Encryption,
{
    let payload = VaultPayload::default();
    write_vault(password, kdf_params, &payload)
}

/// Re-encrypt a payload under a (possibly different) password to a separate
/// file's contents; the live vault is untouched.
pub fn export_vault(password: &str, kdf_params: &KdfParams, payload: &VaultPayload) -> (r: Result<
    Vec<u8>,
    VaulturaError,
>)
    ensures
        r matches Ok(data) ==> {
            &&& header_ok(data@)
            &&& file_params(data@) == *kdf_params
            &&& file_ciphertext(data@).len() <= MAX_CIPHERTEXT
            &&& spec_open_payload(data@, password@) == Some(payload@)
        },
        r matches Err(e) ==> e is Kdf || e is Encryption,
        kdf::kdf_params_ok(*kdf_params) && encode_utf8(password@).len() <= 0xffff_ffff
            && codec::enc_payload(payload@).len() + 16 <= MAX_CIPHERTEXT ==> !(r matches Err(e)
            && e is Encryption),
{
    write_vault(password, kdf_params, payload)
}

/// Decrypt a separate vault file for merging; the stored parameters are read
/// but not adopted.
pub fn import_vault(data: &Vec<u8>, password: &str) -> (r: Result<VaultPayload, VaulturaError>)
    ensures
        r matches Ok(p) ==> header_ok(data@) && spec_open_payload(data@, password@) == Some(p@),
        !header_ok(data@) <==> (r matches Err(e) && e is InvalidVaultFile),
        header_ok(data@) && file_ciphertext(data@).len() <= MAX_CIPHERTEXT && !(r matches Err(e)
            && e is Kdf) ==> match spec_open_payload(data@, password@) {
            Option::Some(p) => r matches Ok(rp) && rp@ == p,
            Option::None => r is Err,
        },
{
    match read_vault(data, password) {
        Ok((payload, _params)) => Ok(payload),
        Err(e) => Err(e),
    }
}

} // verus!
