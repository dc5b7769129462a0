//! Calls into the hash and cipher crates (`sha2`, `aes` with `cbc`, `base58`).

use vstd::prelude::*;
use aes::Aes256;
use cipher::{BlockDecryptMut, BlockEncryptMut, KeyIvInit};
use cipher::block_padding::NoPadding;
use cipher::generic_array::GenericArray;
use sha2::{Digest, Sha256};
use base58::ToBase58;

verus! {

/// The SHA-256 digest of a byte string.
pub uninterp spec fn sha256(data: Seq<u8>) -> Seq<u8>;

/// AES-256 in CBC mode from the IV `iv`, encrypting whole 16-byte blocks.
pub uninterp spec fn aes256_cbc_encrypt(key: Seq<u8>, iv: Seq<u8>, data: Seq<u8>) -> Seq<u8>;

/// AES-256 in CBC mode from the IV `iv`, decrypting whole 16-byte blocks.
pub uninterp spec fn aes256_cbc_decrypt(key: Seq<u8>, iv: Seq<u8>, data: Seq<u8>) -> Seq<u8>;

/// The base58 text (Bitcoin alphabet) of a byte string.
pub uninterp spec fn base58_text(data: Seq<u8>) -> Seq<char>;

/// SHA-256 of `data`, through `sha2::Sha256::digest`.
///
/// Claims that the result is the digest of `data` and is 32 bytes long.
#[verifier::external_body]
pub(crate) fn sha256_digest(data: &[u8]) -> (d: Vec<u8>)
    ensures
        d@ == sha256(data@),
        d@.len() == 32,
{
    Sha256::digest(data).to_vec()
}

/// Base58 text of `data`, through `base58::ToBase58::to_base58`.
///
/// Claims only that the result is the base58 text of `data`.
#[verifier::external_body]
pub(crate) fn to_base58(data: &[u8]) -> (s: String)
    ensures
        s@ == base58_text(data@),
{
    data.to_base58()
}

/// Encrypts whole blocks with `cbc::Encryptor<Aes256>` started from `iv`
/// (`encrypt_padded_mut::<NoPadding>`).
///
/// Claims that the ciphertext is the named CBC result, keeps the length of
/// the input, and that CBC decryption with the same key and IV gives the
/// input back.
#[verifier::external_body]
pub(crate) fn cbc_encrypt(key: &[u8], iv: &[u8], data: &[u8]) -> (out: Vec<u8>)
    requires
        key@.len() == 32,
        iv@.len() == 16,
        data@.len() % 16 == 0,
    ensures
        out@ == aes256_cbc_encrypt(key@, iv@, data@),
        out@.len() == data@.len(),
        aes256_cbc_decrypt(key@, iv@, out@) == data@,
{
    let mut out = data.to_vec();
    let n = out.len();
    let enc = cbc::Encryptor::<Aes256>::new(GenericArray::from_slice(key), GenericArray::from_slice(iv));
    let _ = enc.encrypt_padded_mut::<NoPadding>(&mut out, n);
    out
}

/// Decrypts whole blocks with `cbc::Decryptor<Aes256>` started from `iv`
/// (`decrypt_padded_mut::<NoPadding>`).
///
/// Claims that the plaintext is the named CBC result and keeps the length of
/// the input.
#[verifier::external_body]
pub(crate) fn cbc_decrypt(key: &[u8], iv: &[u8], data: &[u8]) -> (out: Vec<u8>)
    requires
        key@.len() == 32,
        iv@.len() == 16,
        data@.len() % 16 == 0,
    ensures
        out@ == aes256_cbc_decrypt(key@, iv@, data@),
        out@.len() == data@.len(),
{
    let mut out = data.to_vec();
    let dec = cbc::Decryptor::<Aes256>::new(GenericArray::from_slice(key), GenericArray::from_slice(iv));
    let _ = dec.decrypt_padded_mut::<NoPadding>(&mut out);
    out
}

} // verus!
