//! The vault's symmetric cipher, provided by the `magic-crypt` crate.
//!
//! The cipher is AES-256 in CBC mode with PKCS7 padding; the key is the
//! SHA-256 digest of the password and the initialization vector is constant,
//! so both directions are deterministic functions of password and text.

use magic_crypt::MagicCryptTrait;
use vstd::prelude::*;

verus! {

/// The base64 ciphertext that the cipher keyed by `key` produces for `plain`.
pub uninterp spec fn cipher_of(key: Seq<char>, plain: Seq<char>) -> Seq<char>;

/// What decrypting `cipher` with the cipher keyed by `key` yields: the
/// plaintext, or nothing when `cipher` is not a well-formed encryption under
/// `key`.
pub uninterp spec fn decipher_of(key: Seq<char>, cipher: Seq<char>) -> Option<Seq<char>>;

/// Relies on magic_crypt's `MagicCrypt256::new` and `encrypt_str_to_base64`:
/// the ciphertext is a deterministic function of password and plaintext, and
/// decrypting it under the same password returns the plaintext, as the
/// crate's own round-trip example shows.
#[verifier::external_body]
pub(crate) fn encrypt_b64(password: &str, plain: &str) -> (r: String)
    ensures
        r@ == cipher_of(password@, plain@),
        decipher_of(password@, r@) == Some(plain@),
{
    let mc = magic_crypt::MagicCrypt256::new(password, None::<&str>);
    mc.encrypt_str_to_base64(plain)
}

/// Relies on magic_crypt's `MagicCrypt256::new` and
/// `decrypt_base64_to_string`: decryption is a deterministic function of
/// password and ciphertext, and reports failure instead of returning text
/// when the input cannot be decrypted.
#[verifier::external_body]
pub(crate) fn decrypt_b64(password: &str, ciphertext: &str) -> (r: Option<String>)
    ensures
        r is Some <==> decipher_of(password@, ciphertext@) is Some,
        r matches Some(p) ==> decipher_of(password@, ciphertext@) == Some(p@),
{
    let mc = magic_crypt::MagicCrypt256::new(password, None::<&str>);
    mc.decrypt_base64_to_string(ciphertext).ok()
}

} // verus!
