//! Secret phrases: BIP-39 mnemonic validation, generation and signing-key
//! derivation, provided by the `coins-bip39` and `ethers-signers` crates.

use ethers_signers::Signer;
use vstd::prelude::*;

verus! {

/// Whether a phrase is a well-formed BIP-39 mnemonic: known word count,
/// known words, matching checksum. A function of the phrase alone.
pub uninterp spec fn phrase_valid(s: Seq<char>) -> bool;

/// The twenty-byte account address derived from a valid phrase at the
/// default derivation path. A function of the phrase alone.
pub uninterp spec fn address_of_phrase(s: Seq<char>) -> Seq<u8>;

/// Whether the key derivation at the default path succeeds for a valid
/// phrase. A function of the phrase alone.
pub uninterp spec fn derivation_ok(s: Seq<char>) -> bool;

/// Relies on coins_bip39's `Mnemonic::new_from_phrase`: whether the phrase
/// parses as a mnemonic depends on the phrase alone.
#[verifier::external_body]
pub fn validate(mnemonic: &str) -> (r: bool)
    ensures
        r == phrase_valid(mnemonic@),
{
    coins_bip39::Mnemonic::<coins_bip39::English>::new_from_phrase(mnemonic).is_ok()
}

/// Relies on coins_bip39's `Mnemonic::new` and `to_phrase`: a freshly drawn
/// mnemonic prints as a phrase that `new_from_phrase` accepts (the generated
/// words carry their own checksum). Nothing more is promised: the phrase is
/// random.
#[verifier::external_body]
pub fn random_mnemonic() -> (r: String)
    ensures
        phrase_valid(r@),
{
    let mut rng = rand::rngs::OsRng;
    let mnemonic: coins_bip39::Mnemonic<coins_bip39::English> = coins_bip39::Mnemonic::new(
        &mut rng,
    );
    mnemonic.to_phrase()
}

/// Relies on ethers_signers' `MnemonicBuilder`: with the phrase handed over
/// as a string value (never as a file path, which the builder would read
/// from disk), the built wallet, whether building succeeds, and the
/// twenty-byte address are deterministic functions of the phrase alone;
/// derivation reports an error rather than panicking.
#[verifier::external_body]
pub(crate) fn derive_address_bytes(phrase: &str) -> (r: Option<Vec<u8>>)
    requires
        phrase_valid(phrase@),
    ensures
        r is Some <==> derivation_ok(phrase@),
        r matches Some(a) ==> a@ == address_of_phrase(phrase@) && a@.len() == 20,
{
    let built = ethers_signers::MnemonicBuilder::<coins_bip39::English>::default().phrase(
        ethers_core::types::PathOrString::String(phrase.to_string()),
    ).build();
    match built {
        Ok(wallet) => Some(wallet.address().as_bytes().to_vec()),
        Err(_) => None,
    }
}

} // verus!
