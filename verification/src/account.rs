//! Identity and the signing account: an account identifier, a credentials
//! capability for its secret phrase, and the signing keys derived from it.

use crate::address::Address;
use crate::mnemonic::{address_of_phrase, derivation_ok, derive_address_bytes, phrase_valid};
use crate::vault::VaultError;
use vstd::prelude::*;

verus! {

/// An opaque, value-comparable account identity.
#[derive(Debug)]
pub struct AccountIdentifier {
    pub id: String,
}

impl Clone for AccountIdentifier {
    fn clone(&self) -> (r: Self)
        ensures
            r.id@ == self.id@,
    {
        AccountIdentifier { id: self.id.clone() }
    }
}

/// Why a signing key could not be derived.
#[derive(Clone, Copy, Debug, PartialEq, Eq, Structural)]
pub enum PhraseError {
    /// No secret phrase is stored for the account.
    Missing,
    /// A phrase is stored but is not a well-formed mnemonic.
    Invalid,
    /// The stored phrase does not decrypt.
    Undecryptable,
    /// The phrase is valid but the key derivation reported an error.
    DerivationFailed,
}

/// An entity capable of storing and returning secret phrases by account
/// identifier.
pub trait Credentials: Sized {
    /// What reading the phrase for `id` yields: the phrase, nothing when none
    /// is stored, or an error when the stored phrase cannot be read.
    spec fn spec_seed_phrase(&self, id: Seq<char>) -> Result<Option<Seq<char>>, VaultError>;

    /// Returns the secret phrase stored for the identifier, if any.
    fn get_seed_phrase(&self, account_identifier: &AccountIdentifier) -> (r: Result<
        Option<String>,
        VaultError,
    >)
        ensures
            match r {
                Ok(Some(v)) => self.spec_seed_phrase(account_identifier.id@) == Ok::<
                    _,
                    VaultError,
                >(Some(v@)),
                Ok(None) => self.spec_seed_phrase(account_identifier.id@) == Ok::<
                    Option<Seq<char>>,
                    VaultError,
                >(None),
                Err(e) => self.spec_seed_phrase(account_identifier.id@) == Err::<
                    Option<Seq<char>>,
                    VaultError,
                >(e),
            },
    ;

    /// Saves the phrase for the identifier, overwriting any prior phrase;
    /// phrases of other identifiers are untouched.
    fn save_seed_phrase(&mut self, account_identifier: &AccountIdentifier, seed_phrase: &str)
        ensures
            final(self).spec_seed_phrase(account_identifier.id@) == Ok::<_, VaultError>(
                Some(seed_phrase@),
            ),
            forall|other: Seq<char>|
                other != account_identifier.id@ ==> final(self).spec_seed_phrase(other) == old(
                    self,
                ).spec_seed_phrase(other),
    ;
}

/// A derived signing key, identified by its public address.
#[derive(Debug)]
pub struct SigningKey {
    address: Address,
}

impl View for SigningKey {
    type V = Seq<u8>;

    closed spec fn view(&self) -> Seq<u8> {
        self.address@
    }
}

impl SigningKey {
    /// The key's public address.
    pub fn address(&self) -> (r: &Address)
        ensures
            r@ == self@,
    {
        &self.address
    }
}

impl Clone for SigningKey {
    fn clone(&self) -> (r: Self)
        ensures
            r@ == self@,
    {
        SigningKey { address: self.address.clone() }
    }
}

/// An account that can derive signing keys from its stored secret phrase.
pub trait Account: Sized {
    /// The account's identifier.
    spec fn spec_identifier(&self) -> Seq<char>;

    /// The addresses of the derived signing keys, in derivation order.
    spec fn key_addresses(&self) -> Seq<Seq<u8>>;

    /// The fatal precondition of `create_wallet`: a secret phrase is stored,
    /// readable and a well-formed mnemonic.
    spec fn create_ready(&self) -> bool;

    /// The address that `create_wallet` would derive.
    spec fn pending_address(&self) -> Seq<u8>;

    /// Whether the derivation that `create_wallet` performs succeeds on the
    /// stored phrase.
    spec fn pending_derivation_ok(&self) -> bool;

    fn identifier(&self) -> (r: AccountIdentifier)
        ensures
            r.id@ == self.spec_identifier(),
    ;

    /// Returns a copy of the first derived key, or nothing if none is
    /// derived yet.
    fn wallet(&self) -> (r: Option<SigningKey>)
        ensures
            match r {
                Some(k) => self.key_addresses().len() > 0 && k@ == self.key_addresses()[0],
                None => self.key_addresses().len() == 0,
            },
    ;

    /// Derives a signing key from the stored phrase and appends it to the
    /// owned key list; succeeds exactly when the derivation does.
    fn create_wallet(&mut self) -> (r: bool)
        requires
            old(self).create_ready(),
        ensures
            final(self).spec_identifier() == old(self).spec_identifier(),
            r == old(self).pending_derivation_ok(),
            r ==> final(self).key_addresses() == old(self).key_addresses().push(
                old(self).pending_address(),
            ),
            !r ==> final(self).key_addresses() == old(self).key_addresses(),
    ;

    /// The public address of the first derived key, or nothing if none is
    /// derived yet.
    fn address(&self) -> (r: Option<Address>)
        ensures
            match r {
                Some(a) => self.key_addresses().len() > 0 && a@ == self.key_addresses()[0],
                None => self.key_addresses().len() == 0,
            },
    ;
}

/// An identifier together with a credentials capability and the signing keys
/// derived so far.
pub struct SigningAccount<C> where C: Credentials {
    credentials: C,
    wallets: Vec<SigningKey>,
    identifier: AccountIdentifier,
}

impl<C> SigningAccount<C> where C: Credentials {
    /// The credentials capability the account reads its phrase through.
    pub closed spec fn spec_credentials(&self) -> C {
        self.credentials
    }

    /// The account's identifier.
    pub closed spec fn spec_id(&self) -> Seq<char> {
        self.identifier.id@
    }

    /// The addresses of the derived signing keys, in derivation order.
    pub closed spec fn spec_keys(&self) -> Seq<Seq<u8>> {
        self.wallets@.map_values(|k: SigningKey| k@)
    }

    /// What reading this account's phrase yields.
    pub open spec fn spec_phrase(&self) -> Result<Option<Seq<char>>, VaultError> {
        self.spec_credentials().spec_seed_phrase(self.spec_identifier())
    }

    pub fn new(identifier: &AccountIdentifier, credentials: C) -> (r: Self)
        ensures
            r.spec_identifier() == identifier.id@,
            r.key_addresses() == Seq::<Seq<u8>>::empty(),
            r.spec_credentials() == credentials,
    {
        let r = SigningAccount { credentials, identifier: identifier.clone(), wallets: Vec::new() };
        proof {
            assert(r.key_addresses() =~= Seq::<Seq<u8>>::empty());
        }
        r
    }

    /// Reads the phrase, checks it, and derives a key only when it is
    /// present and valid; says otherwise which step refused.
    pub fn try_create_wallet(&mut self) -> (r: Result<(), PhraseError>)
        ensures
            final(self).spec_identifier() == old(self).spec_identifier(),
            final(self).spec_credentials() == old(self).spec_credentials(),
            r is Ok <==> old(self).create_ready() && old(self).pending_derivation_ok(),
            r is Ok ==> final(self).key_addresses() == old(self).key_addresses().push(
                old(self).pending_address(),
            ),
            r is Err ==> final(self).key_addresses() == old(self).key_addresses(),
            r == Err::<(), PhraseError>(PhraseError::Missing) ==> old(self).spec_phrase() == Ok::<
                Option<Seq<char>>,
                VaultError,
            >(None),
            r == Err::<(), PhraseError>(PhraseError::Undecryptable) ==> old(self).spec_phrase()
                is Err,
            r == Err::<(), PhraseError>(PhraseError::Invalid) ==> (old(self).spec_phrase()
                matches Ok(Some(p)) && !phrase_valid(p)),
            r == Err::<(), PhraseError>(PhraseError::DerivationFailed) ==> old(self).create_ready()
                && !old(self).pending_derivation_ok(),
    {
        let phrase = match self.credentials.get_seed_phrase(&self.identifier) {
            Ok(Some(p)) => p,
            Ok(None) => {
                return Err(PhraseError::Missing);
            },
            Err(_) => {
                return Err(PhraseError::Undecryptable);
            },
        };
        if !crate::mnemonic::validate(phrase.as_str()) {
            return Err(PhraseError::Invalid);
        }
        if self.create_wallet() {
            Ok(())
        } else {
            Err(PhraseError::DerivationFailed)
        }
    }
}

impl<C> Account for SigningAccount<C> where C: Credentials {
    open spec fn spec_identifier(&self) -> Seq<char> {
        self.spec_id()
    }

    open spec fn key_addresses(&self) -> Seq<Seq<u8>> {
        self.spec_keys()
    }

    open spec fn create_ready(&self) -> bool {
        match self.spec_phrase() {
            Ok(Some(p)) => phrase_valid(p),
            _ => false,
        }
    }

    open spec fn pending_address(&self) -> Seq<u8> {
        match self.spec_phrase() {
            Ok(Some(p)) => address_of_phrase(p),
            _ => Seq::empty(),
        }
    }

    open spec fn pending_derivation_ok(&self) -> bool {
        match self.spec_phrase() {
            Ok(Some(p)) => derivation_ok(p),
            _ => false,
        }
    }

    fn identifier(&self) -> (r: AccountIdentifier)
        ensures
            r.id@ == self.spec_identifier(),
    {
        self.identifier.clone()
    }

    fn wallet(&self) -> (r: Option<SigningKey>)
        ensures
            match r {
                Some(k) => self.key_addresses().len() > 0 && k@ == self.key_addresses()[0],
                None => self.key_addresses().len() == 0,
            },
    {
        if self.wallets.len() > 0 {
            Some(self.wallets[0].clone())
        } else {
            None
        }
    }

    fn create_wallet(&mut self) -> (r: bool)
        ensures
            final(self).spec_credentials() == old(self).spec_credentials(),
    {
        let phrase = match self.credentials.get_seed_phrase(&self.identifier) {
            Ok(Some(p)) => p,
            _ => {
                return false;
            },
        };
        match derive_address_bytes(phrase.as_str()) {
            Some(bytes) => {
                let address = Address::from_bytes(bytes);
                let ghost before = self.wallets@;
                self.wallets.push(SigningKey { address });
                proof {
                    assert(self.wallets@.map_values(|k: SigningKey| k@) =~= before.map_values(
                        |k: SigningKey| k@,
                    ).push(old(self).pending_address()));
                }
                true
            },
            None => false,
        }
    }

    fn address(&self) -> (r: Option<Address>)
        ensures
            match r {
                Some(a) => self.key_addresses().len() > 0 && a@ == self.key_addresses()[0],
                None => self.key_addresses().len() == 0,
            },
    {
        if self.wallets.len() > 0 {
            Some(self.wallets[0].address().clone())
        } else {
            None
        }
    }
}

} // verus!
