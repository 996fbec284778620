//! The credential vault: storage where every value is encrypted at rest with
//! a cipher derived once from a password.

use crate::cipher::{cipher_of, decipher_of, decrypt_b64, encrypt_b64};
use crate::storage::{str_eq, Storage};
use vstd::prelude::*;

verus! {

/// A fatal vault failure: an entry exists but cannot be decrypted with the
/// vault's password (wrong password or corrupted ciphertext).
#[derive(Clone, Copy, Debug, PartialEq, Eq, Structural)]
pub enum VaultError {
    Undecryptable,
}

/// What reading `key` through a vault keyed by `pw` over the stored map `m`
/// yields: the decrypted value, nothing when no entry exists, or a fatal
/// error when the entry does not decrypt.
pub open spec fn vault_read(
    m: Map<Seq<char>, Seq<char>>,
    pw: Seq<char>,
    key: Seq<char>,
) -> Result<Option<Seq<char>>, VaultError> {
    if !m.contains_key(key) {
        Ok(None)
    } else {
        match decipher_of(pw, m[key]) {
            Some(p) => Ok(Some(p)),
            None => Err(VaultError::Undecryptable),
        }
    }
}

/// Whether the stored record under `name` is the password itself, encrypted
/// with itself: how sign-in verifies a password without a password hash.
pub open spec fn check_password_spec(
    m: Map<Seq<char>, Seq<char>>,
    name: Seq<char>,
    pw: Seq<char>,
) -> bool {
    m.contains_key(name) && decipher_of(pw, m[name]) == Some(pw)
}

/// A `Storage`-backed vault whose values are ciphertext at rest.
pub struct KeyChain<T> where T: Storage {
    storage: T,
    password: String,
}

impl<T> KeyChain<T> where T: Storage {
    /// The stored key-value map, values encrypted.
    pub closed spec fn contents(&self) -> Map<Seq<char>, Seq<char>> {
        self.storage.contents()
    }

    /// The password the cipher was derived from.
    pub closed spec fn password(&self) -> Seq<char> {
        self.password@
    }

    /// A vault over `storage`, its cipher derived from `password`.
    pub fn new(storage: T, password: &str) -> (r: Self)
        ensures
            r.contents() == storage.contents(),
            r.password() == password@,
    {
        KeyChain { storage, password: password.to_owned() }
    }

    /// Discards the in-memory cipher; the persisted ciphertext remains.
    pub fn into_storage(self) -> (r: T)
        ensures
            r.contents() == self.contents(),
    {
        self.storage
    }

    /// Decrypts and returns the entry under `key`, or nothing if no entry
    /// exists. Every present entry under `key` must decrypt; `get_decrypted`
    /// is the checked variant.
    pub fn get(&self, key: &str) -> (r: Option<String>)
        requires
            vault_read(self.contents(), self.password(), key@) is Ok,
        ensures
            match r {
                Some(v) => vault_read(self.contents(), self.password(), key@) == Ok::<
                    _,
                    VaultError,
                >(Some(v@)),
                None => vault_read(self.contents(), self.password(), key@) == Ok::<
                    Option<Seq<char>>,
                    VaultError,
                >(None),
            },
    {
        match self.storage.get(key) {
            None => None,
            Some(ct) => decrypt_b64(self.password.as_str(), ct.as_str()),
        }
    }

    /// Decrypts and returns the entry under `key`; nothing when no entry
    /// exists; an error when an entry exists but does not decrypt.
    pub fn get_decrypted(&self, key: &str) -> (r: Result<Option<String>, VaultError>)
        ensures
            match r {
                Ok(Some(v)) => vault_read(self.contents(), self.password(), key@) == Ok::<
                    _,
                    VaultError,
                >(Some(v@)),
                Ok(None) => vault_read(self.contents(), self.password(), key@) == Ok::<
                    Option<Seq<char>>,
                    VaultError,
                >(None),
                Err(e) => vault_read(self.contents(), self.password(), key@) == Err::<
                    Option<Seq<char>>,
                    VaultError,
                >(e),
            },
    {
        match self.storage.get(key) {
            None => Ok(None),
            Some(ct) => {
                match decrypt_b64(self.password.as_str(), ct.as_str()) {
                    None => Err(VaultError::Undecryptable),
                    Some(_) => Ok(self.get(key)),
                }
            },
        }
    }

    /// Encrypts `value` and writes it through the underlying storage,
    /// overwriting any prior entry. Afterwards, reading `key` back through
    /// the vault returns `value` exactly: the encryption round-trips.
    pub fn set(&mut self, key: &str, value: &str)
        ensures
            final(self).password() == old(self).password(),
            final(self).contents() == old(self).contents().insert(
                key@,
                cipher_of(old(self).password(), value@),
            ),
            vault_read(final(self).contents(), final(self).password(), key@) == Ok::<
                _,
                VaultError,
            >(Some(value@)),
    {
        let ct = encrypt_b64(self.password.as_str(), value);
        self.storage.set(key, ct.as_str());
    }

    /// Removes the entry under `key`; no decryption involved.
    pub fn delete(&mut self, key: &str)
        ensures
            final(self).password() == old(self).password(),
            final(self).contents() == old(self).contents().remove(key@),
    {
        self.storage.delete(key);
    }

    /// Removes all entries; no decryption involved.
    pub fn clear(&mut self)
        ensures
            final(self).password() == old(self).password(),
            final(self).contents() == Map::<Seq<char>, Seq<char>>::empty(),
    {
        self.storage.clear();
    }

    /// Whether the record stored under `account_name` decrypts, under a
    /// cipher freshly derived from `password`, to `password` itself.
    pub fn check_password(storage: &T, account_name: &str, password: &str) -> (r: bool)
        ensures
            r == check_password_spec(storage.contents(), account_name@, password@),
    {
        match storage.get(account_name) {
            None => false,
            Some(encrypted_password) => {
                match decrypt_b64(password, encrypted_password.as_str()) {
                    None => false,
                    Some(decrypted) => str_eq(decrypted.as_str(), password),
                }
            },
        }
    }

    /// Writes the self-referential password record for `account_name`:
    /// afterwards `check_password` succeeds with this vault's password.
    pub fn register_password_record(&mut self, account_name: &str, password: &str)
        requires
            password@ == old(self).password(),
        ensures
            final(self).password() == old(self).password(),
            final(self).contents() == old(self).contents().insert(
                account_name@,
                cipher_of(old(self).password(), password@),
            ),
            check_password_spec(final(self).contents(), account_name@, password@),
    {
        self.set(account_name, password);
    }
}

/// Encrypts `value` with a cipher derived from `password` and writes it
/// through `storage` under `key`, overwriting any prior entry. Afterwards,
/// reading `key` back through a vault keyed by `password` returns `value`
/// exactly.
pub fn vault_store<T: Storage>(storage: &mut T, password: &str, key: &str, value: &str)
    ensures
        final(storage).contents() == old(storage).contents().insert(
            key@,
            cipher_of(password@, value@),
        ),
        vault_read(final(storage).contents(), password@, key@) == Ok::<_, VaultError>(
            Some(value@),
        ),
{
    let ct = encrypt_b64(password, value);
    storage.set(key, ct.as_str());
}

} // verus!
