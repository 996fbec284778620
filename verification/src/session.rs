//! The session: account-name bookkeeping, sign-in state, user registration
//! and its validation rules.

use crate::mnemonic::phrase_valid;
use crate::storage::{str_eq, Storage};
use crate::text::{decode_list, decode_list_spec, encode_list, join_semi};
use crate::vault::{check_password_spec, vault_read, vault_store, KeyChain, VaultError};
use crate::wallet::seed_phrase_key_of;
use vstd::prelude::*;

verus! {

/// Where the session stands.
#[derive(Clone, Copy, Debug, PartialEq, Eq, Structural)]
pub enum SessionState {
    /// No account selected.
    New,
    /// An account is selected but not signed in.
    Unauthenticated,
    /// Signed in.
    Authenticated,
}

/// Why a registration was refused.
#[derive(Clone, Debug)]
pub enum ValidationError {
    /// The password is too short.
    InvalidPassword(String),
    /// The username is too short or holds a forbidden character.
    InvalidUserName(String),
    /// An account of that name already exists.
    UserExists,
    /// The secret phrase is not a well-formed mnemonic.
    InvalidMnemonic,
}

impl ValidationError {
    /// A user-facing description of the error.
    pub fn message(&self) -> (r: String)
        ensures
            self is InvalidPassword ==> r@ == "Invalid password"@,
            self is InvalidUserName ==> r@ == "Invalid username"@,
            self is UserExists ==> r@ == "User exists!"@,
            self is InvalidMnemonic ==> r@ == "Invalid mnemonic!"@,
    {
        match self {
            ValidationError::InvalidPassword(_) => "Invalid password".to_owned(),
            ValidationError::InvalidUserName(_) => "Invalid username".to_owned(),
            ValidationError::UserExists => "User exists!".to_owned(),
            ValidationError::InvalidMnemonic => "Invalid mnemonic!".to_owned(),
        }
    }
}

/// The storage key naming the account last prepared for sign-in.
pub open spec fn active_account_key() -> Seq<char> {
    "KEY_CURRENTLY_ACTIVE_ACCOUNT_NAME"@
}

/// The storage key holding the known account names.
pub open spec fn available_accounts_key() -> Seq<char> {
    "$KEY_AVAILABLE_ACCOUNT_NAMES"@
}

/// The known account names, decoded from storage.
pub open spec fn available_accounts_spec(m: Map<Seq<char>, Seq<char>>) -> Seq<Seq<char>> {
    if m.contains_key(available_accounts_key()) {
        decode_list_spec(m[available_accounts_key()])
    } else {
        Seq::empty()
    }
}

/// Whether a username passes registration: more than two characters, no `'$'`.
pub open spec fn valid_user_name(name: Seq<char>) -> bool {
    name.len() > 2 && !name.contains('$')
}

/// Whether two strings hold a member relation against a stored list.
pub(crate) fn list_contains(items: &Vec<String>, x: &str) -> (r: bool)
    ensures
        r == items.deep_view().contains(x@),
{
    let mut i: usize = 0;
    while i < items.len()
        invariant
            i <= items@.len(),
            forall|j: int| 0 <= j < i ==> items.deep_view()[j] != x@,
        decreases items@.len() - i,
    {
        let item: &String = &items[i];
        if str_eq(item.as_str(), x) {
            proof {
                assert(items.deep_view()[i as int] == x@);
            }
            return true;
        }
        proof {
            assert(items.deep_view()[i as int] == items@[i as int]@);
        }
        i = i + 1;
    }
    proof {
        assert(!items.deep_view().contains(x@));
    }
    false
}

/// Whether `s` holds the character `c`.
fn str_contains_char(s: &str, c: char) -> (r: bool)
    ensures
        r == s@.contains(c),
{
    let cs = crate::text::str_to_chars(s);
    let mut i: usize = 0;
    while i < cs.len()
        invariant
            i <= cs@.len(),
            cs@ == s@,
            forall|j: int| 0 <= j < i ==> cs@[j] != c,
        decreases cs@.len() - i,
    {
        if cs[i] == c {
            return true;
        }
        i = i + 1;
    }
    proof {
        assert(!s@.contains(c));
    }
    false
}

/// One user's session over a storage backend.
pub struct Session<S> where S: Storage {
    account_name: String,
    state: SessionState,
    storage: S,
}

impl<S> Session<S> where S: Storage {
    /// Where the session stands.
    pub closed spec fn spec_state(&self) -> SessionState {
        self.state
    }

    /// The selected account's name; empty when none is selected.
    pub closed spec fn spec_account_name(&self) -> Seq<char> {
        self.account_name@
    }

    /// The storage backend.
    pub closed spec fn spec_storage(&self) -> S {
        self.storage
    }

    /// The stored key-value map.
    pub open spec fn spec_contents(&self) -> Map<Seq<char>, Seq<char>> {
        self.spec_storage().contents()
    }

    /// A session restored from storage: when an active account is recorded
    /// the session awaits that account's sign-in, otherwise it is new.
    pub fn new(storage: S) -> (r: Self)
        ensures
            r.spec_contents() == storage.contents(),
            match storage.contents().contains_key(active_account_key()) {
                true => r.spec_state() is Unauthenticated && r.spec_account_name()
                    == storage.contents()[active_account_key()],
                false => r.spec_state() is New && r.spec_account_name() == Seq::<char>::empty(),
            },
    {
        match storage.get("KEY_CURRENTLY_ACTIVE_ACCOUNT_NAME") {
            Some(account_name) => Session {
                account_name,
                state: SessionState::Unauthenticated,
                storage,
            },
            None => Session { account_name: String::new(), state: SessionState::New, storage },
        }
    }

    pub fn state(&self) -> (r: SessionState)
        ensures
            r == self.spec_state(),
    {
        self.state
    }

    pub fn account_name(&self) -> (r: String)
        ensures
            r@ == self.spec_account_name(),
    {
        self.account_name.clone()
    }

    /// Removes every stored key-value pair and returns to the new state.
    pub fn clear(&mut self)
        ensures
            final(self).spec_contents() == Map::<Seq<char>, Seq<char>>::empty(),
            final(self).spec_state() is New,
            final(self).spec_account_name() == old(self).spec_account_name(),
    {
        self.storage.clear();
        self.state = SessionState::New;
    }

    /// The stored list of known account names, still encoded; empty text
    /// when none is stored.
    pub fn available_accounts(&self) -> (r: String)
        ensures
            self.spec_contents().contains_key(available_accounts_key()) ==> r@
                == self.spec_contents()[available_accounts_key()],
            !self.spec_contents().contains_key(available_accounts_key()) ==> r@ == Seq::<
                char,
            >::empty(),
    {
        match self.storage.get("$KEY_AVAILABLE_ACCOUNT_NAMES") {
            Some(s) => s,
            None => String::new(),
        }
    }

    /// Selects the account to sign in as.
    pub fn prepare_sign_in(&mut self, account_name: &str)
        ensures
            final(self).spec_contents() == old(self).spec_contents().insert(
                active_account_key(),
                account_name@,
            ),
            final(self).spec_state() is Unauthenticated,
            final(self).spec_account_name() == account_name@,
    {
        self.storage.set("KEY_CURRENTLY_ACTIVE_ACCOUNT_NAME", account_name);
        self.account_name = account_name.to_owned();
        self.state = SessionState::Unauthenticated;
    }

    /// Signs out: forgets the active account; the persisted ciphertext
    /// remains.
    pub fn sign_out(&mut self)
        ensures
            final(self).spec_contents() == old(self).spec_contents().remove(active_account_key()),
            final(self).spec_state() is New,
            final(self).spec_account_name() == Seq::<char>::empty(),
    {
        self.storage.delete("KEY_CURRENTLY_ACTIVE_ACCOUNT_NAME");
        self.state = SessionState::New;
        self.account_name = String::new();
    }

    /// The registration rules, applied in order: username length, forbidden
    /// characters, existing accounts, password length, mnemonic syntax.
    pub fn validate(&self, account_name: &str, password: &str, mnemonic: &str) -> (r: Result<
        (),
        ValidationError,
    >)
        ensures
            ({
                let known = available_accounts_spec(self.spec_contents());
                match r {
                    Err(ValidationError::InvalidUserName(_)) => !valid_user_name(account_name@),
                    Err(ValidationError::UserExists) => valid_user_name(account_name@)
                        && known.contains(account_name@),
                    Err(ValidationError::InvalidPassword(_)) => valid_user_name(account_name@)
                        && !known.contains(account_name@) && password@.len() <= 2,
                    Err(ValidationError::InvalidMnemonic) => valid_user_name(account_name@)
                        && !known.contains(account_name@) && password@.len() > 2 && !phrase_valid(
                        mnemonic@,
                    ),
                    Ok(()) => valid_user_name(account_name@) && !known.contains(account_name@)
                        && password@.len() > 2 && phrase_valid(mnemonic@),
                }
            }),
    {
        if account_name.unicode_len() <= 2 {
            return Err(ValidationError::InvalidUserName("Username too short".to_owned()));
        }
        if str_contains_char(account_name, '$') {
            return Err(
                ValidationError::InvalidUserName(
                    "Username must not contain the character '$'".to_owned(),
                ),
            );
        }
        let known = match self.storage.get("$KEY_AVAILABLE_ACCOUNT_NAMES") {
            Some(s) => decode_list(s.as_str()),
            None => {
                let empty: Vec<String> = Vec::new();
                proof {
                    assert(empty.deep_view() =~= Seq::<Seq<char>>::empty());
                }
                empty
            },
        };
        if list_contains(&known, account_name) {
            return Err(ValidationError::UserExists);
        }
        if password.unicode_len() <= 2 {
            return Err(ValidationError::InvalidPassword("Too short".to_owned()));
        }
        if !crate::mnemonic::validate(mnemonic) {
            return Err(ValidationError::InvalidMnemonic);
        }
        Ok(())
    }

    /// Records `account_name` as active, and adds it to the known accounts
    /// if it is not yet among them.
    pub fn store_account_name(&mut self, account_name: &str)
        ensures
            ({
                let mid = old(self).spec_contents().insert(active_account_key(), account_name@);
                let known = available_accounts_spec(mid);
                let listed = if known.contains(account_name@) {
                    known
                } else {
                    known.push(account_name@)
                };
                final(self).spec_contents() == mid.insert(
                    available_accounts_key(),
                    join_semi(listed),
                )
            }),
            final(self).spec_state() == old(self).spec_state(),
            final(self).spec_account_name() == account_name@,
    {
        self.storage.set("KEY_CURRENTLY_ACTIVE_ACCOUNT_NAME", account_name);
        let mut known = match self.storage.get("$KEY_AVAILABLE_ACCOUNT_NAMES") {
            Some(s) => decode_list(s.as_str()),
            None => {
                let empty: Vec<String> = Vec::new();
                proof {
                    assert(empty.deep_view() =~= Seq::<Seq<char>>::empty());
                }
                empty
            },
        };
        if !list_contains(&known, account_name) {
            let ghost prev = known.deep_view();
            known.push(account_name.to_owned());
            proof {
                assert(known.deep_view() =~= prev.push(account_name@));
            }
        }
        let joined = encode_list(&known);
        self.storage.set("$KEY_AVAILABLE_ACCOUNT_NAMES", joined.as_str());
        self.account_name = account_name.to_owned();
    }

    /// Verifies the password against the stored self-referential record;
    /// on success records the account and authenticates the session.
    pub fn sign_in(&mut self, account_name: &str, password: &str) -> (r: bool)
        requires
            old(self).spec_state() is Unauthenticated,
        ensures
            r == check_password_spec(old(self).spec_contents(), account_name@, password@),
            !r ==> *final(self) == *old(self),
            r ==> final(self).spec_state() is Authenticated && final(self).spec_account_name()
                == account_name@ && ({
                let mid = old(self).spec_contents().insert(active_account_key(), account_name@);
                let known = available_accounts_spec(mid);
                let listed = if known.contains(account_name@) {
                    known
                } else {
                    known.push(account_name@)
                };
                final(self).spec_contents() == mid.insert(
                    available_accounts_key(),
                    join_semi(listed),
                )
            }),
    {
        if KeyChain::<S>::check_password(&self.storage, account_name, password) {
            self.store_account_name(account_name);
            self.state = SessionState::Authenticated;
            true
        } else {
            false
        }
    }

    /// Registers a new user: validates, writes the self-referential password
    /// record and the encrypted secret phrase, records the account and
    /// authenticates the session. Afterwards the password verifies and the
    /// phrase reads back exactly.
    pub fn create_user(&mut self, account_name: &str, password: &str, mnemonic: &str) -> (r:
        Result<(), ValidationError>)
        requires
            old(self).spec_state() is New,
        ensures
            r matches Err(e) ==> *final(self) == *old(self) && (match e {
                ValidationError::InvalidUserName(_) => !valid_user_name(account_name@),
                ValidationError::UserExists => valid_user_name(account_name@)
                    && available_accounts_spec(old(self).spec_contents()).contains(account_name@),
                ValidationError::InvalidPassword(_) => valid_user_name(account_name@)
                    && !available_accounts_spec(old(self).spec_contents()).contains(account_name@)
                    && password@.len() <= 2,
                ValidationError::InvalidMnemonic => valid_user_name(account_name@)
                    && !available_accounts_spec(old(self).spec_contents()).contains(account_name@)
                    && password@.len() > 2 && !phrase_valid(mnemonic@),
            }),
            r is Ok ==> valid_user_name(account_name@) && password@.len() > 2 && phrase_valid(
                mnemonic@,
            ) && final(self).spec_state() is Authenticated && final(self).spec_account_name()
                == account_name@ && check_password_spec(
                final(self).spec_contents(),
                account_name@,
                password@,
            ) && vault_read(
                final(self).spec_contents(),
                password@,
                seed_phrase_key_of(account_name@),
            ) == Ok::<_, VaultError>(Some(mnemonic@)),
    {
        if let Err(e) = self.validate(account_name, password, mnemonic) {
            return Err(e);
        }
        self.store_account_name(account_name);
        vault_store(&mut self.storage, password, account_name, password);
        let key = crate::wallet::seed_phrase_key(account_name);
        vault_store(&mut self.storage, password, key.as_str(), mnemonic);
        self.state = SessionState::Authenticated;
        proof {
            lemma_seed_key_is_longer(account_name@);
        }
        Ok(())
    }

    /// The storage backend, for a host that mirrors it into an external
    /// store or hands it to the wallet's vault.
    pub fn storage(&self) -> (r: &S)
        ensures
            *r == self.spec_storage(),
    {
        &self.storage
    }

    /// A fresh random mnemonic for registration.
    pub fn random_mnemonic(&self) -> (r: String)
        ensures
            phrase_valid(r@),
    {
        crate::mnemonic::random_mnemonic()
    }
}

/// The seed-phrase key of a name is longer than the name, so the password
/// record and the phrase record never share a storage slot.
pub proof fn lemma_seed_key_is_longer(name: Seq<char>)
    ensures
        seed_phrase_key_of(name) != name,
{
    reveal_strlit("_$SEED_PHRASE");
    assert(seed_phrase_key_of(name).len() == name.len() + 13);
}

} // verus!
