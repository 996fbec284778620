//! The wallet orchestrator and the session: registration, sign-in, key
//! derivation, persistence, snapshots and transfer resolution.

use wallet_core::account::PhraseError;
use wallet_core::chain::ObserverDirectory;
use wallet_core::chain_metadata::ChainInfo;
use wallet_core::layer1::Layer1;
use wallet_core::portfolio::TransferTarget;
use wallet_core::session::{Session, SessionState, ValidationError};
use wallet_core::storage::MemStorage;
use wallet_core::vault::KeyChain;
use wallet_core::wallet::{rpcs_key, tokens_key, Wallet, WalletError};
use wallet_core::account::AccountIdentifier;
use wallet_core::account::Credentials;
use wallet_core::storage::Storage;

const PHRASE: &str =
    "abandon abandon abandon abandon abandon abandon abandon abandon abandon abandon abandon about";

fn wallet_with_key(name: &str) -> Wallet<KeyChain<MemStorage>, MemStorage> {
    let mut keychain = KeyChain::new(MemStorage::new(), "secret123");
    let identifier = AccountIdentifier { id: name.to_string() };
    keychain.save_seed_phrase(&identifier, PHRASE);
    let mut wallet = Wallet::new(
        "http://localhost:3000".to_string(),
        name,
        keychain,
        MemStorage::new(),
        None,
    );
    wallet.create_wallet().expect("a stored valid phrase must derive a key");
    wallet
}

fn populated(wallet: &mut Wallet<KeyChain<MemStorage>, MemStorage>) {
    wallet.chains_metadata_mut().populate(vec![ChainInfo {
        chain_id: 1,
        symbol: Some("ETH".to_string()),
        decimals: Some(18),
    }]);
}

#[test]
fn derived_address_matches_the_known_test_vector() {
    let wallet = wallet_with_key("dave");
    assert_eq!(
        wallet.address(),
        "0x9858effd232b4033e47d90003d41ec34ecaeda94".to_string()
    );
}

#[test]
fn create_wallet_without_a_phrase_reports_missing() {
    let keychain = KeyChain::new(MemStorage::new(), "secret123");
    let mut wallet = Wallet::new(
        "http://localhost:3000".to_string(),
        "erin",
        keychain,
        MemStorage::new(),
        None,
    );
    assert_eq!(wallet.create_wallet(), Err(PhraseError::Missing));
    assert_eq!(wallet.address(), "".to_string());
}

#[test]
fn create_wallet_with_an_invalid_phrase_reports_invalid() {
    let mut keychain = KeyChain::new(MemStorage::new(), "secret123");
    let identifier = AccountIdentifier { id: "erin".to_string() };
    keychain.save_seed_phrase(&identifier, "definitely not a mnemonic");
    let mut wallet = Wallet::new(
        "http://localhost:3000".to_string(),
        "erin",
        keychain,
        MemStorage::new(),
        None,
    );
    assert_eq!(wallet.create_wallet(), Err(PhraseError::Invalid));
}

#[test]
fn create_wallet_with_a_wrong_password_reports_undecryptable() {
    let mut keychain = KeyChain::new(MemStorage::new(), "rightpassword");
    let identifier = AccountIdentifier { id: "erin".to_string() };
    keychain.save_seed_phrase(&identifier, PHRASE);
    let storage = keychain.into_storage();
    let wrong_keychain = KeyChain::new(storage, "wrongpassword");
    let mut wallet = Wallet::new(
        "http://localhost:3000".to_string(),
        "erin",
        wrong_keychain,
        MemStorage::new(),
        None,
    );
    assert_eq!(wallet.create_wallet(), Err(PhraseError::Undecryptable));
}

#[test]
fn add_chain_requires_a_derived_key() {
    let keychain = KeyChain::new(MemStorage::new(), "secret123");
    let mut wallet = Wallet::new(
        "http://localhost:3000".to_string(),
        "erin",
        keychain,
        MemStorage::new(),
        None,
    );
    populated(&mut wallet);
    let chain = Layer1::new("http://a.example".to_string(), 1, wallet.chains_metadata());
    match wallet.add_chain(chain) {
        Err(WalletError::NotInitialized) => {},
        _ => panic!("adding a chain without a key must be refused"),
    }
}

#[test]
fn add_chain_persists_the_endpoint_and_returns_the_id() {
    let mut wallet = wallet_with_key("dave");
    populated(&mut wallet);
    let chain = Layer1::new("http://a.example".to_string(), 1, wallet.chains_metadata());
    let chain_id = wallet.add_chain(chain).expect("a keyed wallet must accept a chain");
    assert_eq!(chain_id, "1".to_string());
    assert_eq!(wallet.stored_rpcs(), vec!["http://a.example".to_string()]);

    let chain = Layer1::new("http://b.example".to_string(), 5, wallet.chains_metadata());
    wallet.add_chain(chain).expect("a keyed wallet must accept a chain");
    assert_eq!(
        wallet.stored_rpcs(),
        vec!["http://a.example".to_string(), "http://b.example".to_string()]
    );
}

#[test]
fn chains_snapshot_lists_descriptors_in_collection_order() {
    let mut wallet = wallet_with_key("dave");
    populated(&mut wallet);
    let dir = ObserverDirectory::new();
    let chain = Layer1::new("http://a.example".to_string(), 1, wallet.chains_metadata());
    wallet.add_chain(chain).expect("a keyed wallet must accept a chain");
    wallet
        .add_token(
            "1",
            "0x00000000000000000000000000000000000000aa".to_string(),
            "TOK".to_string(),
            Some(6),
            0,
            &dir,
        )
        .expect("the chain exists and the address is well formed");

    let descriptors = wallet.chains();
    assert_eq!(descriptors.len(), 1);
    assert_eq!(descriptors[0].id, "1".to_string());
    assert_eq!(descriptors[0].symbol, "ETH".to_string());
    assert_eq!(descriptors[0].rpc, "http://a.example".to_string());
    assert_eq!(descriptors[0].decimals, 18);
    assert_eq!(descriptors[0].tokens.len(), 1);
    assert_eq!(
        descriptors[0].tokens[0].contract_address,
        "0x00000000000000000000000000000000000000aa".to_string()
    );
    assert_eq!(descriptors[0].tokens[0].symbol, "TOK".to_string());
    assert_eq!(descriptors[0].tokens[0].decimals, 6);

    let tokens = wallet.tokens("1".to_string());
    assert_eq!(tokens.len(), 1);
    assert_eq!(tokens[0].symbol, "TOK".to_string());
    assert_eq!(wallet.tokens("99".to_string()).len(), 0);
}

#[test]
fn add_token_serializes_the_token_list() {
    let mut wallet = wallet_with_key("dave");
    populated(&mut wallet);
    let dir = ObserverDirectory::new();
    let chain = Layer1::new("http://a.example".to_string(), 1, wallet.chains_metadata());
    wallet.add_chain(chain).expect("a keyed wallet must accept a chain");
    wallet
        .add_token(
            "1",
            "0x00000000000000000000000000000000000000aa".to_string(),
            "TOK".to_string(),
            Some(6),
            0,
            &dir,
        )
        .expect("the chain exists and the address is well formed");

    let stored = wallet.stored_tokens_json("1").expect("the token list must be stored");
    assert_eq!(
        stored,
        "[{\"contract_address\":\"0x00000000000000000000000000000000000000aa\",\"symbol\":\"TOK\",\"decimals\":6}]".to_string()
    );
}

#[test]
fn chains_serialize_with_stable_field_names() {
    let mut wallet = wallet_with_key("dave");
    populated(&mut wallet);
    let dir = ObserverDirectory::new();
    let chain = Layer1::new("http://a.example".to_string(), 1, wallet.chains_metadata());
    wallet.add_chain(chain).expect("a keyed wallet must accept a chain");
    wallet
        .add_token(
            "1",
            "0x00000000000000000000000000000000000000aa".to_string(),
            "TOK".to_string(),
            Some(6),
            0,
            &dir,
        )
        .expect("the chain exists and the address is well formed");
    assert_eq!(
        wallet.chains_serialized(),
        "[{\"id\":\"1\",\"symbol\":\"ETH\",\"rpc\":\"http://a.example\",\"decimals\":18,\"tokens\":[{\"contract_address\":\"0x00000000000000000000000000000000000000aa\",\"symbol\":\"TOK\",\"decimals\":6}]}]".to_string()
    );
}

#[test]
fn serializer_escapes_quotes_and_backslashes() {
    let mut wallet = wallet_with_key("dave");
    populated(&mut wallet);
    let dir = ObserverDirectory::new();
    let chain = Layer1::new("http://a.example".to_string(), 1, wallet.chains_metadata());
    wallet.add_chain(chain).expect("a keyed wallet must accept a chain");
    wallet
        .add_token(
            "1",
            "0x00000000000000000000000000000000000000aa".to_string(),
            "a\"b\\c".to_string(),
            Some(6),
            0,
            &dir,
        )
        .expect("the chain exists and the address is well formed");
    let stored = wallet.stored_tokens_json("1").expect("the token list must be stored");
    assert_eq!(
        stored,
        "[{\"contract_address\":\"0x00000000000000000000000000000000000000aa\",\"symbol\":\"a\\\"b\\\\c\",\"decimals\":6}]".to_string()
    );
}

#[test]
fn serialized_descriptors_parse_as_json_with_stable_field_names() {
    let mut wallet = wallet_with_key("dave");
    populated(&mut wallet);
    let dir = ObserverDirectory::new();
    let chain = Layer1::new("http://a.example".to_string(), 1, wallet.chains_metadata());
    wallet.add_chain(chain).expect("a keyed wallet must accept a chain");
    wallet
        .add_token(
            "1",
            "0x00000000000000000000000000000000000000aa".to_string(),
            "a\"b\\c".to_string(),
            Some(6),
            0,
            &dir,
        )
        .expect("the chain exists and the address is well formed");

    // An independent JSON parser reads the core's output back, escapes and
    // all.
    let chains: serde_json::Value =
        serde_json::from_str(&wallet.chains_serialized()).expect("the snapshot must be JSON");
    assert_eq!(chains[0]["id"], serde_json::Value::String("1".to_string()));
    assert_eq!(chains[0]["symbol"], serde_json::Value::String("ETH".to_string()));
    assert_eq!(chains[0]["rpc"], serde_json::Value::String("http://a.example".to_string()));
    assert_eq!(chains[0]["decimals"], serde_json::Value::from(18u32));
    assert_eq!(
        chains[0]["tokens"][0]["contract_address"],
        serde_json::Value::String("0x00000000000000000000000000000000000000aa".to_string())
    );
    assert_eq!(
        chains[0]["tokens"][0]["symbol"],
        serde_json::Value::String("a\"b\\c".to_string())
    );
    assert_eq!(chains[0]["tokens"][0]["decimals"], serde_json::Value::from(6u32));

    let stored = wallet.stored_tokens_json("1").expect("the token list must be stored");
    let tokens: serde_json::Value =
        serde_json::from_str(&stored).expect("the stored list must be JSON");
    assert_eq!(
        tokens[0]["symbol"],
        serde_json::Value::String("a\"b\\c".to_string())
    );
}

#[test]
fn add_token_reports_missing_chain_and_bad_address() {
    let mut wallet = wallet_with_key("dave");
    populated(&mut wallet);
    let dir = ObserverDirectory::new();
    match wallet.add_token("7", "0x00000000000000000000000000000000000000aa".to_string(),
        "TOK".to_string(), None, 0, &dir)
    {
        Err(WalletError::ChainNotFound(id)) => assert_eq!(id, "7".to_string()),
        _ => panic!("an unknown chain id must be refused"),
    }
    let chain = Layer1::new("http://a.example".to_string(), 1, wallet.chains_metadata());
    wallet.add_chain(chain).expect("a keyed wallet must accept a chain");
    match wallet.add_token("1", "garbage".to_string(), "TOK".to_string(), None, 0, &dir) {
        Err(WalletError::Chain(_)) => {},
        _ => panic!("a malformed address must be refused"),
    }
}

#[test]
fn transfer_targets_resolve_chain_then_token_then_nothing() {
    let mut wallet = wallet_with_key("dave");
    populated(&mut wallet);
    let dir = ObserverDirectory::new();
    let chain = Layer1::new("http://a.example".to_string(), 1, wallet.chains_metadata());
    wallet.add_chain(chain).expect("a keyed wallet must accept a chain");
    wallet
        .add_token(
            "1",
            "0x00000000000000000000000000000000000000aa".to_string(),
            "TOK".to_string(),
            None,
            0,
            &dir,
        )
        .expect("the chain exists and the address is well formed");

    assert_eq!(wallet.transfer_target("1"), TransferTarget::Chain(0));
    assert_eq!(
        wallet.transfer_target("0x00000000000000000000000000000000000000aa"),
        TransferTarget::Token(0, 0)
    );
    assert_eq!(wallet.transfer_target("unknown"), TransferTarget::NotFound);
}

#[test]
fn update_balance_reaches_only_the_named_chain() {
    let mut dir = ObserverDirectory::new();
    let observer = dir.register();
    let mut keychain = KeyChain::new(MemStorage::new(), "secret123");
    let identifier = AccountIdentifier { id: "dave".to_string() };
    keychain.save_seed_phrase(&identifier, PHRASE);
    let mut wallet = Wallet::new(
        "http://localhost:3000".to_string(),
        "dave",
        keychain,
        MemStorage::new(),
        Some(observer),
    );
    wallet.create_wallet().expect("a stored valid phrase must derive a key");
    populated(&mut wallet);
    let chain = Layer1::new("http://a.example".to_string(), 1, wallet.chains_metadata());
    wallet.add_chain(chain).expect("a keyed wallet must accept a chain");
    let chain = Layer1::new("http://b.example".to_string(), 5, wallet.chains_metadata());
    wallet.add_chain(chain).expect("a keyed wallet must accept a chain");

    let notes = wallet.update_balance("5", 123, &dir);
    assert_eq!(notes.len(), 1);
    assert_eq!(notes[0].asset.identifier, "5".to_string());
    assert_eq!(notes[0].amount, 123);
}

#[test]
fn duplicate_endpoints_are_detected() {
    let mut wallet = wallet_with_key("dave");
    populated(&mut wallet);
    assert!(!wallet.has_stored_rpc("http://a.example"));
    let chain = Layer1::new("http://a.example".to_string(), 1, wallet.chains_metadata());
    wallet.add_chain(chain).expect("a keyed wallet must accept a chain");
    assert!(wallet.has_stored_rpc("http://a.example"));
    assert!(!wallet.has_stored_rpc("http://b.example"));
}

#[test]
fn update_token_balances_refreshes_the_named_chain_tokens() {
    let mut dir = ObserverDirectory::new();
    let observer = dir.register();
    let mut keychain = KeyChain::new(MemStorage::new(), "secret123");
    let identifier = AccountIdentifier { id: "dave".to_string() };
    keychain.save_seed_phrase(&identifier, PHRASE);
    let mut wallet = Wallet::new(
        "http://localhost:3000".to_string(),
        "dave",
        keychain,
        MemStorage::new(),
        Some(observer),
    );
    wallet.create_wallet().expect("a stored valid phrase must derive a key");
    populated(&mut wallet);
    let chain = Layer1::new("http://a.example".to_string(), 1, wallet.chains_metadata());
    wallet.add_chain(chain).expect("a keyed wallet must accept a chain");
    wallet
        .add_token(
            "1",
            "0x00000000000000000000000000000000000000aa".to_string(),
            "TOK".to_string(),
            Some(6),
            0,
            &dir,
        )
        .expect("the chain exists and the address is well formed");

    let amounts = vec![987u128];
    let notes = wallet
        .update_token_balances("1", &amounts, &dir)
        .expect("the chain exists");
    assert_eq!(notes.len(), 1);
    assert_eq!(notes[0].observer, observer);
    assert_eq!(notes[0].amount, 987);
    assert_eq!(
        notes[0].asset.identifier,
        "0x00000000000000000000000000000000000000aa".to_string()
    );

    let empty: Vec<u128> = vec![];
    assert!(wallet.update_token_balances("99", &empty, &dir).is_none());
}

#[test]
fn serializer_escapes_control_characters() {
    let mut wallet = wallet_with_key("dave");
    populated(&mut wallet);
    let dir = ObserverDirectory::new();
    let chain = Layer1::new("http://a.example".to_string(), 1, wallet.chains_metadata());
    wallet.add_chain(chain).expect("a keyed wallet must accept a chain");
    wallet
        .add_token(
            "1",
            "0x00000000000000000000000000000000000000aa".to_string(),
            "line1\nline2\u{1f}".to_string(),
            Some(6),
            0,
            &dir,
        )
        .expect("the chain exists and the address is well formed");
    let stored = wallet.stored_tokens_json("1").expect("the token list must be stored");
    assert_eq!(
        stored,
        "[{\"contract_address\":\"0x00000000000000000000000000000000000000aa\",\"symbol\":\"line1\\u000aline2\\u001f\",\"decimals\":6}]".to_string()
    );
    let parsed: serde_json::Value =
        serde_json::from_str(&stored).expect("the stored list must be JSON");
    assert_eq!(
        parsed[0]["symbol"],
        serde_json::Value::String("line1\nline2\u{1f}".to_string())
    );
}

#[test]
fn key_builders_append_the_fixed_postfixes() {
    let identifier = AccountIdentifier { id: "alice".to_string() };
    assert_eq!(rpcs_key(&identifier), "alice_$RPCS".to_string());
    assert_eq!(tokens_key(&identifier, "1"), "alice_1_$TOKENS".to_string());
}

#[test]
fn session_restores_state_from_storage() {
    let session = Session::new(MemStorage::new());
    assert_eq!(session.state(), SessionState::New);
    assert_eq!(session.account_name(), "".to_string());

    let mut storage = MemStorage::new();
    storage.set("KEY_CURRENTLY_ACTIVE_ACCOUNT_NAME", "alice");
    let session = Session::new(storage);
    assert_eq!(session.state(), SessionState::Unauthenticated);
    assert_eq!(session.account_name(), "alice".to_string());
}

#[test]
fn create_user_validates_in_order() {
    let mut session = Session::new(MemStorage::new());
    match session.create_user("al", "longpassword", PHRASE) {
        Err(ValidationError::InvalidUserName(_)) => {},
        _ => panic!("a two-character username must be refused"),
    }
    match session.create_user("alice$", "longpassword", PHRASE) {
        Err(ValidationError::InvalidUserName(_)) => {},
        _ => panic!("a username with '$' must be refused"),
    }
    match session.create_user("alice", "pw", PHRASE) {
        Err(ValidationError::InvalidPassword(_)) => {},
        _ => panic!("a two-character password must be refused"),
    }
    match session.create_user("alice", "longpassword", "not a mnemonic") {
        Err(ValidationError::InvalidMnemonic) => {},
        _ => panic!("a malformed mnemonic must be refused"),
    }
    assert!(session.create_user("alice", "longpassword", PHRASE).is_ok());
    assert_eq!(session.state(), SessionState::Authenticated);
    assert_eq!(session.account_name(), "alice".to_string());
}

#[test]
fn create_user_refuses_an_existing_account() {
    let mut session = Session::new(MemStorage::new());
    assert!(session.create_user("alice", "longpassword", PHRASE).is_ok());
    session.sign_out();
    let mut session = Session::new(session_storage(session));
    // The session is new again (the active-account key was deleted), but the
    // account list still knows alice.
    assert_eq!(session.state(), SessionState::New);
    match session.create_user("alice", "otherpassword", PHRASE) {
        Err(ValidationError::UserExists) => {},
        _ => panic!("a registered name must be refused"),
    }
}

// The session owns its storage; tests that restart a session rebuild it over
// a fresh in-memory store seeded the same way, so this helper rebuilds one
// from the available-accounts record the first session wrote.
fn session_storage(session: Session<MemStorage>) -> MemStorage {
    let mut storage = MemStorage::new();
    let accounts = session.available_accounts();
    if accounts.len() > 0 {
        storage.set("$KEY_AVAILABLE_ACCOUNT_NAMES", accounts.as_str());
    }
    storage
}

#[test]
fn sign_in_accepts_the_registered_password_and_rejects_others() {
    let mut session = Session::new(MemStorage::new());
    assert!(session.create_user("alice", "secret123", PHRASE).is_ok());

    // Observe the storage contents through a fresh session over a copy: the
    // library session owns its storage, so drive sign-in via prepare_sign_in.
    session.sign_out();
    assert_eq!(session.state(), SessionState::New);
    session.prepare_sign_in("alice");
    assert_eq!(session.state(), SessionState::Unauthenticated);
    assert!(!session.sign_in("alice", "wrong"));
    assert_eq!(session.state(), SessionState::Unauthenticated);
    assert!(session.sign_in("alice", "secret123"));
    assert_eq!(session.state(), SessionState::Authenticated);
}

#[test]
fn clear_empties_the_storage_and_resets_the_state() {
    let mut session = Session::new(MemStorage::new());
    assert!(session.create_user("alice", "secret123", PHRASE).is_ok());
    session.clear();
    assert_eq!(session.state(), SessionState::New);
    assert_eq!(session.available_accounts(), "".to_string());
}

#[test]
fn random_mnemonics_validate() {
    let session = Session::new(MemStorage::new());
    let phrase = session.random_mnemonic();
    assert!(wallet_core::mnemonic::validate(phrase.as_str()));
    let other = session.random_mnemonic();
    assert!(wallet_core::mnemonic::validate(other.as_str()));
}

#[test]
fn mnemonic_validation_matches_bip39() {
    assert!(wallet_core::mnemonic::validate(PHRASE));
    assert!(!wallet_core::mnemonic::validate(""));
    assert!(!wallet_core::mnemonic::validate("abandon"));
    // A known-word phrase with a broken checksum.
    assert!(!wallet_core::mnemonic::validate(
        "abandon abandon abandon abandon abandon abandon abandon abandon abandon abandon abandon abandon"
    ));
}
