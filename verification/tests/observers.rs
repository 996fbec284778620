//! The observer graph: notification fan-out, subscriptions that reach tokens
//! added later, and lazy cleanup of dead observers.

use wallet_core::chain::{confirm_receipt, ChainError, ObserverDirectory, TokenData, TokenInteractor};
use wallet_core::chain_metadata::{ChainInfo, ChainsMetadata};
use wallet_core::layer1::Layer1;

fn metadata_with(chain_id: u64, symbol: &str, decimals: u32) -> ChainsMetadata {
    let mut m = ChainsMetadata::new("unused".to_string());
    m.populate(vec![ChainInfo {
        chain_id,
        symbol: Some(symbol.to_string()),
        decimals: Some(decimals),
    }]);
    m
}

#[test]
fn chain_update_notifies_the_single_observer_with_42() {
    let mut dir = ObserverDirectory::new();
    let observer = dir.register();
    let metadata = metadata_with(5, "ETH", 18);
    let mut chain = Layer1::new("http://localhost:8545".to_string(), 5, &metadata);
    chain.subscribe(observer);

    let notes = chain.update_balance(42, &dir);
    assert_eq!(notes.len(), 1);
    assert_eq!(notes[0].observer, observer);
    assert_eq!(notes[0].amount, 42);
    assert_eq!(notes[0].asset.identifier, "5".to_string());
    assert_eq!(notes[0].asset.symbol, "ETH".to_string());
    assert_eq!(notes[0].asset.decimals, 18);
}

#[test]
fn dead_observer_is_skipped_and_update_succeeds() {
    let mut dir = ObserverDirectory::new();
    let observer = dir.register();
    let metadata = metadata_with(1, "ETH", 18);
    let mut chain = Layer1::new("http://localhost:8545".to_string(), 1, &metadata);
    chain.subscribe(observer);

    // The observer goes away before the next update.
    dir.drop_observer(observer);
    let notes = chain.update_balance(7, &dir);
    assert_eq!(notes.len(), 0);

    // A live observer subscribed afterwards is the only one served.
    let second = dir.register();
    chain.subscribe(second);
    let notes = chain.update_balance(9, &dir);
    assert_eq!(notes.len(), 1);
    assert_eq!(notes[0].observer, second);
    assert_eq!(notes[0].amount, 9);
}

#[test]
fn subscription_reaches_a_token_added_afterwards() {
    let mut dir = ObserverDirectory::new();
    let observer = dir.register();
    let metadata = metadata_with(1, "ETH", 18);
    let mut chain = Layer1::new("http://localhost:8545".to_string(), 1, &metadata);
    chain.subscribe(observer);

    let (decimals, notes) = chain
        .add_token(
            "0x00000000000000000000000000000000000000aa".to_string(),
            "TOK".to_string(),
            Some(6),
            1_000_000,
            &dir,
        )
        .expect("a well-formed address must be accepted");
    assert_eq!(decimals, 6);
    assert_eq!(notes.len(), 1);
    assert_eq!(notes[0].observer, observer);
    assert_eq!(notes[0].amount, 1_000_000);
    assert_eq!(
        notes[0].asset.identifier,
        "0x00000000000000000000000000000000000000aa".to_string()
    );
    assert_eq!(notes[0].asset.symbol, "TOK".to_string());
    assert_eq!(notes[0].asset.decimals, 6);
}

#[test]
fn token_decimals_default_to_the_chain_precision() {
    let dir = ObserverDirectory::new();
    let metadata = metadata_with(1, "ETH", 12);
    let mut chain = Layer1::new("http://localhost:8545".to_string(), 1, &metadata);
    let (decimals, notes) = chain
        .add_token(
            "0x00000000000000000000000000000000000000bb".to_string(),
            "TOK".to_string(),
            None,
            0,
            &dir,
        )
        .expect("a well-formed address must be accepted");
    assert_eq!(decimals, 12);
    assert_eq!(notes.len(), 0);
}

#[test]
fn add_token_rejects_text_that_is_no_address() {
    let dir = ObserverDirectory::new();
    let metadata = metadata_with(1, "ETH", 18);
    let mut chain = Layer1::new("http://localhost:8545".to_string(), 1, &metadata);
    let out = chain.add_token("not an address".to_string(), "TOK".to_string(), None, 0, &dir);
    assert!(out.is_err());
    let out = chain.add_token(
        // Too short by one digit.
        "0x0000000000000000000000000000000000000aa".to_string(),
        "TOK".to_string(),
        None,
        0,
        &dir,
    );
    assert!(out.is_err());
}

#[test]
fn unsubscribe_removes_the_subscription() {
    let mut dir = ObserverDirectory::new();
    let observer = dir.register();
    let metadata = metadata_with(1, "ETH", 18);
    let mut chain = Layer1::new("http://localhost:8545".to_string(), 1, &metadata);
    chain.subscribe(observer);
    chain.unsubscribe(observer);
    let notes = chain.update_balance(5, &dir);
    assert_eq!(notes.len(), 0);
}

#[test]
fn fallbacks_apply_when_metadata_is_unknown() {
    let metadata = ChainsMetadata::new("unused".to_string());
    let dir = ObserverDirectory::new();
    let mut chain = Layer1::new("http://localhost:8545".to_string(), 99, &metadata);
    let (decimals, _) = chain
        .add_token(
            "0x00000000000000000000000000000000000000cc".to_string(),
            "TOK".to_string(),
            None,
            0,
            &dir,
        )
        .expect("a well-formed address must be accepted");
    assert_eq!(decimals, 18);
    assert_eq!(chain.symbol(), "<unknown>".to_string());
    assert_eq!(chain.decimals(), 18);
}

#[test]
fn a_missing_receipt_is_the_no_receipt_error() {
    assert!(confirm_receipt(true).is_ok());
    match confirm_receipt(false) {
        Err(ChainError::NoReceipt) => {},
        _ => panic!("a missing receipt must be reported"),
    }
}
