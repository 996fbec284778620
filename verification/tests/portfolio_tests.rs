//! The portfolio: insertion order, default-observer subscription, and the
//! ordered full refresh.

use wallet_core::account::SigningAccount;
use wallet_core::account::{Account, AccountIdentifier};
use wallet_core::chain::ObserverDirectory;
use wallet_core::chain_metadata::{ChainInfo, ChainsMetadata};
use wallet_core::layer1::Layer1;
use wallet_core::portfolio::Portfolio;
use wallet_core::storage::MemStorage;
use wallet_core::vault::KeyChain;

fn test_account(name: &str) -> SigningAccount<KeyChain<MemStorage>> {
    let vault = KeyChain::new(MemStorage::new(), "pw123");
    let identifier = AccountIdentifier { id: name.to_string() };
    SigningAccount::new(&identifier, vault)
}

fn metadata() -> ChainsMetadata {
    let mut m = ChainsMetadata::new("unused".to_string());
    m.populate(vec![
        ChainInfo { chain_id: 1, symbol: Some("ETH".to_string()), decimals: Some(18) },
        ChainInfo { chain_id: 5, symbol: Some("GOR".to_string()), decimals: Some(18) },
    ]);
    m
}

#[test]
fn add_chain_inserts_at_front() {
    let metadata = metadata();
    let chain_a = Layer1::new("http://a.example".to_string(), 1, &metadata);
    let chain_b = Layer1::new("http://b.example".to_string(), 5, &metadata);
    let mut portfolio = Portfolio::new(test_account("carol"), None);
    portfolio.add_chain(chain_a);
    portfolio.add_chain(chain_b);
    let chains = portfolio.chains();
    assert_eq!(chains.len(), 2);
    assert_eq!(chains[0].rpc(), &"http://b.example".to_string());
    assert_eq!(chains[1].rpc(), &"http://a.example".to_string());
}

#[test]
fn default_observer_is_subscribed_to_added_chains() {
    let mut dir = ObserverDirectory::new();
    let observer = dir.register();
    let metadata = metadata();
    let chain = Layer1::new("http://a.example".to_string(), 1, &metadata);
    let mut portfolio = Portfolio::new(test_account("carol"), Some(observer));
    portfolio.add_chain(chain);

    let chain_balances = vec![100u128];
    let token_balances: Vec<Vec<u128>> = vec![vec![]];
    let notes = portfolio.update_balances(&chain_balances, &token_balances, &dir);
    assert_eq!(notes.len(), 1);
    assert_eq!(notes[0].observer, observer);
    assert_eq!(notes[0].amount, 100);
}

#[test]
fn update_balances_keeps_chain_then_token_order() {
    let mut dir = ObserverDirectory::new();
    let observer = dir.register();
    let metadata = metadata();
    let mut older = Layer1::new("http://a.example".to_string(), 1, &metadata);
    older
        .add_token(
            "0x00000000000000000000000000000000000000aa".to_string(),
            "TOKA".to_string(),
            Some(6),
            0,
            &dir,
        )
        .expect("a well-formed address must be accepted");
    let newer = Layer1::new("http://b.example".to_string(), 5, &metadata);

    let mut portfolio = Portfolio::new(test_account("carol"), Some(observer));
    portfolio.add_chain(older);
    portfolio.add_chain(newer);
    // Collection order: newer (chain 5) first, then older (chain 1) and its token.
    let chain_balances = vec![50u128, 10u128];
    let token_balances: Vec<Vec<u128>> = vec![vec![], vec![77u128]];
    let notes = portfolio.update_balances(&chain_balances, &token_balances, &dir);
    assert_eq!(notes.len(), 3);
    assert_eq!(notes[0].asset.identifier, "5".to_string());
    assert_eq!(notes[0].amount, 50);
    assert_eq!(notes[1].asset.identifier, "1".to_string());
    assert_eq!(notes[1].amount, 10);
    assert_eq!(
        notes[2].asset.identifier,
        "0x00000000000000000000000000000000000000aa".to_string()
    );
    assert_eq!(notes[2].amount, 77);
}

#[test]
fn owner_is_the_account_the_portfolio_tracks() {
    let portfolio = Portfolio::new(test_account("carol"), None);
    assert_eq!(portfolio.owner().identifier().id, "carol".to_string());
}
