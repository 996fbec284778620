//! Core of a multi-chain wallet: an encrypted credential vault, signing-key
//! derivation from a secret phrase, and a portfolio of chains and tokens whose
//! balance updates are fanned out to weakly-held observers.

pub mod account;
pub mod address;
pub mod chain;
pub mod chain_metadata;
pub mod cipher;
pub mod json;
pub mod layer1;
pub mod mnemonic;
pub mod portfolio;
pub mod session;
pub mod storage;
pub mod text;
pub mod token;
pub mod vault;
pub mod wallet;
