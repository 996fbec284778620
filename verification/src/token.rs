//! One fungible asset on one chain, with its weakly-held observer list.

use crate::address::{address_str, Address, StringRepresentation};
use crate::chain::{
    live_observers, notification_views, notify_list, notify_observers, observers_without, pow10,
    pow10_u128, remove_observer, AssetInfo, AssetView, Notification, ObserverDirectory, TokenData,
    TokenInteractor,
};
use vstd::prelude::*;

verus! {

/// The mathematical view of a `Token`.
#[verifier::ext_equal]
pub struct TokenView {
    pub address: Seq<u8>,
    pub symbol: Seq<char>,
    pub decimals: u32,
    pub observers: Seq<u64>,
}

/// The observer-facing snapshot of a token.
pub open spec fn token_asset(v: TokenView) -> AssetView {
    AssetView { identifier: address_str(v.address), symbol: v.symbol, decimals: v.decimals }
}

/// One fungible asset on one chain. Balance values are integers in the
/// smallest unit; the decimal precision is fixed at construction.
#[derive(Debug)]
pub struct Token {
    address: Address,
    symbol: String,
    decimals: u32,
    observers: Vec<u64>,
}

impl View for Token {
    type V = TokenView;

    closed spec fn view(&self) -> TokenView {
        TokenView {
            address: self.address@,
            symbol: self.symbol@,
            decimals: self.decimals,
            observers: self.observers@,
        }
    }
}

impl Clone for Token {
    fn clone(&self) -> (r: Self)
        ensures
            r@ == self@,
    {
        let mut observers: Vec<u64> = Vec::new();
        let mut i: usize = 0;
        while i < self.observers.len()
            invariant
                i <= self.observers@.len(),
                observers@ == self.observers@.take(i as int),
            decreases self.observers@.len() - i,
        {
            observers.push(self.observers[i]);
            i = i + 1;
            proof {
                assert(observers@ =~= self.observers@.take(i as int));
            }
        }
        proof {
            assert(self.observers@.take(self.observers@.len() as int) =~= self.observers@);
        }
        let r = Token {
            address: self.address.clone(),
            symbol: self.symbol.clone(),
            decimals: self.decimals,
            observers,
        };
        proof {
            assert(r@ =~~= self@);
        }
        r
    }
}

impl Token {
    /// A token with the given address, symbol and decimal precision, and no
    /// observers yet.
    pub(crate) fn new(address: Address, symbol: String, decimals: u32) -> (r: Token)
        ensures
            r@.address == address@,
            r@.symbol == symbol@,
            r@.decimals == decimals,
            r@.observers == Seq::<u64>::empty(),
    {
        let r = Token { address, symbol, decimals, observers: Vec::new() };
        proof {
            assert(r@.observers =~= Seq::<u64>::empty());
        }
        r
    }

    /// The token's contract address.
    pub fn address(&self) -> (r: Address)
        ensures
            r@ == self@.address,
    {
        self.address.clone()
    }

    /// Resolves each observer: every live one receives the freshly fetched
    /// balance with this token's data; dead entries are dropped from the
    /// list.
    pub fn update_balance(&mut self, fetched: u128, dir: &ObserverDirectory) -> (r: Vec<
        Notification,
    >)
        ensures
            final(self)@.address == old(self)@.address,
            final(self)@.symbol == old(self)@.symbol,
            final(self)@.decimals == old(self)@.decimals,
            final(self)@.observers == live_observers(old(self)@.observers, dir.live_set()),
            notification_views(r@) == notify_list(
                old(self)@.observers,
                dir.live_set(),
                fetched,
                token_asset(old(self)@),
            ),
    {
        let asset = AssetInfo {
            identifier: self.address.string_representation(),
            symbol: self.symbol.clone(),
            decimals: self.decimals,
        };
        proof {
            assert(asset@ =~~= token_asset(self@));
        }
        notify_observers(&mut self.observers, dir, fetched, &asset)
    }
}

impl TokenData for Token {
    open spec fn spec_symbol(&self) -> Seq<char> {
        self@.symbol
    }

    open spec fn spec_identifier(&self) -> Seq<char> {
        address_str(self@.address)
    }

    open spec fn spec_decimals(&self) -> u32 {
        self@.decimals
    }

    fn symbol(&self) -> (r: String) {
        self.symbol.clone()
    }

    fn identifier(&self) -> (r: String) {
        self.address.string_representation()
    }

    fn decimals(&self) -> (r: u32) {
        self.decimals
    }

    fn denomiator(&self) -> (r: u128) {
        pow10_u128(self.decimals)
    }
}

impl TokenInteractor for Token {
    open spec fn spec_observers(&self) -> Seq<u64> {
        self@.observers
    }

    fn subscribe(&mut self, observer: u64)
        ensures
            final(self)@.address == old(self)@.address,
            final(self)@.symbol == old(self)@.symbol,
            final(self)@.decimals == old(self)@.decimals,
    {
        self.observers.push(observer);
    }

    fn unsubscribe(&mut self, observer: u64)
        ensures
            final(self)@.address == old(self)@.address,
            final(self)@.symbol == old(self)@.symbol,
            final(self)@.decimals == old(self)@.decimals,
    {
        remove_observer(&mut self.observers, observer);
    }
}

} // verus!
