//! One network: its endpoint, identity and native-asset data, the tokens it
//! owns, and its weakly-held observer list. A subscription placed here fans
//! out to every owned token, those added later included.

use crate::address::Address;
use crate::chain::{
    live_observers, notification_views, notify_list, notify_observers, observers_without,
    pow10_u128, remove_observer, AssetInfo, AssetView, ChainError, Notification,
    ObserverDirectory, TokenData, TokenInteractor,
};
use crate::chain_metadata::ChainsMetadata;
use crate::text::{dec_str, u64_to_string};
use crate::token::{token_asset, Token, TokenView};
use vstd::prelude::*;

verus! {

/// Decimal precision assumed when the metadata table knows none.
pub const FALLBACK_DECIMAL_COUNT: u32 = 18;

/// The mathematical view of a `Layer1`.
#[verifier::ext_equal]
pub struct Layer1View {
    pub rpc: Seq<char>,
    pub chain_id: u64,
    pub symbol: Seq<char>,
    pub decimals: u32,
    pub tokens: Seq<TokenView>,
    pub observers: Seq<u64>,
}

/// The views of a vector of tokens.
pub open spec fn token_views(s: Seq<Token>) -> Seq<TokenView> {
    s.map_values(|t: Token| t@)
}

/// The observer-facing snapshot of a chain's native asset.
pub open spec fn chain_asset(v: Layer1View) -> AssetView {
    AssetView { identifier: dec_str(v.chain_id as nat), symbol: v.symbol, decimals: v.decimals }
}

/// A token as it stands right after subscribing one more observer.
pub open spec fn token_subscribed(v: TokenView, observer: u64) -> TokenView {
    TokenView { observers: v.observers.push(observer), ..v }
}

/// A token as it stands after removing an observer's subscriptions.
pub open spec fn token_unsubscribed(v: TokenView, observer: u64) -> TokenView {
    TokenView { observers: observers_without(v.observers, observer), ..v }
}

/// One network and everything owned on it.
#[derive(Debug)]
pub struct Layer1 {
    tokens: Vec<Token>,
    rpc: String,
    decimals: u32,
    symbol: String,
    chain_id: u64,
    observers: Vec<u64>,
}

impl View for Layer1 {
    type V = Layer1View;

    closed spec fn view(&self) -> Layer1View {
        Layer1View {
            rpc: self.rpc@,
            chain_id: self.chain_id,
            symbol: self.symbol@,
            decimals: self.decimals,
            tokens: token_views(self.tokens@),
            observers: self.observers@,
        }
    }
}

impl Layer1 {
    /// A chain over the given endpoint with its identity already resolved;
    /// symbol and decimals come from the metadata table, with `"<unknown>"`
    /// and eighteen decimals as fallbacks.
    pub fn new(rpc: String, chain_id: u64, meta_data: &ChainsMetadata) -> (r: Layer1)
        ensures
            r@.rpc == rpc@,
            r@.chain_id == chain_id,
            r@.tokens == Seq::<TokenView>::empty(),
            r@.observers == Seq::<u64>::empty(),
            r@.symbol == (match meta_data.spec_symbol(chain_id) {
                Some(s) => s,
                None => "<unknown>"@,
            }),
            r@.decimals == (match meta_data.spec_decimals(chain_id) {
                Some(d) => d,
                None => FALLBACK_DECIMAL_COUNT,
            }),
    {
        let symbol = match meta_data.get_symbol(chain_id) {
            Some(s) => s,
            None => "<unknown>".to_owned(),
        };
        let decimals = match meta_data.get_decimals(chain_id) {
            Some(d) => d,
            None => FALLBACK_DECIMAL_COUNT,
        };
        let r = Layer1 {
            tokens: Vec::new(),
            rpc,
            decimals,
            symbol,
            chain_id,
            observers: Vec::new(),
        };
        proof {
            assert(r@.tokens =~= Seq::<TokenView>::empty());
            assert(r@.observers =~= Seq::<u64>::empty());
        }
        r
    }

    /// The owned tokens, in insertion order.
    pub fn tokens(&self) -> (r: &Vec<Token>)
        ensures
            token_views(r@) == self@.tokens,
    {
        &self.tokens
    }

    /// The endpoint this chain is reached through.
    pub fn rpc(&self) -> (r: &String)
        ensures
            r@ == self@.rpc,
    {
        &self.rpc
    }

    /// Adds a token and returns its decimal precision, defaulted to the
    /// chain's own, together with the notifications of the token's first
    /// balance update. Every observer already subscribed to the chain is
    /// subscribed to the new token; rejects text that is no address.
    pub fn add_token(
        &mut self,
        address: String,
        symbol: String,
        decimals: Option<u32>,
        fetched: u128,
        dir: &ObserverDirectory,
    ) -> (r: Result<(u32, Vec<Notification>), ChainError>)
        ensures
            r is Ok <==> crate::address::valid_address_str(address@),
            r matches Err(e) ==> (e matches ChainError::InvalidAddress(a) && a@ == address@)
                && final(self)@ == old(self)@,
            r matches Ok((d, notes)) ==> {
                let new_token = TokenView {
                    address: crate::address::address_str_bytes(address@),
                    symbol: symbol@,
                    decimals: d,
                    observers: live_observers(old(self)@.observers, dir.live_set()),
                };
                &&& d == (match decimals {
                    Some(x) => x,
                    None => old(self)@.decimals,
                })
                &&& final(self)@ == (Layer1View {
                    tokens: old(self)@.tokens.push(new_token),
                    ..old(self)@
                })
                &&& notification_views(notes@) == notify_list(
                    old(self)@.observers,
                    dir.live_set(),
                    fetched,
                    AssetView {
                        identifier: crate::address::address_str(
                            crate::address::address_str_bytes(address@),
                        ),
                        symbol: symbol@,
                        decimals: d,
                    },
                )
            },
    {
        let d = match decimals {
            Some(x) => x,
            None => self.decimals,
        };
        match Address::parse(address.as_str()) {
            None => Err(ChainError::InvalidAddress(address)),
            Some(addr) => {
                let mut token = Token::new(addr, symbol, d);
                let mut i: usize = 0;
                while i < self.observers.len()
                    invariant
                        i <= self.observers@.len(),
                        token@.observers == self.observers@.take(i as int),
                        token@.address == crate::address::address_str_bytes(address@),
                        token@.symbol == symbol@,
                        token@.decimals == d,
                    decreases self.observers@.len() - i,
                {
                    token.subscribe(self.observers[i]);
                    i = i + 1;
                    proof {
                        assert(token@.observers =~= self.observers@.take(i as int));
                    }
                }
                proof {
                    assert(self.observers@.take(self.observers@.len() as int)
                        =~= self.observers@);
                }
                let notes = token.update_balance(fetched, dir);
                proof {
                    assert(token_asset(
                        TokenView {
                            address: crate::address::address_str_bytes(address@),
                            symbol: symbol@,
                            decimals: d,
                            observers: self.observers@,
                        },
                    ) =~~= AssetView {
                        identifier: crate::address::address_str(
                            crate::address::address_str_bytes(address@),
                        ),
                        symbol: symbol@,
                        decimals: d,
                    });
                }
                let ghost before = self.tokens@;
                self.tokens.push(token);
                proof {
                    crate::text::lemma_map_push(before, |t: Token| t@, self.tokens@.last());
                    assert(self@ =~~= Layer1View {
                        tokens: old(self)@.tokens.push(self.tokens@.last()@),
                        ..old(self)@
                    });
                }
                Ok((d, notes))
            },
        }
    }

    /// Resolves each observer: every live one receives the freshly fetched
    /// native-asset balance with this chain's data; dead entries are dropped
    /// from the list. Owned tokens are untouched.
    pub fn update_balance(&mut self, fetched: u128, dir: &ObserverDirectory) -> (r: Vec<Notification>)
        ensures
            final(self)@ == (Layer1View {
                observers: live_observers(old(self)@.observers, dir.live_set()),
                ..old(self)@
            }),
            notification_views(r@) == notify_list(
                old(self)@.observers,
                dir.live_set(),
                fetched,
                chain_asset(old(self)@),
            ),
    {
        let asset = AssetInfo {
            identifier: u64_to_string(self.chain_id),
            symbol: self.symbol.clone(),
            decimals: self.decimals,
        };
        proof {
            assert(asset@ =~~= chain_asset(self@));
        }
        let r = notify_observers(&mut self.observers, dir, fetched, &asset);
        proof {
            assert(self@ =~~= Layer1View {
                observers: live_observers(old(self)@.observers, dir.live_set()),
                ..old(self)@
            });
        }
        r
    }
}

/// A token after a refresh: dead observer entries dropped, the rest kept.
pub open spec fn token_refreshed(v: TokenView, live: Set<u64>) -> TokenView {
    TokenView { observers: live_observers(v.observers, live), ..v }
}

/// The notifications of refreshing each token in order with its amount.
pub open spec fn tokens_refresh_notes(
    tokens: Seq<TokenView>,
    amounts: Seq<u128>,
    live: Set<u64>,
) -> Seq<crate::chain::NotificationView>
    decreases tokens.len(),
{
    if tokens.len() == 0 {
        Seq::empty()
    } else {
        notify_list(tokens[0].observers, live, amounts[0], token_asset(tokens[0]))
            + tokens_refresh_notes(tokens.drop_first(), amounts.drop_first(), live)
    }
}

pub proof fn lemma_tokens_refresh_notes_push(
    tokens: Seq<TokenView>,
    amounts: Seq<u128>,
    live: Set<u64>,
    t: TokenView,
    a: u128,
)
    requires
        tokens.len() == amounts.len(),
    ensures
        tokens_refresh_notes(tokens.push(t), amounts.push(a), live) == tokens_refresh_notes(
            tokens,
            amounts,
            live,
        ) + notify_list(t.observers, live, a, token_asset(t)),
    decreases tokens.len(),
{
    reveal_with_fuel(tokens_refresh_notes, 3);
    if tokens.len() == 0 {
        assert(tokens.push(t)[0] == t);
        assert(tokens.push(t).drop_first() =~= Seq::<TokenView>::empty());
        assert(tokens_refresh_notes(
            Seq::<TokenView>::empty(),
            Seq::<u128>::empty(),
            live,
        ) == Seq::<crate::chain::NotificationView>::empty());
        assert(amounts.push(a).drop_first() =~= Seq::<u128>::empty());
        assert(tokens_refresh_notes(tokens.push(t), amounts.push(a), live)
            =~= tokens_refresh_notes(tokens, amounts, live) + notify_list(
            t.observers,
            live,
            a,
            token_asset(t),
        ));
    } else {
        lemma_tokens_refresh_notes_push(
            tokens.drop_first(),
            amounts.drop_first(),
            live,
            t,
            a,
        );
        assert(tokens.push(t).drop_first() =~= tokens.drop_first().push(t));
        assert(amounts.push(a).drop_first() =~= amounts.drop_first().push(a));
        assert(tokens.push(t)[0] == tokens[0]);
        assert(amounts.push(a)[0] == amounts[0]);
        assert(tokens_refresh_notes(tokens.push(t), amounts.push(a), live)
            =~= tokens_refresh_notes(tokens, amounts, live) + notify_list(
            t.observers,
            live,
            a,
            token_asset(t),
        ));
    }
}

impl Layer1 {
    /// Refreshes every owned token in order with its freshly fetched amount:
    /// each token's live observers are notified and its dead entries dropped.
    pub fn update_token_balances(
        &mut self,
        amounts: &Vec<u128>,
        dir: &ObserverDirectory,
    ) -> (r: Vec<Notification>)
        requires
            amounts@.len() == old(self)@.tokens.len(),
        ensures
            final(self)@ == (Layer1View {
                tokens: old(self)@.tokens.map_values(
                    |t: TokenView| token_refreshed(t, dir.live_set()),
                ),
                ..old(self)@
            }),
            notification_views(r@) == tokens_refresh_notes(
                old(self)@.tokens,
                amounts@,
                dir.live_set(),
            ),
    {
        let ghost whole = self@.tokens;
        let ghost live = dir.live_set();
        let mut updated: Vec<Token> = Vec::new();
        let mut out: Vec<Notification> = Vec::new();
        let mut i: usize = 0;
        let total = amounts.len();
        proof {
            assert(whole.len() == total);
            assert(token_views(updated@) =~= Seq::<TokenView>::empty());
            assert(whole.take(0).map_values(|t: TokenView| token_refreshed(t, live)) =~= Seq::<
                TokenView,
            >::empty());
            assert(whole.take(0) =~= Seq::<TokenView>::empty());
            assert(amounts@.take(0) =~= Seq::<u128>::empty());
            assert(notification_views(out@) =~= tokens_refresh_notes(
                whole.take(0),
                amounts@.take(0),
                live,
            ));
        }
        while self.tokens.len() > 0
            invariant
                live == dir.live_set(),
                whole.len() == amounts@.len(),
                whole.len() <= usize::MAX,
                0 <= i <= whole.len(),
                token_views(self.tokens@) == whole.skip(i as int),
                token_views(updated@) == whole.take(i as int).map_values(
                    |t: TokenView| token_refreshed(t, live),
                ),
                notification_views(out@) == tokens_refresh_notes(
                    whole.take(i as int),
                    amounts@.take(i as int),
                    live,
                ),
                self@.rpc == old(self)@.rpc,
                self@.chain_id == old(self)@.chain_id,
                self@.symbol == old(self)@.symbol,
                self@.decimals == old(self)@.decimals,
                self@.observers == old(self)@.observers,
                whole == old(self)@.tokens,
            decreases self.tokens@.len(),
        {
            let ghost before_tokens = self.tokens@;
            let ghost prev_updated = updated@;
            let ghost prev_out = out@;
            proof {
                assert(token_views(self.tokens@).len() == self.tokens@.len());
                assert(self.tokens@.len() == whole.len() - i);
            }
            let mut t = self.tokens.remove(0);
            let mut notes = t.update_balance(amounts[i], dir);
            updated.push(t);
            out.append(&mut notes);
            i = i + 1;
            proof {
                let d = i - 1;
                assert(token_views(before_tokens).len() == whole.skip(d).len());
                assert(d < whole.len());
                assert(token_views(before_tokens)[0] == whole.skip(d)[0]);
                assert(whole.skip(d)[0] == whole[d]);
                assert(self.tokens@ == before_tokens.remove(0));
                assert(before_tokens.remove(0) =~= before_tokens.skip(1));
                assert forall|k: int| 0 <= k < token_views(self.tokens@).len() implies token_views(
                    self.tokens@,
                )[k] == whole.skip(d + 1)[k] by {
                    assert(token_views(self.tokens@)[k] == self.tokens@[k]@);
                    assert(self.tokens@[k] == before_tokens[k + 1]);
                    assert(token_views(before_tokens)[k + 1] == before_tokens[k + 1]@);
                    assert(token_views(before_tokens)[k + 1] == whole.skip(d)[k + 1]);
                }
                assert(token_views(self.tokens@) =~= whole.skip(d + 1));
                assert(updated@ =~= prev_updated.push(updated@.last()));
                assert(updated@.last()@ =~~= token_refreshed(whole[d], live));
                crate::text::lemma_map_push(
                    whole.take(d),
                    |tv: TokenView| token_refreshed(tv, live),
                    whole[d],
                );
                crate::text::lemma_map_push(prev_updated, |tk: Token| tk@, updated@.last());
                assert(whole.take(d + 1) =~= whole.take(d).push(whole[d]));
                assert(amounts@.take(d + 1) =~= amounts@.take(d).push(amounts@[d]));
                lemma_tokens_refresh_notes_push(
                    whole.take(d),
                    amounts@.take(d),
                    live,
                    whole[d],
                    amounts@[d],
                );
                assert(notification_views(out@) =~= notification_views(prev_out)
                    + notify_list(whole[d].observers, live, amounts@[d], token_asset(whole[d])));
            }
        }
        proof {
            assert(whole.take(whole.len() as int) =~= whole);
            assert(amounts@.take(amounts@.len() as int) =~= amounts@);
            assert(whole.skip(i as int) =~= Seq::<TokenView>::empty());
            assert(i == whole.len());
        }
        self.tokens = updated;
        proof {
            assert(self@ =~~= Layer1View {
                tokens: old(self)@.tokens.map_values(
                    |t: TokenView| token_refreshed(t, dir.live_set()),
                ),
                ..old(self)@
            });
        }
        out
    }
}

impl TokenData for Layer1 {
    open spec fn spec_symbol(&self) -> Seq<char> {
        self@.symbol
    }

    open spec fn spec_identifier(&self) -> Seq<char> {
        dec_str(self@.chain_id as nat)
    }

    open spec fn spec_decimals(&self) -> u32 {
        self@.decimals
    }

    fn symbol(&self) -> (r: String) {
        self.symbol.clone()
    }

    fn identifier(&self) -> (r: String) {
        u64_to_string(self.chain_id)
    }

    fn decimals(&self) -> (r: u32) {
        self.decimals
    }

    fn denomiator(&self) -> (r: u128) {
        pow10_u128(self.decimals)
    }
}

impl TokenInteractor for Layer1 {
    open spec fn spec_observers(&self) -> Seq<u64> {
        self@.observers
    }

    /// Subscribing to a chain also subscribes to every token it currently
    /// owns; tokens added later receive the subscription at add time.
    fn subscribe(&mut self, observer: u64)
        ensures
            final(self)@ == (Layer1View {
                observers: old(self)@.observers.push(observer),
                tokens: old(self)@.tokens.map_values(
                    |t: TokenView| token_subscribed(t, observer),
                ),
                ..old(self)@
            }),
    {
        self.observers.push(observer);
        let ghost whole = self@.tokens;
        let mut updated: Vec<Token> = Vec::new();
        proof {
            assert(token_views(updated@) =~= Seq::<TokenView>::empty());
            assert(whole.take(0).map_values(|t: TokenView| token_subscribed(t, observer)) =~= Seq::<
                TokenView,
            >::empty());
        }
        let ghost done: int = 0;
        while self.tokens.len() > 0
            invariant
                0 <= done <= whole.len(),
                token_views(self.tokens@) == whole.skip(done),
                token_views(updated@) == whole.take(done).map_values(
                    |t: TokenView| token_subscribed(t, observer),
                ),
                self@.observers == old(self)@.observers.push(observer),
                self@.rpc == old(self)@.rpc,
                self@.chain_id == old(self)@.chain_id,
                self@.symbol == old(self)@.symbol,
                self@.decimals == old(self)@.decimals,
                whole == old(self)@.tokens,
            decreases self.tokens@.len(),
        {
            let ghost before_tokens = self.tokens@;
            let ghost prev_updated = updated@;
            let mut t = self.tokens.remove(0);
            t.subscribe(observer);
            updated.push(t);
            proof {
                assert(token_views(before_tokens).len() == whole.skip(done).len());
                assert(done < whole.len());
                assert(token_views(before_tokens)[0] == whole.skip(done)[0]);
                assert(whole.skip(done)[0] == whole[done]);
                assert(self.tokens@ == before_tokens.remove(0));
                assert(before_tokens.remove(0) =~= before_tokens.skip(1));
                assert forall|k: int| 0 <= k < token_views(self.tokens@).len() implies token_views(
                    self.tokens@,
                )[k] == whole.skip(done + 1)[k] by {
                    assert(token_views(self.tokens@)[k] == self.tokens@[k]@);
                    assert(self.tokens@[k] == before_tokens[k + 1]);
                    assert(token_views(before_tokens)[k + 1] == before_tokens[k + 1]@);
                    assert(token_views(before_tokens)[k + 1] == whole.skip(done)[k + 1]);
                }
                assert(token_views(self.tokens@) =~= whole.skip(done + 1));
                assert(updated@ =~= prev_updated.push(updated@.last()));
                assert(updated@.last()@ =~~= token_subscribed(whole[done], observer));
                crate::text::lemma_map_push(
                    whole.take(done),
                    |tv: TokenView| token_subscribed(tv, observer),
                    whole[done],
                );
                crate::text::lemma_map_push(prev_updated, |tk: Token| tk@, updated@.last());
                assert(whole.take(done + 1) =~= whole.take(done).push(whole[done]));
                done = done + 1;
            }
        }
        proof {
            assert(whole.take(whole.len() as int) =~= whole);
            assert(whole.skip(done) =~= Seq::<TokenView>::empty());
            assert(done == whole.len());
        }
        self.tokens = updated;
        proof {
            assert(self@ =~~= Layer1View {
                observers: old(self)@.observers.push(observer),
                tokens: old(self)@.tokens.map_values(
                    |t: TokenView| token_subscribed(t, observer),
                ),
                ..old(self)@
            });
        }
    }

    /// Removes the observer's subscriptions from the chain and from every
    /// owned token.
    fn unsubscribe(&mut self, observer: u64)
        ensures
            final(self)@ == (Layer1View {
                observers: observers_without(old(self)@.observers, observer),
                tokens: old(self)@.tokens.map_values(
                    |t: TokenView| token_unsubscribed(t, observer),
                ),
                ..old(self)@
            }),
    {
        remove_observer(&mut self.observers, observer);
        let ghost whole = self@.tokens;
        let mut updated: Vec<Token> = Vec::new();
        proof {
            assert(token_views(updated@) =~= Seq::<TokenView>::empty());
            assert(whole.take(0).map_values(|t: TokenView| token_unsubscribed(t, observer))
                =~= Seq::<TokenView>::empty());
        }
        let ghost done: int = 0;
        while self.tokens.len() > 0
            invariant
                0 <= done <= whole.len(),
                token_views(self.tokens@) == whole.skip(done),
                token_views(updated@) == whole.take(done).map_values(
                    |t: TokenView| token_unsubscribed(t, observer),
                ),
                self@.observers == observers_without(old(self)@.observers, observer),
                self@.rpc == old(self)@.rpc,
                self@.chain_id == old(self)@.chain_id,
                self@.symbol == old(self)@.symbol,
                self@.decimals == old(self)@.decimals,
                whole == old(self)@.tokens,
            decreases self.tokens@.len(),
        {
            let ghost before_tokens = self.tokens@;
            let ghost prev_updated = updated@;
            let mut t = self.tokens.remove(0);
            t.unsubscribe(observer);
            updated.push(t);
            proof {
                assert(token_views(before_tokens).len() == whole.skip(done).len());
                assert(done < whole.len());
                assert(token_views(before_tokens)[0] == whole.skip(done)[0]);
                assert(whole.skip(done)[0] == whole[done]);
                assert(self.tokens@ == before_tokens.remove(0));
                assert(before_tokens.remove(0) =~= before_tokens.skip(1));
                assert forall|k: int| 0 <= k < token_views(self.tokens@).len() implies token_views(
                    self.tokens@,
                )[k] == whole.skip(done + 1)[k] by {
                    assert(token_views(self.tokens@)[k] == self.tokens@[k]@);
                    assert(self.tokens@[k] == before_tokens[k + 1]);
                    assert(token_views(before_tokens)[k + 1] == before_tokens[k + 1]@);
                    assert(token_views(before_tokens)[k + 1] == whole.skip(done)[k + 1]);
                }
                assert(token_views(self.tokens@) =~= whole.skip(done + 1));
                assert(updated@ =~= prev_updated.push(updated@.last()));
                assert(updated@.last()@ =~~= token_unsubscribed(whole[done], observer));
                crate::text::lemma_map_push(
                    whole.take(done),
                    |tv: TokenView| token_unsubscribed(tv, observer),
                    whole[done],
                );
                crate::text::lemma_map_push(prev_updated, |tk: Token| tk@, updated@.last());
                assert(whole.take(done + 1) =~= whole.take(done).push(whole[done]));
                done = done + 1;
            }
        }
        proof {
            assert(whole.take(whole.len() as int) =~= whole);
            assert(whole.skip(done) =~= Seq::<TokenView>::empty());
            assert(done == whole.len());
        }
        self.tokens = updated;
        proof {
            assert(self@ =~~= Layer1View {
                observers: observers_without(old(self)@.observers, observer),
                tokens: old(self)@.tokens.map_values(
                    |t: TokenView| token_unsubscribed(t, observer),
                ),
                ..old(self)@
            });
        }
    }
}

} // verus!
