//! The portfolio: the ordered collection of chains owned for one signing
//! account, the single entry point for "refresh everything".

use crate::account::Account;
use crate::chain::{
    live_observers, notification_views, notify_list, Notification, NotificationView,
    ObserverDirectory, TokenInteractor,
};
use crate::address::{address_str, address_str_bytes, valid_address_str};
use crate::chain::{AssetView, ChainError, TokenData};
use crate::layer1::{
    chain_asset, token_refreshed, token_subscribed, token_views, tokens_refresh_notes, Layer1,
    Layer1View,
};
use crate::storage::str_eq;
use crate::text::dec_str;
use crate::token::TokenView;
use vstd::prelude::*;

verus! {

/// Index of the first chain whose identifier text is `id`, or the length if
/// there is none.
pub open spec fn first_chain_with_id(chains: Seq<Layer1View>, id: Seq<char>) -> int
    decreases chains.len(),
{
    if chains.len() == 0 {
        0
    } else if dec_str(chains[0].chain_id as nat) == id {
        0
    } else {
        1 + first_chain_with_id(chains.drop_first(), id)
    }
}

pub proof fn lemma_first_chain_with_id(chains: Seq<Layer1View>, id: Seq<char>)
    ensures
        0 <= first_chain_with_id(chains, id) <= chains.len(),
        first_chain_with_id(chains, id) < chains.len() ==> dec_str(
            chains[first_chain_with_id(chains, id)].chain_id as nat,
        ) == id,
        forall|j: int|
            0 <= j < first_chain_with_id(chains, id) ==> dec_str(
                (#[trigger] chains[j]).chain_id as nat,
            ) != id,
        first_chain_with_id(chains, id) == chains.len() <==> (forall|j: int|
            0 <= j < chains.len() ==> dec_str((#[trigger] chains[j]).chain_id as nat) != id),
    decreases chains.len(),
{
    if chains.len() == 0 {
    } else if dec_str(chains[0].chain_id as nat) == id {
    } else {
        lemma_first_chain_with_id(chains.drop_first(), id);
        let f = first_chain_with_id(chains, id);
        assert(forall|j: int|
            1 <= j < chains.len() ==> chains[j] == chains.drop_first()[j - 1]);
        if f < chains.len() {
            assert(chains[f] == chains.drop_first()[f - 1]);
        }
    }
}

/// The views of a vector of chains.
pub open spec fn layer1_views(s: Seq<Layer1>) -> Seq<Layer1View> {
    s.map_values(|c: Layer1| c@)
}

/// A chain right after one more observer subscribed to it and, through it,
/// to every token it owns.
pub open spec fn chain_subscribed(v: Layer1View, observer: u64) -> Layer1View {
    Layer1View {
        observers: v.observers.push(observer),
        tokens: v.tokens.map_values(|t: TokenView| token_subscribed(t, observer)),
        ..v
    }
}

/// A chain after a full refresh: its own dead observer entries dropped, and
/// every owned token's too.
pub open spec fn chain_refreshed(v: Layer1View, live: Set<u64>) -> Layer1View {
    Layer1View {
        observers: live_observers(v.observers, live),
        tokens: v.tokens.map_values(|t: TokenView| token_refreshed(t, live)),
        ..v
    }
}

/// The notifications of refreshing one chain: first its native asset, then
/// each owned token in order.
pub open spec fn chain_refresh_notes(
    v: Layer1View,
    native: u128,
    token_amounts: Seq<u128>,
    live: Set<u64>,
) -> Seq<NotificationView> {
    notify_list(v.observers, live, native, chain_asset(v)) + tokens_refresh_notes(
        v.tokens,
        token_amounts,
        live,
    )
}

/// The notifications of refreshing every chain in collection order.
pub open spec fn portfolio_refresh_notes(
    chains: Seq<Layer1View>,
    natives: Seq<u128>,
    token_amounts: Seq<Seq<u128>>,
    live: Set<u64>,
) -> Seq<NotificationView>
    decreases chains.len(),
{
    if chains.len() == 0 {
        Seq::empty()
    } else {
        chain_refresh_notes(chains[0], natives[0], token_amounts[0], live)
            + portfolio_refresh_notes(
            chains.drop_first(),
            natives.drop_first(),
            token_amounts.drop_first(),
            live,
        )
    }
}

pub proof fn lemma_portfolio_refresh_notes_push(
    chains: Seq<Layer1View>,
    natives: Seq<u128>,
    token_amounts: Seq<Seq<u128>>,
    live: Set<u64>,
    c: Layer1View,
    native: u128,
    amounts: Seq<u128>,
)
    requires
        chains.len() == natives.len(),
        chains.len() == token_amounts.len(),
    ensures
        portfolio_refresh_notes(
            chains.push(c),
            natives.push(native),
            token_amounts.push(amounts),
            live,
        ) == portfolio_refresh_notes(chains, natives, token_amounts, live) + chain_refresh_notes(
            c,
            native,
            amounts,
            live,
        ),
    decreases chains.len(),
{
    reveal_with_fuel(portfolio_refresh_notes, 3);
    if chains.len() == 0 {
        assert(chains.push(c)[0] == c);
        assert(chains.push(c).drop_first() =~= Seq::<Layer1View>::empty());
        assert(natives.push(native).drop_first() =~= Seq::<u128>::empty());
        assert(token_amounts.push(amounts).drop_first() =~= Seq::<Seq<u128>>::empty());
        assert(portfolio_refresh_notes(
            chains.push(c),
            natives.push(native),
            token_amounts.push(amounts),
            live,
        ) =~= portfolio_refresh_notes(chains, natives, token_amounts, live)
            + chain_refresh_notes(c, native, amounts, live));
    } else {
        lemma_portfolio_refresh_notes_push(
            chains.drop_first(),
            natives.drop_first(),
            token_amounts.drop_first(),
            live,
            c,
            native,
            amounts,
        );
        assert(chains.push(c).drop_first() =~= chains.drop_first().push(c));
        assert(natives.push(native).drop_first() =~= natives.drop_first().push(native));
        assert(token_amounts.push(amounts).drop_first() =~= token_amounts.drop_first().push(
            amounts,
        ));
        assert(chains.push(c)[0] == chains[0]);
        assert(natives.push(native)[0] == natives[0]);
        assert(token_amounts.push(amounts)[0] == token_amounts[0]);
        assert(portfolio_refresh_notes(
            chains.push(c),
            natives.push(native),
            token_amounts.push(amounts),
            live,
        ) =~= portfolio_refresh_notes(chains, natives, token_amounts, live)
            + chain_refresh_notes(c, native, amounts, live));
    }
}

/// The views of the per-chain token-amount vectors.
pub open spec fn amount_views(s: Seq<Vec<u128>>) -> Seq<Seq<u128>> {
    s.map_values(|v: Vec<u128>| v@)
}

/// The ordered collection of chains owned for one signing account, with an
/// optional default observer subscribed to every chain added.
pub struct Portfolio<A> where A: Account {
    chains: Vec<Layer1>,
    owner: A,
    default_observer: Option<u64>,
}

impl<A> Portfolio<A> where A: Account {
    /// The owned chains, most recently added first.
    pub closed spec fn spec_chains(&self) -> Seq<Layer1View> {
        layer1_views(self.chains@)
    }

    /// The signing account this portfolio tracks.
    pub closed spec fn spec_owner(&self) -> A {
        self.owner
    }

    /// The observer subscribed to every chain added, if one was configured.
    pub closed spec fn spec_default_observer(&self) -> Option<u64> {
        self.default_observer
    }

    pub fn new(account: A, observer: Option<u64>) -> (r: Self)
        ensures
            r.spec_chains() == Seq::<Layer1View>::empty(),
            r.spec_owner() == account,
            r.spec_default_observer() == observer,
    {
        let r = Portfolio { chains: Vec::new(), owner: account, default_observer: observer };
        proof {
            assert(r.spec_chains() =~= Seq::<Layer1View>::empty());
        }
        r
    }

    /// Inserts `chain` at the front: the most recently added chain is
    /// iterated first. If a default observer is configured it is subscribed
    /// before the call returns: no window exists where the chain is owned
    /// but unobserved.
    pub fn add_chain(&mut self, chain: Layer1)
        ensures
            final(self).spec_owner() == old(self).spec_owner(),
            final(self).spec_default_observer() == old(self).spec_default_observer(),
            final(self).spec_chains() == seq![
                match old(self).spec_default_observer() {
                    Some(o) => chain_subscribed(chain@, o),
                    None => chain@,
                },
            ] + old(self).spec_chains(),
    {
        let ghost entering = chain@;
        let mut chain = chain;
        match self.default_observer {
            Some(o) => {
                chain.subscribe(o);
                proof {
                    assert(chain@ =~~= chain_subscribed(entering, o));
                }
            },
            None => {},
        }
        let ghost before = self.chains@;
        let ghost added = chain@;
        self.chains.insert(0, chain);
        proof {
            assert(self.chains@ == before.insert(0, self.chains@[0]));
            assert(self.chains@[0]@ == added);
            assert(self.spec_chains() =~= seq![added] + layer1_views(before));
        }
    }

    /// The shared chain collection.
    pub fn chains(&self) -> (r: &Vec<Layer1>)
        ensures
            layer1_views(r@) == self.spec_chains(),
    {
        &self.chains
    }

    /// The signing account this portfolio tracks.
    pub fn owner(&self) -> (r: &A)
        ensures
            *r == self.spec_owner(),
    {
        &self.owner
    }

    /// Refreshes every owned chain in collection order: first the chain's
    /// native balance, then every owned token in order. Observers see one
    /// deterministic per-chain, per-token update order; dead observer
    /// entries are dropped wherever they are met.
    pub fn update_balances(
        &mut self,
        chain_balances: &Vec<u128>,
        token_balances: &Vec<Vec<u128>>,
        dir: &ObserverDirectory,
    ) -> (r: Vec<Notification>)
        requires
            chain_balances@.len() == old(self).spec_chains().len(),
            token_balances@.len() == old(self).spec_chains().len(),
            forall|i: int|
                0 <= i < old(self).spec_chains().len() ==> (#[trigger] token_balances@[i])@.len()
                    == old(self).spec_chains()[i].tokens.len(),
        ensures
            final(self).spec_owner() == old(self).spec_owner(),
            final(self).spec_default_observer() == old(self).spec_default_observer(),
            final(self).spec_chains() == old(self).spec_chains().map_values(
                |c: Layer1View| chain_refreshed(c, dir.live_set()),
            ),
            notification_views(r@) == portfolio_refresh_notes(
                old(self).spec_chains(),
                chain_balances@,
                amount_views(token_balances@),
                dir.live_set(),
            ),
    {
        let ghost whole = self.spec_chains();
        let ghost live = dir.live_set();
        let ghost natives = chain_balances@;
        let ghost per_token = amount_views(token_balances@);
        let mut updated: Vec<Layer1> = Vec::new();
        let mut out: Vec<Notification> = Vec::new();
        let mut i: usize = 0;
        let total = chain_balances.len();
        proof {
            assert(whole.len() == total);
            assert(layer1_views(updated@) =~= Seq::<Layer1View>::empty());
            assert(whole.take(0).map_values(|c: Layer1View| chain_refreshed(c, live)) =~= Seq::<
                Layer1View,
            >::empty());
            assert(whole.take(0) =~= Seq::<Layer1View>::empty());
            assert(natives.take(0) =~= Seq::<u128>::empty());
            assert(per_token.take(0) =~= Seq::<Seq<u128>>::empty());
            assert(notification_views(out@) =~= portfolio_refresh_notes(
                whole.take(0),
                natives.take(0),
                per_token.take(0),
                live,
            ));
        }
        while self.chains.len() > 0
            invariant
                live == dir.live_set(),
                natives == chain_balances@,
                per_token == amount_views(token_balances@),
                whole.len() == natives.len(),
                whole.len() == per_token.len(),
                whole.len() <= usize::MAX,
                forall|k: int| 0 <= k < whole.len() ==> (#[trigger] per_token[k]).len()
                    == whole[k].tokens.len(),
                0 <= i <= whole.len(),
                layer1_views(self.chains@) == whole.skip(i as int),
                layer1_views(updated@) == whole.take(i as int).map_values(
                    |c: Layer1View| chain_refreshed(c, live),
                ),
                notification_views(out@) == portfolio_refresh_notes(
                    whole.take(i as int),
                    natives.take(i as int),
                    per_token.take(i as int),
                    live,
                ),
                self.spec_owner() == old(self).spec_owner(),
                self.spec_default_observer() == old(self).spec_default_observer(),
                whole == old(self).spec_chains(),
            decreases self.chains@.len(),
        {
            let ghost before_chains = self.chains@;
            let ghost prev_updated = updated@;
            let ghost prev_out = out@;
            proof {
                assert(layer1_views(self.chains@).len() == self.chains@.len());
                assert(self.chains@.len() == whole.len() - i);
            }
            let mut c = self.chains.remove(0);
            let ghost c_entering = c@;
            proof {
                assert(layer1_views(before_chains)[0] == before_chains[0]@);
                assert(c_entering == whole.skip(i as int)[0]);
                assert(whole.skip(i as int)[0] == whole[i as int]);
                assert(per_token[i as int] == token_balances@[i as int]@);
            }
            let mut native_notes = c.update_balance(chain_balances[i], dir);
            let mut token_notes = c.update_token_balances(&token_balances[i], dir);
            updated.push(c);
            out.append(&mut native_notes);
            out.append(&mut token_notes);
            i = i + 1;
            proof {
                let d = i - 1;
                assert(self.chains@ == before_chains.remove(0));
                assert(before_chains.remove(0) =~= before_chains.skip(1));
                assert forall|k: int| 0 <= k < layer1_views(self.chains@).len() implies layer1_views(
                    self.chains@,
                )[k] == whole.skip(d + 1)[k] by {
                    assert(layer1_views(self.chains@)[k] == self.chains@[k]@);
                    assert(self.chains@[k] == before_chains[k + 1]);
                    assert(layer1_views(before_chains)[k + 1] == before_chains[k + 1]@);
                    assert(layer1_views(before_chains)[k + 1] == whole.skip(d)[k + 1]);
                }
                assert(layer1_views(self.chains@) =~= whole.skip(d + 1));
                assert(updated@ =~= prev_updated.push(updated@.last()));
                assert(updated@.last()@ =~~= chain_refreshed(whole[d], live));
                crate::text::lemma_map_push(
                    whole.take(d),
                    |cv: Layer1View| chain_refreshed(cv, live),
                    whole[d],
                );
                crate::text::lemma_map_push(prev_updated, |ch: Layer1| ch@, updated@.last());
                assert(whole.take(d + 1) =~= whole.take(d).push(whole[d]));
                assert(natives.take(d + 1) =~= natives.take(d).push(natives[d]));
                assert(per_token.take(d + 1) =~= per_token.take(d).push(per_token[d]));
                lemma_portfolio_refresh_notes_push(
                    whole.take(d),
                    natives.take(d),
                    per_token.take(d),
                    live,
                    whole[d],
                    natives[d],
                    per_token[d],
                );
                assert(notification_views(out@) =~= notification_views(prev_out)
                    + chain_refresh_notes(whole[d], natives[d], per_token[d], live));
            }
        }
        proof {
            assert(whole.take(whole.len() as int) =~= whole);
            assert(natives.take(natives.len() as int) =~= natives);
            assert(per_token.take(per_token.len() as int) =~= per_token);
            assert(whole.skip(i as int) =~= Seq::<Layer1View>::empty());
            assert(i == whole.len());
        }
        self.chains = updated;
        out
    }
}

/// A chain after its native-asset refresh, if its identifier is `id`;
/// untouched otherwise.
pub open spec fn native_refreshed_if(v: Layer1View, id: Seq<char>, live: Set<u64>) -> Layer1View {
    if dec_str(v.chain_id as nat) == id {
        Layer1View { observers: live_observers(v.observers, live), ..v }
    } else {
        v
    }
}

/// The notifications of refreshing the native balance of every chain whose
/// identifier is `id`, in collection order.
pub open spec fn chains_native_notes(
    chains: Seq<Layer1View>,
    id: Seq<char>,
    amount: u128,
    live: Set<u64>,
) -> Seq<NotificationView>
    decreases chains.len(),
{
    if chains.len() == 0 {
        Seq::empty()
    } else {
        (if dec_str(chains[0].chain_id as nat) == id {
            notify_list(chains[0].observers, live, amount, chain_asset(chains[0]))
        } else {
            Seq::empty()
        }) + chains_native_notes(chains.drop_first(), id, amount, live)
    }
}

pub proof fn lemma_chains_native_notes_push(
    chains: Seq<Layer1View>,
    id: Seq<char>,
    amount: u128,
    live: Set<u64>,
    c: Layer1View,
)
    ensures
        chains_native_notes(chains.push(c), id, amount, live) == chains_native_notes(
            chains,
            id,
            amount,
            live,
        ) + (if dec_str(c.chain_id as nat) == id {
            notify_list(c.observers, live, amount, chain_asset(c))
        } else {
            Seq::<NotificationView>::empty()
        }),
    decreases chains.len(),
{
    reveal_with_fuel(chains_native_notes, 3);
    if chains.len() == 0 {
        assert(chains.push(c)[0] == c);
        assert(chains.push(c).drop_first() =~= Seq::<Layer1View>::empty());
        assert(chains_native_notes(chains.push(c), id, amount, live) =~= chains_native_notes(
            chains,
            id,
            amount,
            live,
        ) + (if dec_str(c.chain_id as nat) == id {
            notify_list(c.observers, live, amount, chain_asset(c))
        } else {
            Seq::<NotificationView>::empty()
        }));
    } else {
        lemma_chains_native_notes_push(chains.drop_first(), id, amount, live, c);
        assert(chains.push(c).drop_first() =~= chains.drop_first().push(c));
        assert(chains.push(c)[0] == chains[0]);
        assert(chains_native_notes(chains.push(c), id, amount, live) =~= chains_native_notes(
            chains,
            id,
            amount,
            live,
        ) + (if dec_str(c.chain_id as nat) == id {
            notify_list(c.observers, live, amount, chain_asset(c))
        } else {
            Seq::<NotificationView>::empty()
        }));
    }
}

impl<A> Portfolio<A> where A: Account {
    /// Adds a token to the first chain whose identifier text is `chain_id`:
    /// nothing when no chain matches, otherwise the chain's answer.
    pub fn add_token(
        &mut self,
        chain_id: &str,
        address: String,
        symbol: String,
        decimals: Option<u32>,
        fetched: u128,
        dir: &ObserverDirectory,
    ) -> (r: Option<Result<(u32, Vec<Notification>), ChainError>>)
        ensures
            final(self).spec_owner() == old(self).spec_owner(),
            final(self).spec_default_observer() == old(self).spec_default_observer(),
            ({
                let chains = old(self).spec_chains();
                let i = first_chain_with_id(chains, chain_id@);
                match r {
                    None => i == chains.len() && final(self).spec_chains() == chains,
                    Some(Err(e)) => i < chains.len() && !valid_address_str(address@) && (
                    e matches ChainError::InvalidAddress(a) && a@ == address@)
                        && final(self).spec_chains() == chains,
                    Some(Ok((d, notes))) => i < chains.len() && valid_address_str(address@) && d
                        == (match decimals {
                        Some(x) => x,
                        None => chains[i].decimals,
                    }) && final(self).spec_chains() == chains.update(
                        i,
                        (Layer1View {
                            tokens: chains[i].tokens.push(
                                TokenView {
                                    address: address_str_bytes(address@),
                                    symbol: symbol@,
                                    decimals: d,
                                    observers: live_observers(
                                        chains[i].observers,
                                        dir.live_set(),
                                    ),
                                },
                            ),
                            ..chains[i]
                        }),
                    ) && notification_views(notes@) == notify_list(
                        chains[i].observers,
                        dir.live_set(),
                        fetched,
                        (AssetView {
                            identifier: address_str(address_str_bytes(address@)),
                            symbol: symbol@,
                            decimals: d,
                        }),
                    ),
                }
            }),
    {
        let ghost chains0 = self.spec_chains();
        let n = self.chains.len();
        let mut i: usize = 0;
        while i < n
            invariant
                n == self.chains@.len(),
                i <= n,
                chains0 == layer1_views(self.chains@),
                chains0 == old(self).spec_chains(),
                forall|j: int|
                    0 <= j < i ==> dec_str((#[trigger] chains0[j]).chain_id as nat) != chain_id@,
                self.spec_owner() == old(self).spec_owner(),
                self.spec_default_observer() == old(self).spec_default_observer(),
            decreases n - i,
        {
            let c_ref = &self.chains[i];
            let ident = c_ref.identifier();
            let matches_id = str_eq(ident.as_str(), chain_id);
            proof {
                assert(chains0[i as int] == self.chains@[i as int]@);
            }
            if matches_id {
                proof {
                    lemma_first_chain_with_id(chains0, chain_id@);
                }
                let ghost before = self.chains@;
                let mut c = self.chains.remove(i);
                let ghost c0 = c@;
                let out = c.add_token(address, symbol, decimals, fetched, dir);
                let ghost c1 = c@;
                self.chains.insert(i, c);
                proof {
                    assert(layer1_views(before) == chains0);
                    assert forall|k: int| 0 <= k < layer1_views(self.chains@).len() implies
                        layer1_views(self.chains@)[k] == chains0.update(i as int, c1)[k] by {
                        assert(layer1_views(self.chains@)[k] == self.chains@[k]@);
                        if k != i {
                            assert(self.chains@[k] == before[k]);
                            assert(layer1_views(before)[k] == before[k]@);
                        }
                    }
                    assert(layer1_views(self.chains@) =~= chains0.update(i as int, c1));
                    if out is Err {
                        assert(chains0.update(i as int, c1) =~= chains0);
                    }
                }
                return match out {
                    Ok((d, notes)) => Some(Ok((d, notes))),
                    Err(e) => Some(Err(e)),
                };
            }
            i = i + 1;
        }
        proof {
            lemma_first_chain_with_id(chains0, chain_id@);
        }
        None
    }

    /// Refreshes the native balance of every chain whose identifier text is
    /// `chain_id`, in collection order; other chains are untouched.
    pub fn update_chain_balance(
        &mut self,
        chain_id: &str,
        fetched: u128,
        dir: &ObserverDirectory,
    ) -> (r: Vec<Notification>)
        ensures
            final(self).spec_owner() == old(self).spec_owner(),
            final(self).spec_default_observer() == old(self).spec_default_observer(),
            final(self).spec_chains() == old(self).spec_chains().map_values(
                |c: Layer1View| native_refreshed_if(c, chain_id@, dir.live_set()),
            ),
            notification_views(r@) == chains_native_notes(
                old(self).spec_chains(),
                chain_id@,
                fetched,
                dir.live_set(),
            ),
    {
        let ghost whole = self.spec_chains();
        let ghost live = dir.live_set();
        let mut updated: Vec<Layer1> = Vec::new();
        let mut out: Vec<Notification> = Vec::new();
        let ghost mut done: int = 0;
        proof {
            assert(layer1_views(updated@) =~= Seq::<Layer1View>::empty());
            assert(whole.take(0).map_values(
                |c: Layer1View| native_refreshed_if(c, chain_id@, live),
            ) =~= Seq::<Layer1View>::empty());
            assert(whole.take(0) =~= Seq::<Layer1View>::empty());
            assert(notification_views(out@) =~= chains_native_notes(
                whole.take(0),
                chain_id@,
                fetched,
                live,
            ));
        }
        while self.chains.len() > 0
            invariant
                live == dir.live_set(),
                0 <= done <= whole.len(),
                layer1_views(self.chains@) == whole.skip(done),
                layer1_views(updated@) == whole.take(done).map_values(
                    |c: Layer1View| native_refreshed_if(c, chain_id@, live),
                ),
                notification_views(out@) == chains_native_notes(
                    whole.take(done),
                    chain_id@,
                    fetched,
                    live,
                ),
                self.spec_owner() == old(self).spec_owner(),
                self.spec_default_observer() == old(self).spec_default_observer(),
                whole == old(self).spec_chains(),
            decreases self.chains@.len(),
        {
            let ghost before_chains = self.chains@;
            let ghost prev_updated = updated@;
            let ghost prev_out = out@;
            let mut c = self.chains.remove(0);
            let ghost c_entering = c@;
            proof {
                assert(layer1_views(before_chains).len() == whole.skip(done).len());
                assert(done < whole.len());
                assert(layer1_views(before_chains)[0] == before_chains[0]@);
                assert(c_entering == whole.skip(done)[0]);
                assert(whole.skip(done)[0] == whole[done]);
            }
            let ident = c.identifier();
            if str_eq(ident.as_str(), chain_id) {
                let mut notes = c.update_balance(fetched, dir);
                out.append(&mut notes);
            }
            updated.push(c);
            proof {
                assert(self.chains@ == before_chains.remove(0));
                assert(before_chains.remove(0) =~= before_chains.skip(1));
                assert forall|k: int| 0 <= k < layer1_views(self.chains@).len() implies
                    layer1_views(self.chains@)[k] == whole.skip(done + 1)[k] by {
                    assert(layer1_views(self.chains@)[k] == self.chains@[k]@);
                    assert(self.chains@[k] == before_chains[k + 1]);
                    assert(layer1_views(before_chains)[k + 1] == before_chains[k + 1]@);
                    assert(layer1_views(before_chains)[k + 1] == whole.skip(done)[k + 1]);
                }
                assert(layer1_views(self.chains@) =~= whole.skip(done + 1));
                assert(updated@ =~= prev_updated.push(updated@.last()));
                assert(updated@.last()@ =~~= native_refreshed_if(whole[done], chain_id@, live));
                crate::text::lemma_map_push(
                    whole.take(done),
                    |cv: Layer1View| native_refreshed_if(cv, chain_id@, live),
                    whole[done],
                );
                crate::text::lemma_map_push(prev_updated, |ch: Layer1| ch@, updated@.last());
                assert(whole.take(done + 1) =~= whole.take(done).push(whole[done]));
                lemma_chains_native_notes_push(
                    whole.take(done),
                    chain_id@,
                    fetched,
                    live,
                    whole[done],
                );
                if dec_str(whole[done].chain_id as nat) == chain_id@ {
                    assert(notification_views(out@) =~= notification_views(prev_out)
                        + notify_list(whole[done].observers, live, fetched, chain_asset(
                        whole[done],
                    )));
                } else {
                    assert(notification_views(out@) =~= notification_views(prev_out));
                    assert(notification_views(prev_out) + Seq::<NotificationView>::empty()
                        =~= notification_views(prev_out));
                }
                done = done + 1;
            }
        }
        proof {
            assert(whole.take(whole.len() as int) =~= whole);
            assert(whole.skip(done) =~= Seq::<Layer1View>::empty());
            assert(done == whole.len());
        }
        self.chains = updated;
        out
    }
}

/// Index of the first token in `tokens` whose address text is `id`, or the
/// length if there is none.
pub open spec fn first_token_with_address(tokens: Seq<TokenView>, id: Seq<char>) -> int
    decreases tokens.len(),
{
    if tokens.len() == 0 {
        0
    } else if address_str(tokens[0].address) == id {
        0
    } else {
        1 + first_token_with_address(tokens.drop_first(), id)
    }
}

pub proof fn lemma_first_token_with_address(tokens: Seq<TokenView>, id: Seq<char>)
    ensures
        0 <= first_token_with_address(tokens, id) <= tokens.len(),
        first_token_with_address(tokens, id) < tokens.len() ==> address_str(
            tokens[first_token_with_address(tokens, id)].address,
        ) == id,
        forall|j: int|
            0 <= j < first_token_with_address(tokens, id) ==> address_str(
                (#[trigger] tokens[j]).address,
            ) != id,
        first_token_with_address(tokens, id) == tokens.len() <==> (forall|j: int|
            0 <= j < tokens.len() ==> address_str((#[trigger] tokens[j]).address) != id),
    decreases tokens.len(),
{
    if tokens.len() == 0 {
    } else if address_str(tokens[0].address) == id {
    } else {
        lemma_first_token_with_address(tokens.drop_first(), id);
        let f = first_token_with_address(tokens, id);
        assert(forall|j: int|
            1 <= j < tokens.len() ==> tokens[j] == tokens.drop_first()[j - 1]);
        if f < tokens.len() {
            assert(tokens[f] == tokens.drop_first()[f - 1]);
        }
    }
}

/// Whether some token owned by this chain has the address text `id`.
pub open spec fn chain_has_token(v: Layer1View, id: Seq<char>) -> bool {
    first_token_with_address(v.tokens, id) < v.tokens.len()
}

/// Index of the first chain owning a token with address text `id`, or the
/// length if there is none.
pub open spec fn first_chain_with_token(chains: Seq<Layer1View>, id: Seq<char>) -> int
    decreases chains.len(),
{
    if chains.len() == 0 {
        0
    } else if chain_has_token(chains[0], id) {
        0
    } else {
        1 + first_chain_with_token(chains.drop_first(), id)
    }
}

pub proof fn lemma_first_chain_with_token(chains: Seq<Layer1View>, id: Seq<char>)
    ensures
        0 <= first_chain_with_token(chains, id) <= chains.len(),
        first_chain_with_token(chains, id) < chains.len() ==> chain_has_token(
            chains[first_chain_with_token(chains, id)],
            id,
        ),
        forall|j: int|
            0 <= j < first_chain_with_token(chains, id) ==> !chain_has_token(
                #[trigger] chains[j],
                id,
            ),
        first_chain_with_token(chains, id) == chains.len() <==> (forall|j: int|
            0 <= j < chains.len() ==> !chain_has_token(#[trigger] chains[j], id)),
    decreases chains.len(),
{
    if chains.len() == 0 {
    } else if chain_has_token(chains[0], id) {
    } else {
        lemma_first_chain_with_token(chains.drop_first(), id);
        let f = first_chain_with_token(chains, id);
        assert(forall|j: int|
            1 <= j < chains.len() ==> chains[j] == chains.drop_first()[j - 1]);
        if f < chains.len() {
            assert(chains[f] == chains.drop_first()[f - 1]);
        }
    }
}

/// What a transfer identified by a chain id or a token address resolves to.
#[derive(Clone, Copy, Debug, PartialEq, Eq, Structural)]
pub enum TransferTarget {
    /// The chain at this position: a native-asset transfer.
    Chain(usize),
    /// The token at this position within the chain at the first position: a
    /// contract transfer.
    Token(usize, usize),
    /// No chain and no token matches the identifier.
    NotFound,
}

impl<A> Portfolio<A> where A: Account {
    /// The signing account, for mutation; chains are untouched.
    pub fn owner_mut(&mut self) -> (r: &mut A)
        ensures
            *r == old(self).spec_owner(),
            final(self).spec_owner() == *final(r),
            final(self).spec_chains() == old(self).spec_chains(),
            final(self).spec_default_observer() == old(self).spec_default_observer(),
    {
        &mut self.owner
    }

    /// Refreshes every token of the first chain whose identifier text is
    /// `chain_id`, in order, with the freshly fetched amounts; nothing when
    /// no chain matches.
    pub fn update_chain_tokens(
        &mut self,
        chain_id: &str,
        amounts: &Vec<u128>,
        dir: &ObserverDirectory,
    ) -> (r: Option<Vec<Notification>>)
        requires
            first_chain_with_id(old(self).spec_chains(), chain_id@) < old(
                self,
            ).spec_chains().len() ==> amounts@.len() == old(self).spec_chains()[first_chain_with_id(
                old(self).spec_chains(),
                chain_id@,
            )].tokens.len(),
        ensures
            final(self).spec_owner() == old(self).spec_owner(),
            final(self).spec_default_observer() == old(self).spec_default_observer(),
            ({
                let chains = old(self).spec_chains();
                let i = first_chain_with_id(chains, chain_id@);
                match r {
                    None => i == chains.len() && final(self).spec_chains() == chains,
                    Some(notes) => i < chains.len() && final(self).spec_chains() == chains.update(
                        i,
                        (Layer1View {
                            tokens: chains[i].tokens.map_values(
                                |t: TokenView| token_refreshed(t, dir.live_set()),
                            ),
                            ..chains[i]
                        }),
                    ) && notification_views(notes@) == tokens_refresh_notes(
                        chains[i].tokens,
                        amounts@,
                        dir.live_set(),
                    ),
                }
            }),
    {
        let ghost chains0 = self.spec_chains();
        let n = self.chains.len();
        let mut i: usize = 0;
        while i < n
            invariant
                n == self.chains@.len(),
                i <= n,
                chains0 == layer1_views(self.chains@),
                chains0 == old(self).spec_chains(),
                first_chain_with_id(chains0, chain_id@) < chains0.len() ==> amounts@.len()
                    == chains0[first_chain_with_id(chains0, chain_id@)].tokens.len(),
                forall|j: int|
                    0 <= j < i ==> dec_str((#[trigger] chains0[j]).chain_id as nat) != chain_id@,
                self.spec_owner() == old(self).spec_owner(),
                self.spec_default_observer() == old(self).spec_default_observer(),
            decreases n - i,
        {
            let c_ref = &self.chains[i];
            let ident = c_ref.identifier();
            let matches_id = crate::storage::str_eq(ident.as_str(), chain_id);
            proof {
                assert(chains0[i as int] == self.chains@[i as int]@);
            }
            if matches_id {
                proof {
                    lemma_first_chain_with_id(chains0, chain_id@);
                    assert(first_chain_with_id(chains0, chain_id@) == i);
                }
                let ghost before = self.chains@;
                let mut c = self.chains.remove(i);
                proof {
                    assert(c@ == chains0[i as int]);
                }
                let notes = c.update_token_balances(amounts, dir);
                let ghost c1 = c@;
                self.chains.insert(i, c);
                proof {
                    assert(layer1_views(before) == chains0);
                    assert forall|k: int| 0 <= k < layer1_views(self.chains@).len() implies
                        layer1_views(self.chains@)[k] == chains0.update(i as int, c1)[k] by {
                        assert(layer1_views(self.chains@)[k] == self.chains@[k]@);
                        if k != i {
                            assert(self.chains@[k] == before[k]);
                            assert(layer1_views(before)[k] == before[k]@);
                        }
                    }
                    assert(layer1_views(self.chains@) =~= chains0.update(i as int, c1));
                }
                return Some(notes);
            }
            i = i + 1;
        }
        proof {
            lemma_first_chain_with_id(chains0, chain_id@);
        }
        None
    }

    /// Resolves a transfer: the first chain whose identifier is `id`, or
    /// else the first token whose address text is `id`, or nothing.
    pub fn transfer_target(&self, id: &str) -> (r: TransferTarget)
        ensures
            ({
                let chains = self.spec_chains();
                let ci = first_chain_with_id(chains, id@);
                let ti = first_chain_with_token(chains, id@);
                match r {
                    TransferTarget::Chain(i) => ci < chains.len() && i == ci,
                    TransferTarget::Token(i, j) => ci == chains.len() && ti < chains.len() && i
                        == ti && j == first_token_with_address(chains[ti].tokens, id@),
                    TransferTarget::NotFound => ci == chains.len() && ti == chains.len(),
                }
            }),
    {
        let ghost chains = self.spec_chains();
        let n = self.chains.len();
        let mut i: usize = 0;
        while i < n
            invariant
                n == self.chains@.len(),
                i <= n,
                chains == layer1_views(self.chains@),
                chains == self.spec_chains(),
                forall|j: int|
                    0 <= j < i ==> dec_str((#[trigger] chains[j]).chain_id as nat) != id@,
            decreases n - i,
        {
            let c_ref = &self.chains[i];
            let ident = c_ref.identifier();
            proof {
                assert(chains[i as int] == self.chains@[i as int]@);
            }
            if str_eq(ident.as_str(), id) {
                proof {
                    lemma_first_chain_with_id(chains, id@);
                }
                return TransferTarget::Chain(i);
            }
            i = i + 1;
        }
        proof {
            lemma_first_chain_with_id(chains, id@);
        }
        let mut i: usize = 0;
        while i < n
            invariant
                n == self.chains@.len(),
                i <= n,
                chains == layer1_views(self.chains@),
                chains == self.spec_chains(),
                first_chain_with_id(chains, id@) == chains.len(),
                forall|j: int| 0 <= j < i ==> !chain_has_token(#[trigger] chains[j], id@),
            decreases n - i,
        {
            let c_ref = &self.chains[i];
            let toks = c_ref.tokens();
            proof {
                assert(chains[i as int] == self.chains@[i as int]@);
            }
            let ghost tviews = chains[i as int].tokens;
            let m = toks.len();
            let mut j: usize = 0;
            while j < m
                invariant
                    m == toks@.len(),
                    j <= m,
                    tviews == crate::layer1::token_views(toks@),
                    tviews == chains[i as int].tokens,
                    chains == self.spec_chains(),
                    i < chains.len(),
                    first_chain_with_id(chains, id@) == chains.len(),
                    forall|k: int| 0 <= k < i ==> !chain_has_token(#[trigger] chains[k], id@),
                    forall|k: int|
                        0 <= k < j ==> address_str((#[trigger] tviews[k]).address) != id@,
                decreases m - j,
            {
                let t_ref = &toks[j];
                let t_ident = t_ref.identifier();
                proof {
                    assert(tviews[j as int] == toks@[j as int]@);
                }
                if str_eq(t_ident.as_str(), id) {
                    proof {
                        lemma_first_token_with_address(tviews, id@);
                        lemma_first_chain_with_token(chains, id@);
                    }
                    return TransferTarget::Token(i, j);
                }
                j = j + 1;
            }
            proof {
                lemma_first_token_with_address(tviews, id@);
                assert(!chain_has_token(chains[i as int], id@));
            }
            i = i + 1;
        }
        proof {
            lemma_first_chain_with_token(chains, id@);
        }
        TransferTarget::NotFound
    }
}

} // verus!
