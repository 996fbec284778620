//! Shared chain-and-token vocabulary: errors, the asset-data traits, and the
//! balance-observer machinery.
//!
//! Observers are held weakly: a chain or token keeps only an opaque id, and
//! an `ObserverDirectory` says which ids are still alive. Notifying resolves
//! each id against the directory; dead ids are dropped from the holder's
//! list, and every live id receives a `Notification`.

use vstd::prelude::*;

verus! {

/// A recoverable chain-level error.
#[derive(Clone, Debug)]
pub enum ChainError {
    /// The given text does not parse as an address.
    InvalidAddress(String),
    /// The transaction produced no confirmation receipt.
    NoReceipt,
}

impl ChainError {
    /// A user-facing description of the error.
    pub fn message(&self) -> (r: String)
        ensures
            self is InvalidAddress ==> r@ == "Unable to parse the address"@,
            self is NoReceipt ==> r@ == "No transaction receipt. Dropped from mempool?"@,
    {
        match self {
            ChainError::InvalidAddress(_) => "Unable to parse the address".to_owned(),
            ChainError::NoReceipt => "No transaction receipt. Dropped from mempool?".to_owned(),
        }
    }
}

/// The outcome of an awaited transfer: a missing confirmation receipt is a
/// recoverable domain error, not a fatal one.
pub fn confirm_receipt(confirmed: bool) -> (r: Result<(), ChainError>)
    ensures
        r is Ok <==> confirmed,
        !confirmed ==> (r matches Err(e) && e is NoReceipt),
{
    if confirmed {
        Ok(())
    } else {
        Err(ChainError::NoReceipt)
    }
}

/// Ten to the `n`th power.
pub open spec fn pow10(n: nat) -> nat
    decreases n,
{
    if n == 0 {
        1
    } else {
        10 * pow10((n - 1) as nat)
    }
}

pub proof fn lemma_pow10_38()
    ensures
        pow10(38) == 100000000000000000000000000000000000000,
{
    reveal_with_fuel(pow10, 39);
}

pub proof fn lemma_pow10_monotonic(a: nat, b: nat)
    requires
        a <= b,
    ensures
        pow10(a) <= pow10(b),
    decreases b,
{
    if a < b {
        lemma_pow10_monotonic(a, (b - 1) as nat);
        assert(pow10(b) == 10 * pow10((b - 1) as nat));
    }
}

/// Ten to the `decimals`th power, as a machine integer.
pub fn pow10_u128(decimals: u32) -> (r: u128)
    requires
        decimals <= 38,
    ensures
        r == pow10(decimals as nat),
{
    let mut r: u128 = 1;
    let mut i: u32 = 0;
    proof {
        lemma_pow10_38();
        assert(pow10(38) < u128::MAX);
    }
    while i < decimals
        invariant
            i <= decimals <= 38,
            r == pow10(i as nat),
            pow10(38) < u128::MAX,
        decreases decimals - i,
    {
        proof {
            lemma_pow10_monotonic(i as nat + 1, 38);
        }
        r = r * 10;
        i = i + 1;
    }
    r
}

/// The displayed form of a raw amount: `raw / 10^decimals` whole units and
/// the remainder in smallest units. Conversion to display units happens only
/// here, at the presentation boundary.
pub fn displayed_amount(raw: u128, decimals: u32) -> (r: (u128, u128))
    requires
        decimals <= 38,
    ensures
        r.0 == raw as nat / pow10(decimals as nat),
        r.1 == raw as nat % pow10(decimals as nat),
{
    let denominator = pow10_u128(decimals);
    proof {
        lemma_pow10_monotonic(0, decimals as nat);
    }
    (raw / denominator, raw % denominator)
}

/// Data every asset (a chain's native asset or a token) exposes to its
/// observers.
pub trait TokenData: Sized {
    spec fn spec_symbol(&self) -> Seq<char>;

    spec fn spec_identifier(&self) -> Seq<char>;

    spec fn spec_decimals(&self) -> u32;

    fn symbol(&self) -> (r: String)
        ensures
            r@ == self.spec_symbol(),
    ;

    fn identifier(&self) -> (r: String)
        ensures
            r@ == self.spec_identifier(),
    ;

    fn decimals(&self) -> (r: u32)
        ensures
            r == self.spec_decimals(),
    ;

    /// The divisor converting a raw balance to display units.
    fn denomiator(&self) -> (r: u128)
        requires
            self.spec_decimals() <= 38,
        ensures
            r == pow10(self.spec_decimals() as nat),
    ;
}

/// The predicate "this observer id is not `observer`".
pub open spec fn not_observer(observer: u64) -> spec_fn(u64) -> bool {
    |x: u64| x != observer
}

/// `s` with every occurrence of `observer` removed, order kept.
pub open spec fn observers_without(s: Seq<u64>, observer: u64) -> Seq<u64> {
    s.filter(not_observer(observer))
}

/// Interactions every observable asset offers.
pub trait TokenInteractor: Sized {
    /// The weakly-held observer ids, in subscription order.
    spec fn spec_observers(&self) -> Seq<u64>;

    /// Appends a weak observer reference.
    fn subscribe(&mut self, observer: u64)
        ensures
            final(self).spec_observers() == old(self).spec_observers().push(observer),
    ;

    /// Removes every subscription of this observer.
    fn unsubscribe(&mut self, observer: u64)
        ensures
            final(self).spec_observers() == observers_without(
                old(self).spec_observers(),
                observer,
            ),
    ;
}

/// Rebuilds the observer list without `observer`, order kept.
pub fn remove_observer(observers: &mut Vec<u64>, observer: u64)
    ensures
        final(observers)@ == observers_without(old(observers)@, observer),
{
    let ghost p = not_observer(observer);
    let mut kept: Vec<u64> = Vec::new();
    let mut i: usize = 0;
    proof {
        assert(observers@.take(0) =~= Seq::<u64>::empty());
        assert(Seq::<u64>::empty().filter(p) =~= Seq::<u64>::empty());
        assert(kept@ =~= Seq::<u64>::empty());
    }
    while i < observers.len()
        invariant
            p == not_observer(observer),
            i <= observers@.len(),
            kept@ == observers@.take(i as int).filter(p),
        decreases observers@.len() - i,
    {
        let x = observers[i];
        let ghost prev = kept@;
        if x != observer {
            kept.push(x);
        }
        i = i + 1;
        proof {
            let whole = observers@;
            assert(whole.take(i - 1) + seq![whole[i - 1]] =~= whole.take(i as int));
            Seq::filter_distributes_over_add(whole.take(i - 1), seq![whole[i - 1]], p);
            crate::storage::lemma_filter_one(whole[i - 1], p);
            if x != observer {
                assert(kept@ =~= prev + seq![whole[i - 1]]);
            } else {
                assert(kept@ =~= prev + Seq::<u64>::empty());
            }
        }
    }
    proof {
        assert(observers@.take(observers@.len() as int) =~= observers@);
    }
    *observers = kept;
}

/// The registry of live observers. A subscription stores only the observer's
/// id; whether the observer still exists is decided here, at notify time.
pub struct ObserverDirectory {
    next: u64,
    live: Vec<u64>,
}

impl ObserverDirectory {
    /// The ids of the observers still alive.
    pub closed spec fn live_set(&self) -> Set<u64> {
        self.live@.to_set()
    }

    /// The next id to hand out.
    pub closed spec fn next_id(&self) -> u64 {
        self.next
    }

    /// Every live id was handed out before `next`.
    pub closed spec fn wf(&self) -> bool {
        forall|i: int| 0 <= i < self.live@.len() ==> self.live@[i] < self.next
    }

    pub fn new() -> (r: ObserverDirectory)
        ensures
            r.wf(),
            r.live_set() == Set::<u64>::empty(),
            r.next_id() == 0,
    {
        let r = ObserverDirectory { next: 0, live: Vec::new() };
        proof {
            assert(r.live_set() =~= Set::<u64>::empty());
        }
        r
    }

    /// Registers a new observer and returns its fresh id.
    pub fn register(&mut self) -> (id: u64)
        requires
            old(self).wf(),
            old(self).next_id() < u64::MAX,
        ensures
            final(self).wf(),
            !old(self).live_set().contains(id),
            final(self).live_set() == old(self).live_set().insert(id),
            final(self).next_id() == old(self).next_id() + 1,
    {
        let id = self.next;
        self.next = self.next + 1;
        let ghost prev = self.live@;
        self.live.push(id);
        proof {
            assert(!prev.contains(id));
            assert(self.live@.contains(id)) by {
                assert(self.live@[self.live@.len() - 1] == id);
            }
            assert(forall|x: u64| prev.contains(x) ==> self.live@.contains(x)) by {
                assert(forall|i: int|
                    0 <= i < prev.len() ==> self.live@[i] == prev[i]);
            }
            assert(forall|x: u64| self.live@.contains(x) && x != id ==> prev.contains(x)) by {
                assert(forall|i: int|
                    0 <= i < prev.len() ==> self.live@[i] == prev[i]);
            }
            assert(self.live_set() =~= prev.to_set().insert(id));
        }
        id
    }

    /// Ends an observer's life: the id resolves no more.
    pub fn drop_observer(&mut self, id: u64)
        requires
            old(self).wf(),
        ensures
            final(self).wf(),
            final(self).live_set() == old(self).live_set().remove(id),
            final(self).next_id() == old(self).next_id(),
    {
        let mut kept: Vec<u64> = Vec::new();
        let mut i: usize = 0;
        while i < self.live.len()
            invariant
                i <= self.live@.len(),
                forall|k: int| 0 <= k < kept@.len() ==> self.live@.contains(#[trigger] kept@[k])
                    && kept@[k] != id,
                forall|j: int|
                    0 <= j < i && self.live@[j] != id ==> kept@.contains(#[trigger] self.live@[j]),
            decreases self.live@.len() - i,
        {
            let x = self.live[i];
            let ghost prev_kept = kept@;
            if x != id {
                kept.push(x);
            }
            i = i + 1;
            proof {
                assert(forall|k: int| 0 <= k < prev_kept.len() ==> kept@[k] == prev_kept[k]);
                if x != id {
                    assert(kept@[kept@.len() - 1] == x);
                }
                assert(forall|j: int|
                    0 <= j < i && self.live@[j] != id ==> kept@.contains(
                        #[trigger] self.live@[j],
                    )) by {
                    assert(forall|j: int|
                        0 <= j < i - 1 && self.live@[j] != id ==> prev_kept.contains(
                            #[trigger] self.live@[j],
                        ));
                    assert(forall|k: int|
                        0 <= k < prev_kept.len() && prev_kept.contains(#[trigger] prev_kept[k])
                            ==> kept@.contains(prev_kept[k]));
                }
            }
        }
        proof {
            assert(kept@.to_set() =~= self.live@.to_set().remove(id));
        }
        self.live = kept;
    }

    /// Whether the observer with this id is still alive.
    pub fn is_live(&self, id: u64) -> (r: bool)
        ensures
            r == self.live_set().contains(id),
    {
        let mut i: usize = 0;
        while i < self.live.len()
            invariant
                i <= self.live@.len(),
                forall|j: int| 0 <= j < i ==> self.live@[j] != id,
            decreases self.live@.len() - i,
        {
            if self.live[i] == id {
                return true;
            }
            i = i + 1;
        }
        proof {
            assert(!self.live@.contains(id));
        }
        false
    }
}

/// The read-only snapshot of an asset handed to observers with each update.
#[derive(Debug)]
pub struct AssetInfo {
    pub identifier: String,
    pub symbol: String,
    pub decimals: u32,
}

/// The mathematical view of an `AssetInfo`.
#[verifier::ext_equal]
pub struct AssetView {
    pub identifier: Seq<char>,
    pub symbol: Seq<char>,
    pub decimals: u32,
}

impl View for AssetInfo {
    type V = AssetView;

    open spec fn view(&self) -> AssetView {
        AssetView { identifier: self.identifier@, symbol: self.symbol@, decimals: self.decimals }
    }
}

impl Clone for AssetInfo {
    fn clone(&self) -> (r: Self)
        ensures
            r@ == self@,
    {
        AssetInfo {
            identifier: self.identifier.clone(),
            symbol: self.symbol.clone(),
            decimals: self.decimals,
        }
    }
}

impl TokenData for AssetInfo {
    open spec fn spec_symbol(&self) -> Seq<char> {
        self@.symbol
    }

    open spec fn spec_identifier(&self) -> Seq<char> {
        self@.identifier
    }

    open spec fn spec_decimals(&self) -> u32 {
        self.decimals
    }

    fn symbol(&self) -> (r: String)
        ensures
            r@ == self.spec_symbol(),
    {
        self.symbol.clone()
    }

    fn identifier(&self) -> (r: String)
        ensures
            r@ == self.spec_identifier(),
    {
        self.identifier.clone()
    }

    fn decimals(&self) -> (r: u32)
        ensures
            r == self.spec_decimals(),
    {
        self.decimals
    }

    fn denomiator(&self) -> (r: u128) {
        pow10_u128(self.decimals)
    }
}

/// One delivered balance update: which observer, the raw amount in smallest
/// units, and the asset it concerns.
#[derive(Debug)]
pub struct Notification {
    pub observer: u64,
    pub amount: u128,
    pub asset: AssetInfo,
}

/// The mathematical view of a `Notification`.
#[verifier::ext_equal]
pub struct NotificationView {
    pub observer: u64,
    pub amount: u128,
    pub asset: AssetView,
}

impl View for Notification {
    type V = NotificationView;

    open spec fn view(&self) -> NotificationView {
        NotificationView { observer: self.observer, amount: self.amount, asset: self.asset@ }
    }
}

/// The views of a vector of notifications.
pub open spec fn notification_views(s: Seq<Notification>) -> Seq<NotificationView> {
    s.map_values(|n: Notification| n@)
}

/// The predicate "this observer id is alive in `live`".
pub open spec fn live_pred(live: Set<u64>) -> spec_fn(u64) -> bool {
    |o: u64| live.contains(o)
}

/// The observer ids of `observers` that are alive in `live`, in order.
pub open spec fn live_observers(observers: Seq<u64>, live: Set<u64>) -> Seq<u64> {
    observers.filter(live_pred(live))
}

/// The function mapping an observer id to its delivery of `amount` for
/// `asset`.
pub open spec fn to_notification(amount: u128, asset: AssetView) -> spec_fn(u64) -> NotificationView {
    |o: u64| NotificationView { observer: o, amount, asset }
}

/// The notifications that updating an asset to `amount` delivers: one per
/// live observer, in subscription order.
pub open spec fn notify_list(
    observers: Seq<u64>,
    live: Set<u64>,
    amount: u128,
    asset: AssetView,
) -> Seq<NotificationView> {
    live_observers(observers, live).map_values(to_notification(amount, asset))
}

/// Resolves each observer id: live ids get one notification each, in order;
/// dead ids are dropped from the list.
pub fn notify_observers(
    observers: &mut Vec<u64>,
    dir: &ObserverDirectory,
    amount: u128,
    asset: &AssetInfo,
) -> (r: Vec<Notification>)
    ensures
        final(observers)@ == live_observers(old(observers)@, dir.live_set()),
        notification_views(r@) == notify_list(old(observers)@, dir.live_set(), amount, asset@),
{
    let ghost p = live_pred(dir.live_set());
    let ghost f = to_notification(amount, asset@);
    let mut kept: Vec<u64> = Vec::new();
    let mut out: Vec<Notification> = Vec::new();
    let mut i: usize = 0;
    proof {
        assert(old(observers)@.take(0) =~= Seq::<u64>::empty());
        assert(Seq::<u64>::empty().filter(p) =~= Seq::<u64>::empty());
        assert(kept@ =~= Seq::<u64>::empty());
        assert(notification_views(out@) =~= Seq::<u64>::empty().map_values(f));
    }
    while i < observers.len()
        invariant
            p == live_pred(dir.live_set()),
            f == to_notification(amount, asset@),
            i <= observers@.len(),
            kept@ == observers@.take(i as int).filter(p),
            notification_views(out@) == kept@.map_values(f),
        decreases observers@.len() - i,
    {
        let o = observers[i];
        let ghost prev_kept = kept@;
        let ghost prev_out = out@;
        if dir.is_live(o) {
            kept.push(o);
            out.push(Notification { observer: o, amount, asset: asset.clone() });
        }
        i = i + 1;
        proof {
            let whole = observers@;
            assert(whole.take(i - 1) + seq![whole[i - 1]] =~= whole.take(i as int));
            Seq::filter_distributes_over_add(whole.take(i - 1), seq![whole[i - 1]], p);
            crate::storage::lemma_filter_one(whole[i - 1], p);
            if p(whole[i - 1]) {
                let w = whole[i - 1];
                assert(kept@ =~= prev_kept.push(w));
                assert(prev_kept + seq![w] =~= prev_kept.push(w));
                assert(out@ =~= prev_out.push(out@.last()));
                assert(out@.last()@ =~~= f(w));
                crate::text::lemma_map_push(prev_out, |n: Notification| n@, out@.last());
                crate::text::lemma_map_push(prev_kept, f, w);
                assert(notification_views(out@) == notification_views(prev_out).push(
                    out@.last()@,
                ));
                assert(notification_views(out@) == kept@.map_values(f));
            } else {
                assert(kept@ =~= prev_kept + Seq::<u64>::empty());
                assert(notification_views(out@) =~~= kept@.map_values(f));
            }
        }
    }
    proof {
        assert(observers@.take(observers@.len() as int) =~= observers@);
    }
    *observers = kept;
    out
}

/// Law: a subscription placed before an asset exists still reaches it. An
/// observer appended to a holder's list is among the live observers of any
/// list that copies it, and the notifications of the next update include one
/// delivery to that observer, with exactly the updated amount and asset.
pub proof fn lemma_subscription_is_notified(
    observers: Seq<u64>,
    o: u64,
    live: Set<u64>,
    amount: u128,
    asset: AssetView,
)
    requires
        live.contains(o),
    ensures
        live_observers(observers.push(o), live).contains(o),
        notify_list(observers.push(o), live, amount, asset).contains(
            NotificationView { observer: o, amount, asset },
        ),
{
    let s = observers.push(o);
    let p = live_pred(live);
    assert(p(s[s.len() - 1]));
    s.lemma_filter_contains(p, s.len() - 1);
    assert(live_observers(s, live).contains(o));
    let filtered = live_observers(s, live);
    let j = choose|j: int| 0 <= j < filtered.len() && filtered[j] == o;
    let mapped = notify_list(s, live, amount, asset);
    assert(mapped[j] == to_notification(amount, asset)(filtered[j]));
    assert(mapped[j] == NotificationView { observer: o, amount, asset });
}

} // verus!
