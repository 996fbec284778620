//! The wallet: binds the credential vault, the signing account and the
//! portfolio, and persists the chain and token lists.

use crate::account::{Account, AccountIdentifier, Credentials};
use crate::address::address_str;
use crate::chain::{pow10_u128, ChainError, Notification, ObserverDirectory, TokenData};
use crate::chain_metadata::ChainsMetadata;
use crate::layer1::{Layer1, Layer1View};
use crate::account::SigningAccount;
use crate::portfolio::{first_chain_with_id, Portfolio};
use crate::storage::Storage;
use crate::text::{dec_str, decode_list, decode_list_spec, encode_list, join_semi};
use crate::token::TokenView;
use crate::vault::{vault_read, KeyChain, VaultError};
use vstd::prelude::*;

verus! {

/// A recoverable wallet-level error.
#[derive(Clone, Debug)]
pub enum WalletError {
    /// No signing key has been derived yet.
    NotInitialized,
    /// No owned chain has the given identifier.
    ChainNotFound(String),
    /// A chain refused the operation.
    Chain(ChainError),
}

impl WalletError {
    /// A user-facing description of the error.
    pub fn message(&self) -> (r: String)
        ensures
            self is NotInitialized ==> r@ == "Wallet not initialized!"@,
            self is ChainNotFound ==> r@ == "Chain id not found"@,
    {
        match self {
            WalletError::NotInitialized => "Wallet not initialized!".to_owned(),
            WalletError::ChainNotFound(_) => "Chain id not found".to_owned(),
            WalletError::Chain(e) => e.message(),
        }
    }
}

/// Types with a canonical account address.
pub trait WalletRepresentation {
    /// The address text this value stands for.
    spec fn spec_get_address(&self) -> Seq<char>;

    fn get_address(&self) -> (r: String)
        ensures
            r@ == self.spec_get_address(),
    ;
}

/// The storage key holding the encrypted secret phrase of an account.
pub open spec fn seed_phrase_key_of(id: Seq<char>) -> Seq<char> {
    id + "_$SEED_PHRASE"@
}

/// The storage key holding an account's stored endpoint list.
pub open spec fn rpcs_key_of(id: Seq<char>) -> Seq<char> {
    id + "_$RPCS"@
}

/// The storage key holding an account's stored token list for one chain.
pub open spec fn tokens_key_of(id: Seq<char>, chain_id: Seq<char>) -> Seq<char> {
    id + "_"@ + chain_id + "_$TOKENS"@
}

/// Appending one suffix to two texts keeps them apart: the key namespaces of
/// different accounts do not collide.
pub proof fn lemma_append_suffix_injective(a: Seq<char>, b: Seq<char>, suffix: Seq<char>)
    requires
        a + suffix == b + suffix,
    ensures
        a == b,
{
    assert((a + suffix).len() == a.len() + suffix.len());
    assert((b + suffix).len() == b.len() + suffix.len());
    assert(a.len() == b.len());
    assert forall|i: int| 0 <= i < a.len() implies a[i] == b[i] by {
        assert((a + suffix)[i] == a[i]);
        assert((b + suffix)[i] == b[i]);
    }
    assert(a =~= b);
}

/// The key under which an account's secret phrase is vaulted.
pub fn seed_phrase_key(account_id: &str) -> (r: String)
    ensures
        r@ == seed_phrase_key_of(account_id@),
{
    let mut key = account_id.to_owned();
    key.append("_$SEED_PHRASE");
    key
}

/// The key under which an account's endpoint list is stored.
pub fn rpcs_key(account_identifier: &AccountIdentifier) -> (r: String)
    ensures
        r@ == rpcs_key_of(account_identifier.id@),
{
    let mut key = account_identifier.id.clone();
    key.append("_$RPCS");
    key
}

/// The key under which an account's token list for one chain is stored.
pub fn tokens_key(account_identifier: &AccountIdentifier, chain_id: &str) -> (r: String)
    ensures
        r@ == tokens_key_of(account_identifier.id@, chain_id@),
{
    let mut key = account_identifier.id.clone();
    key.append("_");
    key.append(chain_id);
    key.append("_$TOKENS");
    proof {
        assert(key@ =~= tokens_key_of(account_identifier.id@, chain_id@));
    }
    key
}

impl<T> Credentials for KeyChain<T> where T: Storage {
    open spec fn spec_seed_phrase(&self, id: Seq<char>) -> Result<Option<Seq<char>>, VaultError> {
        vault_read(self.contents(), self.password(), seed_phrase_key_of(id))
    }

    fn get_seed_phrase(&self, account_identifier: &AccountIdentifier) -> (r: Result<
        Option<String>,
        VaultError,
    >) {
        let key = seed_phrase_key(account_identifier.id.as_str());
        self.get_decrypted(key.as_str())
    }

    fn save_seed_phrase(&mut self, account_identifier: &AccountIdentifier, seed_phrase: &str) {
        let key = seed_phrase_key(account_identifier.id.as_str());
        self.set(key.as_str(), seed_phrase);
        proof {
            assert forall|other: Seq<char>| other != account_identifier.id@ implies #[trigger]
            final(self).spec_seed_phrase(other) == old(self).spec_seed_phrase(other) by {
                if seed_phrase_key_of(other) == seed_phrase_key_of(account_identifier.id@) {
                    lemma_append_suffix_injective(
                        other,
                        account_identifier.id@,
                        "_$SEED_PHRASE"@,
                    );
                }
            }
        }
    }
}

/// An immutable, serializable snapshot of a token's observable state.
#[derive(Debug)]
pub struct TokenDescriptor {
    pub contract_address: String,
    pub symbol: String,
    pub decimals: u32,
}

/// The mathematical view of a `TokenDescriptor`.
#[verifier::ext_equal]
pub struct TokenDescView {
    pub contract_address: Seq<char>,
    pub symbol: Seq<char>,
    pub decimals: u32,
}

impl View for TokenDescriptor {
    type V = TokenDescView;

    open spec fn view(&self) -> TokenDescView {
        TokenDescView {
            contract_address: self.contract_address@,
            symbol: self.symbol@,
            decimals: self.decimals,
        }
    }
}

impl Clone for TokenDescriptor {
    fn clone(&self) -> (r: Self)
        ensures
            r@ == self@,
    {
        TokenDescriptor {
            contract_address: self.contract_address.clone(),
            symbol: self.symbol.clone(),
            decimals: self.decimals,
        }
    }
}

/// The views of a vector of token descriptors.
pub open spec fn token_desc_views(s: Seq<TokenDescriptor>) -> Seq<TokenDescView> {
    s.map_values(|t: TokenDescriptor| t@)
}

/// An immutable, serializable snapshot of a chain's observable state,
/// nested token snapshots included.
#[derive(Debug)]
pub struct ChainDescriptor {
    pub id: String,
    pub symbol: String,
    pub rpc: String,
    pub decimals: u32,
    pub tokens: Vec<TokenDescriptor>,
}

/// The mathematical view of a `ChainDescriptor`.
#[verifier::ext_equal]
pub struct ChainDescView {
    pub id: Seq<char>,
    pub symbol: Seq<char>,
    pub rpc: Seq<char>,
    pub decimals: u32,
    pub tokens: Seq<TokenDescView>,
}

impl View for ChainDescriptor {
    type V = ChainDescView;

    open spec fn view(&self) -> ChainDescView {
        ChainDescView {
            id: self.id@,
            symbol: self.symbol@,
            rpc: self.rpc@,
            decimals: self.decimals,
            tokens: token_desc_views(self.tokens@),
        }
    }
}

impl Clone for ChainDescriptor {
    fn clone(&self) -> (r: Self)
        ensures
            r@ == self@,
    {
        let mut tokens: Vec<TokenDescriptor> = Vec::new();
        let mut i: usize = 0;
        while i < self.tokens.len()
            invariant
                i <= self.tokens@.len(),
                token_desc_views(tokens@) == token_desc_views(self.tokens@).take(i as int),
            decreases self.tokens@.len() - i,
        {
            let ghost prev = tokens@;
            tokens.push(self.tokens[i].clone());
            i = i + 1;
            proof {
                crate::text::lemma_map_push(prev, |t: TokenDescriptor| t@, tokens@.last());
                assert(tokens@ =~= prev.push(tokens@.last()));
                assert(token_desc_views(tokens@) =~= token_desc_views(self.tokens@).take(
                    i as int,
                ));
            }
        }
        proof {
            assert(token_desc_views(self.tokens@).take(self.tokens@.len() as int)
                =~= token_desc_views(self.tokens@));
        }
        let r = ChainDescriptor {
            id: self.id.clone(),
            symbol: self.symbol.clone(),
            rpc: self.rpc.clone(),
            decimals: self.decimals,
            tokens,
        };
        proof {
            assert(r@ =~~= self@);
        }
        r
    }
}

/// The views of a vector of chain descriptors.
pub open spec fn chain_desc_views(s: Seq<ChainDescriptor>) -> Seq<ChainDescView> {
    s.map_values(|c: ChainDescriptor| c@)
}

impl TokenData for TokenDescriptor {
    open spec fn spec_symbol(&self) -> Seq<char> {
        self@.symbol
    }

    open spec fn spec_identifier(&self) -> Seq<char> {
        self@.contract_address
    }

    open spec fn spec_decimals(&self) -> u32 {
        self.decimals
    }

    fn symbol(&self) -> (r: String) {
        self.symbol.clone()
    }

    fn identifier(&self) -> (r: String) {
        self.contract_address.clone()
    }

    fn decimals(&self) -> (r: u32) {
        self.decimals
    }

    fn denomiator(&self) -> (r: u128) {
        pow10_u128(self.decimals)
    }
}

impl TokenData for ChainDescriptor {
    open spec fn spec_symbol(&self) -> Seq<char> {
        self@.symbol
    }

    open spec fn spec_identifier(&self) -> Seq<char> {
        self@.id
    }

    open spec fn spec_decimals(&self) -> u32 {
        self.decimals
    }

    fn symbol(&self) -> (r: String) {
        self.symbol.clone()
    }

    fn identifier(&self) -> (r: String) {
        self.id.clone()
    }

    fn decimals(&self) -> (r: u32) {
        self.decimals
    }

    fn denomiator(&self) -> (r: u128) {
        pow10_u128(self.decimals)
    }
}

/// The descriptor snapshot of one token.
pub open spec fn token_desc_of(t: TokenView) -> TokenDescView {
    TokenDescView {
        contract_address: address_str(t.address),
        symbol: t.symbol,
        decimals: t.decimals,
    }
}

/// The descriptor snapshot of one chain, nested token snapshots included.
pub open spec fn chain_desc_of(c: Layer1View) -> ChainDescView {
    ChainDescView {
        id: dec_str(c.chain_id as nat),
        symbol: c.symbol,
        rpc: c.rpc,
        decimals: c.decimals,
        tokens: c.tokens.map_values(|t: TokenView| token_desc_of(t)),
    }
}

/// The descriptor snapshots of a chain collection, in collection order.
pub open spec fn descriptors_of(chains: Seq<Layer1View>) -> Seq<ChainDescView> {
    chains.map_values(|c: Layer1View| chain_desc_of(c))
}

/// The endpoint list stored for an account, decoded.
pub open spec fn stored_rpcs_spec(m: Map<Seq<char>, Seq<char>>, id: Seq<char>) -> Seq<Seq<char>> {
    if m.contains_key(rpcs_key_of(id)) {
        decode_list_spec(m[rpcs_key_of(id)])
    } else {
        Seq::empty()
    }
}

/// The descriptor snapshots of one chain's tokens.
fn token_descs_of_chain(c: &Layer1) -> (r: Vec<TokenDescriptor>)
    ensures
        token_desc_views(r@) == c@.tokens.map_values(|t: TokenView| token_desc_of(t)),
{
    let ghost f = |t: TokenView| token_desc_of(t);
    let toks = c.tokens();
    let ghost tviews = c@.tokens;
    let mut r: Vec<TokenDescriptor> = Vec::new();
    let mut j: usize = 0;
    proof {
        assert(token_desc_views(r@) =~= tviews.take(0).map_values(f));
    }
    while j < toks.len()
        invariant
            f == (|t: TokenView| token_desc_of(t)),
            j <= toks@.len(),
            tviews == crate::layer1::token_views(toks@),
            tviews == c@.tokens,
            token_desc_views(r@) == tviews.take(j as int).map_values(f),
        decreases toks@.len() - j,
    {
        let t = &toks[j];
        let ghost prev = r@;
        let desc = TokenDescriptor {
            contract_address: t.identifier(),
            symbol: t.symbol(),
            decimals: t.decimals(),
        };
        r.push(desc);
        j = j + 1;
        proof {
            assert(tviews[j - 1] == toks@[j - 1]@);
            assert(r@.last()@ =~~= f(tviews[j - 1]));
            crate::text::lemma_map_push(prev, |d: TokenDescriptor| d@, r@.last());
            assert(r@ =~= prev.push(r@.last()));
            crate::text::lemma_map_push(tviews.take(j - 1), f, tviews[j - 1]);
            assert(tviews.take(j as int) =~= tviews.take(j - 1).push(tviews[j - 1]));
            assert(token_desc_views(r@) =~= tviews.take(j as int).map_values(f));
        }
    }
    proof {
        assert(tviews.take(tviews.len() as int) =~= tviews);
    }
    r
}

/// The descriptor snapshot of one chain.
fn chain_desc_of_chain(c: &Layer1) -> (r: ChainDescriptor)
    ensures
        r@ == chain_desc_of(c@),
{
    let tokens = token_descs_of_chain(c);
    let r = ChainDescriptor {
        id: c.identifier(),
        symbol: c.symbol(),
        rpc: c.rpc().clone(),
        decimals: c.decimals(),
        tokens,
    };
    proof {
        assert(r@ =~~= chain_desc_of(c@));
    }
    r
}

/// Binds the credential vault, the signing account and the portfolio for one
/// account, and persists its chain and token lists.
pub struct Wallet<C, S> where C: Credentials, S: Storage {
    local_base_url: String,
    account_identifier: AccountIdentifier,
    portfolio: Portfolio<SigningAccount<C>>,
    storage: S,
    chains_metadata: ChainsMetadata,
    erc_20_contract_source: Option<String>,
}

impl<C, S> Wallet<C, S> where C: Credentials, S: Storage {
    /// The account's identifier text.
    pub closed spec fn spec_identifier(&self) -> Seq<char> {
        self.account_identifier.id@
    }

    /// The portfolio of owned chains.
    pub closed spec fn spec_portfolio(&self) -> Portfolio<SigningAccount<C>> {
        self.portfolio
    }

    /// The persistence backend for endpoint and token lists.
    pub closed spec fn spec_storage(&self) -> S {
        self.storage
    }

    /// The chain-metadata table.
    pub closed spec fn spec_metadata(&self) -> ChainsMetadata {
        self.chains_metadata
    }

    /// The contract interface source, once fetched.
    pub closed spec fn spec_erc20_source(&self) -> Option<Seq<char>> {
        match self.erc_20_contract_source {
            Some(s) => Some(s@),
            None => None,
        }
    }

    /// Where the hosting application serves its documents.
    pub closed spec fn spec_base_url(&self) -> Seq<char> {
        self.local_base_url@
    }

    /// The owned chains, most recently added first.
    pub open spec fn spec_chains(&self) -> Seq<Layer1View> {
        self.spec_portfolio().spec_chains()
    }

    /// The signing account.
    pub open spec fn spec_account(&self) -> SigningAccount<C> {
        self.spec_portfolio().spec_owner()
    }

    /// The stored key-value map backing endpoint and token persistence.
    pub open spec fn spec_contents(&self) -> Map<Seq<char>, Seq<char>> {
        self.spec_storage().contents()
    }

    pub fn new(
        local_base_url: String,
        account_name: &str,
        keychain: C,
        storage: S,
        observer: Option<u64>,
    ) -> (r: Self)
        ensures
            r.spec_identifier() == account_name@,
            r.spec_base_url() == local_base_url@,
            r.spec_chains() == Seq::<Layer1View>::empty(),
            r.spec_account().spec_identifier() == account_name@,
            r.spec_account().key_addresses() == Seq::<Seq<u8>>::empty(),
            r.spec_account().spec_credentials() == keychain,
            r.spec_portfolio().spec_default_observer() == observer,
            !r.spec_metadata().spec_loaded(),
            r.spec_metadata().spec_url() == "https://chainid.network/chains.json"@,
            r.spec_contents() == storage.contents(),
            r.spec_erc20_source() is None,
    {
        let account_identifier = AccountIdentifier { id: account_name.to_owned() };
        let chains_metadata = ChainsMetadata::new(
            "https://chainid.network/chains.json".to_owned(),
        );
        let account = SigningAccount::new(&account_identifier, keychain);
        let portfolio = Portfolio::new(account, observer);
        Wallet {
            local_base_url,
            account_identifier,
            portfolio,
            storage,
            chains_metadata,
            erc_20_contract_source: None,
        }
    }

    /// The account's identity.
    pub fn account_identifier(&self) -> (r: AccountIdentifier)
        ensures
            r.id@ == self.spec_identifier(),
    {
        self.account_identifier.clone()
    }

    /// The chain-metadata table, for lookups.
    pub fn chains_metadata(&self) -> (r: &ChainsMetadata)
        ensures
            *r == self.spec_metadata(),
    {
        &self.chains_metadata
    }

    /// The chain-metadata table, for the fetcher to populate; everything
    /// else is untouched.
    pub fn chains_metadata_mut(&mut self) -> (r: &mut ChainsMetadata)
        ensures
            *r == old(self).spec_metadata(),
            final(self).spec_metadata() == *final(r),
            final(self).spec_identifier() == old(self).spec_identifier(),
            final(self).spec_portfolio() == old(self).spec_portfolio(),
            final(self).spec_storage() == old(self).spec_storage(),
            final(self).spec_erc20_source() == old(self).spec_erc20_source(),
            final(self).spec_base_url() == old(self).spec_base_url(),
    {
        &mut self.chains_metadata
    }

    /// Installs the fetched contract-interface source; everything else is
    /// untouched.
    pub fn set_erc20_source(&mut self, source: String)
        ensures
            final(self).spec_erc20_source() == Some(source@),
            final(self).spec_identifier() == old(self).spec_identifier(),
            final(self).spec_portfolio() == old(self).spec_portfolio(),
            final(self).spec_storage() == old(self).spec_storage(),
            final(self).spec_metadata() == old(self).spec_metadata(),
            final(self).spec_base_url() == old(self).spec_base_url(),
    {
        self.erc_20_contract_source = Some(source);
    }

    /// The contract-interface source, once fetched.
    pub fn erc_20_contract_source(&self) -> (r: &Option<String>)
        ensures
            match r {
                Some(s) => self.spec_erc20_source() == Some(s@),
                None => self.spec_erc20_source() is None,
            },
    {
        &self.erc_20_contract_source
    }

    /// Derives the signing key from the stored phrase: succeeds exactly when
    /// the phrase is present, valid and the derivation goes through; says
    /// otherwise which step refused.
    pub fn create_wallet(&mut self) -> (r: Result<(), crate::account::PhraseError>)
        ensures
            final(self).spec_identifier() == old(self).spec_identifier(),
            final(self).spec_storage() == old(self).spec_storage(),
            final(self).spec_account().spec_identifier() == old(
                self,
            ).spec_account().spec_identifier(),
            final(self).spec_account().spec_credentials() == old(
                self,
            ).spec_account().spec_credentials(),
            final(self).spec_chains() == old(self).spec_chains(),
            r is Ok <==> old(self).spec_account().create_ready() && old(
                self,
            ).spec_account().pending_derivation_ok(),
            r is Ok ==> final(self).spec_account().key_addresses() == old(self).spec_account().key_addresses().push(
                old(self).spec_account().pending_address(),
            ),
            r is Err ==> final(self).spec_account().key_addresses() == old(
                self,
            ).spec_account().key_addresses(),
            r == Err::<(), crate::account::PhraseError>(crate::account::PhraseError::Missing)
                ==> old(self).spec_account().spec_phrase() == Ok::<Option<Seq<char>>, VaultError>(
                None,
            ),
            r == Err::<(), crate::account::PhraseError>(
                crate::account::PhraseError::Undecryptable,
            ) ==> old(self).spec_account().spec_phrase() is Err,
            r == Err::<(), crate::account::PhraseError>(crate::account::PhraseError::Invalid) ==> (
            old(self).spec_account().spec_phrase() matches Ok(Some(p))
                && !crate::mnemonic::phrase_valid(p)),
            r == Err::<(), crate::account::PhraseError>(
                crate::account::PhraseError::DerivationFailed,
            ) ==> old(self).spec_account().create_ready() && !old(
                self,
            ).spec_account().pending_derivation_ok(),
    {
        let account = self.portfolio.owner_mut();
        account.try_create_wallet()
    }

    /// The public address of the account's first signing key, or empty text
    /// if none is derived yet.
    pub fn address(&self) -> (r: String)
        ensures
            self.spec_account().key_addresses().len() > 0 ==> r@ == address_str(
                self.spec_account().key_addresses()[0],
            ),
            self.spec_account().key_addresses().len() == 0 ==> r@ == Seq::<char>::empty(),
    {
        match self.portfolio.owner().address() {
            Some(address) => crate::address::StringRepresentation::string_representation(
                &address,
            ),
            None => String::new(),
        }
    }

    /// Descriptor snapshots of every owned chain, in collection order.
    pub fn chains(&self) -> (r: Vec<ChainDescriptor>)
        ensures
            chain_desc_views(r@) == descriptors_of(self.spec_chains()),
    {
        let ghost f = |c: Layer1View| chain_desc_of(c);
        let chains = self.portfolio.chains();
        let ghost views = self.spec_chains();
        let mut r: Vec<ChainDescriptor> = Vec::new();
        let mut i: usize = 0;
        proof {
            assert(chain_desc_views(r@) =~= views.take(0).map_values(f));
        }
        while i < chains.len()
            invariant
                f == (|c: Layer1View| chain_desc_of(c)),
                i <= chains@.len(),
                views == crate::portfolio::layer1_views(chains@),
                views == self.spec_chains(),
                chain_desc_views(r@) == views.take(i as int).map_values(f),
            decreases chains@.len() - i,
        {
            let c = &chains[i];
            let ghost prev = r@;
            let desc = chain_desc_of_chain(c);
            r.push(desc);
            i = i + 1;
            proof {
                assert(views[i - 1] == chains@[i - 1]@);
                assert(r@.last()@ == f(views[i - 1]));
                crate::text::lemma_map_push(prev, |d: ChainDescriptor| d@, r@.last());
                assert(r@ =~= prev.push(r@.last()));
                crate::text::lemma_map_push(views.take(i - 1), f, views[i - 1]);
                assert(views.take(i as int) =~= views.take(i - 1).push(views[i - 1]));
                assert(chain_desc_views(r@) =~= views.take(i as int).map_values(f));
            }
        }
        proof {
            assert(views.take(views.len() as int) =~= views);
        }
        r
    }

    /// Descriptor snapshots of the tokens of the first chain whose
    /// identifier is `chain_id`; empty when no chain matches.
    pub fn tokens(&self, chain_id: String) -> (r: Vec<TokenDescriptor>)
        ensures
            ({
                let chains = self.spec_chains();
                let i = first_chain_with_id(chains, chain_id@);
                if i < chains.len() {
                    token_desc_views(r@) == chains[i].tokens.map_values(
                        |t: TokenView| token_desc_of(t),
                    )
                } else {
                    token_desc_views(r@) == Seq::<TokenDescView>::empty()
                }
            }),
    {
        let ghost views = self.spec_chains();
        let chains = self.portfolio.chains();
        let n = chains.len();
        let mut i: usize = 0;
        while i < n
            invariant
                n == chains@.len(),
                i <= n,
                views == crate::portfolio::layer1_views(chains@),
                views == self.spec_chains(),
                forall|j: int|
                    0 <= j < i ==> dec_str((#[trigger] views[j]).chain_id as nat) != chain_id@,
            decreases n - i,
        {
            let c = &chains[i];
            let ident = c.identifier();
            proof {
                assert(views[i as int] == chains@[i as int]@);
            }
            if crate::storage::str_eq(ident.as_str(), chain_id.as_str()) {
                proof {
                    crate::portfolio::lemma_first_chain_with_id(views, chain_id@);
                }
                return token_descs_of_chain(c);
            }
            i = i + 1;
        }
        proof {
            crate::portfolio::lemma_first_chain_with_id(views, chain_id@);
            assert(token_desc_views(Seq::<TokenDescriptor>::empty()) =~= Seq::<
                TokenDescView,
            >::empty());
        }
        Vec::new()
    }

    /// The endpoints stored for this account, in storage order.
    pub fn stored_rpcs(&self) -> (r: Vec<String>)
        ensures
            r.deep_view() == stored_rpcs_spec(self.spec_contents(), self.spec_identifier()),
    {
        let key = rpcs_key(&self.account_identifier);
        match self.storage.get(key.as_str()) {
            Some(rpcs_string) => decode_list(rpcs_string.as_str()),
            None => {
                let r: Vec<String> = Vec::new();
                proof {
                    assert(r.deep_view() =~= Seq::<Seq<char>>::empty());
                }
                r
            },
        }
    }

    /// Whether `rpc` is already among the stored endpoints: adding the same
    /// endpoint twice is refused at the session boundary.
    pub fn has_stored_rpc(&self, rpc: &str) -> (r: bool)
        ensures
            r == stored_rpcs_spec(self.spec_contents(), self.spec_identifier()).contains(rpc@),
    {
        let rpcs = self.stored_rpcs();
        crate::session::list_contains(&rpcs, rpc)
    }

    /// Appends `rpc` to the stored endpoint list.
    fn store_rpc(&mut self, rpc: String)
        ensures
            final(self).spec_storage().contents() == old(self).spec_storage().contents().insert(
                rpcs_key_of(old(self).spec_identifier()),
                join_semi(
                    stored_rpcs_spec(
                        old(self).spec_contents(),
                        old(self).spec_identifier(),
                    ).push(rpc@),
                ),
            ),
            final(self).spec_identifier() == old(self).spec_identifier(),
            final(self).spec_portfolio() == old(self).spec_portfolio(),
            final(self).spec_metadata() == old(self).spec_metadata(),
            final(self).spec_erc20_source() == old(self).spec_erc20_source(),
            final(self).spec_base_url() == old(self).spec_base_url(),
    {
        let mut rpcs = self.stored_rpcs();
        let ghost prev = rpcs.deep_view();
        rpcs.push(rpc);
        proof {
            assert(rpcs.deep_view() =~= prev.push(rpcs@.last()@));
        }
        let rpcs_string = encode_list(&rpcs);
        let key = rpcs_key(&self.account_identifier);
        self.storage.set(key.as_str(), rpcs_string.as_str());
    }

    /// Adds an already-resolved chain to the portfolio and persists its
    /// endpoint; refused while no signing key is derived.
    pub fn add_chain(&mut self, chain: Layer1) -> (r: Result<String, WalletError>)
        ensures
            r matches Err(e) ==> (e is NotInitialized) && old(
                self,
            ).spec_account().key_addresses().len() == 0 && *final(self) == *old(self),
            r matches Ok(cid) ==> {
                &&& old(self).spec_account().key_addresses().len() > 0
                &&& cid@ == dec_str(chain@.chain_id as nat)
                &&& final(self).spec_chains() == seq![
                    match old(self).spec_portfolio().spec_default_observer() {
                        Some(o) => crate::portfolio::chain_subscribed(chain@, o),
                        None => chain@,
                    },
                ] + old(self).spec_chains()
                &&& final(self).spec_storage().contents() == old(
                    self,
                ).spec_storage().contents().insert(
                    rpcs_key_of(old(self).spec_identifier()),
                    join_semi(
                        stored_rpcs_spec(
                            old(self).spec_contents(),
                            old(self).spec_identifier(),
                        ).push(chain@.rpc),
                    ),
                )
                &&& final(self).spec_identifier() == old(self).spec_identifier()
            },
    {
        if self.portfolio.owner().address().is_none() {
            return Err(WalletError::NotInitialized);
        }
        let chain_id = chain.identifier();
        let rpc = chain.rpc().clone();
        self.portfolio.add_chain(chain);
        self.store_rpc(rpc);
        Ok(chain_id)
    }

    /// Refreshes the native balance of every chain whose identifier is
    /// `chain_id`.
    pub fn update_balance(&mut self, chain_id: &str, fetched: u128, dir: &ObserverDirectory) -> (r:
        Vec<Notification>)
        ensures
            final(self).spec_identifier() == old(self).spec_identifier(),
            final(self).spec_storage() == old(self).spec_storage(),
            final(self).spec_chains() == old(self).spec_chains().map_values(
                |c: Layer1View| crate::portfolio::native_refreshed_if(c, chain_id@, dir.live_set()),
            ),
            crate::chain::notification_views(r@) == crate::portfolio::chains_native_notes(
                old(self).spec_chains(),
                chain_id@,
                fetched,
                dir.live_set(),
            ),
    {
        self.portfolio.update_chain_balance(chain_id, fetched, dir)
    }

    /// Refreshes every chain and token in the fixed order, with the freshly
    /// fetched balances.
    pub fn update_balances(
        &mut self,
        chain_balances: &Vec<u128>,
        token_balances: &Vec<Vec<u128>>,
        dir: &ObserverDirectory,
    ) -> (r: Vec<Notification>)
        requires
            chain_balances@.len() == old(self).spec_chains().len(),
            token_balances@.len() == old(self).spec_chains().len(),
            forall|i: int|
                0 <= i < old(self).spec_chains().len() ==> (#[trigger] token_balances@[i])@.len()
                    == old(self).spec_chains()[i].tokens.len(),
        ensures
            final(self).spec_identifier() == old(self).spec_identifier(),
            final(self).spec_storage() == old(self).spec_storage(),
            final(self).spec_chains() == old(self).spec_chains().map_values(
                |c: Layer1View| crate::portfolio::chain_refreshed(c, dir.live_set()),
            ),
            crate::chain::notification_views(r@) == crate::portfolio::portfolio_refresh_notes(
                old(self).spec_chains(),
                chain_balances@,
                crate::portfolio::amount_views(token_balances@),
                dir.live_set(),
            ),
    {
        self.portfolio.update_balances(chain_balances, token_balances, dir)
    }

    /// Refreshes every token of the chain with identifier `chain_id`, in
    /// order, with the freshly fetched amounts; nothing when no chain
    /// matches.
    pub fn update_token_balances(
        &mut self,
        chain_id: &str,
        amounts: &Vec<u128>,
        dir: &ObserverDirectory,
    ) -> (r: Option<Vec<Notification>>)
        requires
            first_chain_with_id(old(self).spec_chains(), chain_id@) < old(
                self,
            ).spec_chains().len() ==> amounts@.len() == old(self).spec_chains()[first_chain_with_id(
                old(self).spec_chains(),
                chain_id@,
            )].tokens.len(),
        ensures
            final(self).spec_identifier() == old(self).spec_identifier(),
            final(self).spec_storage() == old(self).spec_storage(),
            ({
                let chains = old(self).spec_chains();
                let i = first_chain_with_id(chains, chain_id@);
                match r {
                    None => i == chains.len() && final(self).spec_chains() == chains,
                    Some(notes) => i < chains.len() && final(self).spec_chains() == chains.update(
                        i,
                        (Layer1View {
                            tokens: chains[i].tokens.map_values(
                                |t: TokenView| crate::layer1::token_refreshed(t, dir.live_set()),
                            ),
                            ..chains[i]
                        }),
                    ) && crate::chain::notification_views(notes@)
                        == crate::layer1::tokens_refresh_notes(
                        chains[i].tokens,
                        amounts@,
                        dir.live_set(),
                    ),
                }
            }),
    {
        self.portfolio.update_chain_tokens(chain_id, amounts, dir)
    }

    /// Resolves a transfer identifier: a chain id, a token address, or
    /// nothing.
    pub fn transfer_target(&self, id: &str) -> (r: crate::portfolio::TransferTarget)
        ensures
            ({
                let chains = self.spec_chains();
                let ci = first_chain_with_id(chains, id@);
                let ti = crate::portfolio::first_chain_with_token(chains, id@);
                match r {
                    crate::portfolio::TransferTarget::Chain(i) => ci < chains.len() && i == ci,
                    crate::portfolio::TransferTarget::Token(i, j) => ci == chains.len() && ti
                        < chains.len() && i == ti && j
                        == crate::portfolio::first_token_with_address(chains[ti].tokens, id@),
                    crate::portfolio::TransferTarget::NotFound => ci == chains.len() && ti
                        == chains.len(),
                }
            }),
    {
        self.portfolio.transfer_target(id)
    }

    /// The serialized descriptor snapshot of every owned chain: the only
    /// form in which this subsystem's state crosses the external boundary.
    pub fn chains_serialized(&self) -> (r: String)
        ensures
            r@ == crate::json::chains_json(descriptors_of(self.spec_chains())),
    {
        let descriptors = self.chains();
        crate::json::chains_to_json(&descriptors)
    }

    /// The stored serialized token list for one chain, if any.
    pub fn stored_tokens_json(&self, chain_id: &str) -> (r: Option<String>)
        ensures
            ({
                let key = tokens_key_of(self.spec_identifier(), chain_id@);
                match r {
                    Some(v) => self.spec_contents().contains_key(key) && v@
                        == self.spec_contents()[key],
                    None => !self.spec_contents().contains_key(key),
                }
            }),
    {
        let key = tokens_key(&self.account_identifier, chain_id);
        self.storage.get(key.as_str())
    }

    /// Adds a token to the chain with identifier `chain_id`, then persists
    /// the chain's full token list in serialized form.
    pub fn add_token(
        &mut self,
        chain_id: &str,
        contract_address: String,
        symbol: String,
        decimals: Option<u32>,
        fetched: u128,
        dir: &ObserverDirectory,
    ) -> (r: Result<(u32, Vec<Notification>), WalletError>)
        ensures
            final(self).spec_identifier() == old(self).spec_identifier(),
            ({
                let chains = old(self).spec_chains();
                let i = first_chain_with_id(chains, chain_id@);
                match r {
                    Err(WalletError::ChainNotFound(c)) => i == chains.len() && c@ == chain_id@
                        && final(self).spec_chains() == chains && final(self).spec_storage()
                        == old(self).spec_storage(),
                    Err(WalletError::Chain(e)) => i < chains.len() && (
                    e matches crate::chain::ChainError::InvalidAddress(a) && a@
                        == contract_address@) && !crate::address::valid_address_str(
                        contract_address@,
                    ) && final(self).spec_chains() == chains && final(self).spec_storage() == old(
                        self,
                    ).spec_storage(),
                    Err(WalletError::NotInitialized) => false,
                    Ok((d, notes)) => {
                        let new_token = TokenView {
                            address: crate::address::address_str_bytes(contract_address@),
                            symbol: symbol@,
                            decimals: d,
                            observers: crate::chain::live_observers(
                                chains[i].observers,
                                dir.live_set(),
                            ),
                        };
                        let updated = Layer1View {
                            tokens: chains[i].tokens.push(new_token),
                            ..chains[i]
                        };
                        &&& i < chains.len()
                        &&& crate::address::valid_address_str(contract_address@)
                        &&& d == (match decimals {
                            Some(x) => x,
                            None => chains[i].decimals,
                        })
                        &&& final(self).spec_chains() == chains.update(i, updated)
                        &&& final(self).spec_storage().contents() == old(
                            self,
                        ).spec_storage().contents().insert(
                            tokens_key_of(old(self).spec_identifier(), chain_id@),
                            crate::json::tokens_json(
                                updated.tokens.map_values(|t: TokenView| token_desc_of(t)),
                            ),
                        )
                        &&& crate::chain::notification_views(notes@)
                            == crate::chain::notify_list(
                            chains[i].observers,
                            dir.live_set(),
                            fetched,
                            (crate::chain::AssetView {
                                identifier: address_str(
                                    crate::address::address_str_bytes(contract_address@),
                                ),
                                symbol: symbol@,
                                decimals: d,
                            }),
                        )
                    },
                }
            }),
    {
        let out = self.portfolio.add_token(chain_id, contract_address, symbol, decimals, fetched, dir);
        match out {
            None => {
                let mut owned_id = String::new();
                owned_id.append(chain_id);
                Err(WalletError::ChainNotFound(owned_id))
            },
            Some(Err(e)) => Err(WalletError::Chain(e)),
            Some(Ok((d, notes))) => {
                let descs = self.tokens(chain_id.to_owned());
                proof {
                    let chains0 = old(self).spec_chains();
                    let i = first_chain_with_id(chains0, chain_id@);
                    crate::portfolio::lemma_first_chain_with_id(chains0, chain_id@);
                    crate::portfolio::lemma_first_chain_with_id(
                        self.spec_chains(),
                        chain_id@,
                    );
                    assert forall|k: int| 0 <= k < self.spec_chains().len() implies (dec_str(
                        (#[trigger] self.spec_chains()[k]).chain_id as nat,
                    ) == chain_id@) == (dec_str(chains0[k].chain_id as nat) == chain_id@) by {
                        assert(self.spec_chains()[k].chain_id == chains0[k].chain_id);
                    }
                    assert(first_chain_with_id(self.spec_chains(), chain_id@) == i) by {
                        lemma_first_chain_agrees(self.spec_chains(), chains0, chain_id@);
                    }
                }
                let text = crate::json::tokens_to_json(&descs);
                let key = tokens_key(&self.account_identifier, chain_id);
                self.storage.set(key.as_str(), text.as_str());
                Ok((d, notes))
            },
        }
    }
}

/// Two chain collections whose identifiers agree position by position have
/// the same first match for any identifier.
pub proof fn lemma_first_chain_agrees(a: Seq<Layer1View>, b: Seq<Layer1View>, id: Seq<char>)
    requires
        a.len() == b.len(),
        forall|k: int| 0 <= k < a.len() ==> (#[trigger] a[k]).chain_id == b[k].chain_id,
    ensures
        first_chain_with_id(a, id) == first_chain_with_id(b, id),
    decreases a.len(),
{
    if a.len() > 0 {
        assert(forall|k: int|
            0 <= k < a.drop_first().len() ==> (#[trigger] a.drop_first()[k]).chain_id
                == b.drop_first()[k].chain_id && a.drop_first()[k] == a[k + 1] && b.drop_first()[k]
                == b[k + 1]);
        lemma_first_chain_agrees(a.drop_first(), b.drop_first(), id);
    }
}

impl<C, S> WalletRepresentation for Wallet<C, S> where C: Credentials, S: Storage {
    open spec fn spec_get_address(&self) -> Seq<char> {
        if self.spec_account().key_addresses().len() > 0 {
            address_str(self.spec_account().key_addresses()[0])
        } else {
            Seq::empty()
        }
    }

    fn get_address(&self) -> (r: String) {
        self.address()
    }
}

} // verus!
