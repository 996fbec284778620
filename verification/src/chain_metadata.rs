//! Chain metadata: native-asset symbol and decimal precision per chain id.
//! The document itself is fetched and parsed outside; this module holds the
//! parsed entries and answers lookups.

use vstd::prelude::*;

verus! {

/// One chain's metadata entry. Symbol or decimals may be unpopulated.
#[derive(Debug)]
pub struct ChainInfo {
    pub chain_id: u64,
    pub symbol: Option<String>,
    pub decimals: Option<u32>,
}

/// The mathematical view of a `ChainInfo`.
#[verifier::ext_equal]
pub struct ChainInfoView {
    pub chain_id: u64,
    pub symbol: Option<Seq<char>>,
    pub decimals: Option<u32>,
}

impl View for ChainInfo {
    type V = ChainInfoView;

    open spec fn view(&self) -> ChainInfoView {
        ChainInfoView {
            chain_id: self.chain_id,
            symbol: match self.symbol {
                Some(s) => Some(s@),
                None => None,
            },
            decimals: self.decimals,
        }
    }
}

/// The views of a vector of entries.
pub open spec fn info_views(s: Seq<ChainInfo>) -> Seq<ChainInfoView> {
    s.map_values(|c: ChainInfo| c@)
}

/// The entry in force for `chain_id`: the last one with that id, as a later
/// entry for the same chain overrides an earlier one.
pub open spec fn info_lookup(s: Seq<ChainInfoView>, chain_id: u64) -> Option<ChainInfoView>
    decreases s.len(),
{
    if s.len() == 0 {
        None
    } else if s.last().chain_id == chain_id {
        Some(s.last())
    } else {
        info_lookup(s.drop_last(), chain_id)
    }
}

/// If no entry from position `i` on holds `chain_id`, the lookup agrees with
/// the lookup over the first `i` entries.
pub proof fn lemma_info_lookup_prefix(s: Seq<ChainInfoView>, chain_id: u64, i: int)
    requires
        0 <= i <= s.len(),
        forall|j: int| i <= j < s.len() ==> (#[trigger] s[j]).chain_id != chain_id,
    ensures
        info_lookup(s, chain_id) == info_lookup(s.take(i), chain_id),
    decreases s.len() - i,
{
    if i < s.len() {
        lemma_info_lookup_prefix(s, chain_id, i + 1);
        assert(s.take(i + 1).drop_last() =~= s.take(i));
        assert(s.take(i + 1).last() == s[i]);
    } else {
        assert(s.take(i) =~= s);
    }
}

/// The chain-metadata table: a source location and, once populated, the
/// parsed entries.
#[derive(Debug)]
pub struct ChainsMetadata {
    url: String,
    raw_data: Option<Vec<ChainInfo>>,
}

impl ChainsMetadata {
    /// Where the metadata document lives.
    pub closed spec fn spec_url(&self) -> Seq<char> {
        self.url@
    }

    /// Whether the table has been populated.
    pub closed spec fn spec_loaded(&self) -> bool {
        self.raw_data is Some
    }

    /// The entries, in document order; empty until populated.
    pub closed spec fn spec_entries(&self) -> Seq<ChainInfoView> {
        match self.raw_data {
            Some(v) => info_views(v@),
            None => Seq::empty(),
        }
    }

    /// The symbol in force for `chain_id`, if any.
    pub open spec fn spec_symbol(&self, chain_id: u64) -> Option<Seq<char>> {
        match info_lookup(self.spec_entries(), chain_id) {
            Some(info) => info.symbol,
            None => None,
        }
    }

    /// The decimal precision in force for `chain_id`, if any.
    pub open spec fn spec_decimals(&self, chain_id: u64) -> Option<u32> {
        match info_lookup(self.spec_entries(), chain_id) {
            Some(info) => info.decimals,
            None => None,
        }
    }

    /// An unpopulated table that remembers where to fetch from.
    pub fn new(url: String) -> (r: Self)
        ensures
            r.spec_url() == url@,
            !r.spec_loaded(),
    {
        ChainsMetadata { url, raw_data: None }
    }

    /// The source location, for the fetcher.
    pub fn url(&self) -> (r: &String)
        ensures
            r@ == self.spec_url(),
    {
        &self.url
    }

    /// Installs the parsed entries of the metadata document.
    pub fn populate(&mut self, entries: Vec<ChainInfo>)
        ensures
            final(self).spec_loaded(),
            final(self).spec_url() == old(self).spec_url(),
            final(self).spec_entries() == info_views(entries@),
    {
        self.raw_data = Some(entries);
    }

    /// Whether the table is still unpopulated.
    pub fn empty(&self) -> (r: bool)
        ensures
            r == !self.spec_loaded(),
    {
        self.raw_data.is_none()
    }

    /// The native-asset symbol for `chain_id`, if the table knows one.
    pub fn get_symbol(&self, chain_id: u64) -> (r: Option<String>)
        ensures
            match r {
                Some(s) => self.spec_symbol(chain_id) == Some(s@),
                None => self.spec_symbol(chain_id) is None,
            },
    {
        match &self.raw_data {
            None => None,
            Some(entries) => {
                proof {
                    assert(self.raw_data == Some(*entries));
                }
                let ghost whole = info_views(entries@);
                proof {
                    assert(self.spec_entries() == whole);
                }
                let mut i: usize = entries.len();
                while i > 0
                    invariant
                        i <= entries@.len(),
                        whole == info_views(entries@),
                        self.spec_entries() == whole,
                        forall|j: int|
                            i <= j < whole.len() ==> (#[trigger] whole[j]).chain_id != chain_id,
                    decreases i,
                {
                    i = i - 1;
                    if entries[i].chain_id == chain_id {
                        proof {
                            lemma_info_lookup_prefix(whole, chain_id, i + 1);
                            assert(whole[i as int] == entries@[i as int]@);
                            assert(whole.take(i + 1).last() == whole[i as int]);
                            assert(whole.take(i + 1).drop_last() =~= whole.take(i as int));
                            assert(info_lookup(whole, chain_id) == Some(whole[i as int]));
                        }
                        return match &entries[i].symbol {
                            Some(s) => Some(s.clone()),
                            None => None,
                        };
                    }
                }
                proof {
                    lemma_info_lookup_prefix(whole, chain_id, 0);
                    assert(whole.take(0) =~= Seq::<ChainInfoView>::empty());
                }
                None
            },
        }
    }

    /// The decimal precision for `chain_id`, if the table knows one.
    pub fn get_decimals(&self, chain_id: u64) -> (r: Option<u32>)
        ensures
            r == self.spec_decimals(chain_id),
    {
        match &self.raw_data {
            None => None,
            Some(entries) => {
                proof {
                    assert(self.raw_data == Some(*entries));
                }
                let ghost whole = info_views(entries@);
                proof {
                    assert(self.spec_entries() == whole);
                }
                let mut i: usize = entries.len();
                while i > 0
                    invariant
                        i <= entries@.len(),
                        whole == info_views(entries@),
                        self.spec_entries() == whole,
                        forall|j: int|
                            i <= j < whole.len() ==> (#[trigger] whole[j]).chain_id != chain_id,
                    decreases i,
                {
                    i = i - 1;
                    if entries[i].chain_id == chain_id {
                        proof {
                            lemma_info_lookup_prefix(whole, chain_id, i + 1);
                            assert(whole[i as int] == entries@[i as int]@);
                            assert(whole.take(i + 1).last() == whole[i as int]);
                            assert(whole.take(i + 1).drop_last() =~= whole.take(i as int));
                            assert(info_lookup(whole, chain_id) == Some(whole[i as int]));
                        }
                        return entries[i].decimals;
                    }
                }
                proof {
                    lemma_info_lookup_prefix(whole, chain_id, 0);
                    assert(whole.take(0) =~= Seq::<ChainInfoView>::empty());
                }
                None
            },
        }
    }
}

} // verus!
