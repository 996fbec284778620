//! Key-value persistence: the `Storage` capability and an in-memory backend.

use vstd::prelude::*;

verus! {

/// An entity capable of storing key-value pairs.
pub trait Storage: Sized {
    /// The stored key-to-value mapping.
    spec fn contents(&self) -> Map<Seq<char>, Seq<char>>;

    /// Returns the stored value for `key`, or nothing if no entry exists.
    fn get(&self, key: &str) -> (r: Option<String>)
        ensures
            match r {
                Some(v) => self.contents().contains_key(key@) && v@ == self.contents()[key@],
                None => !self.contents().contains_key(key@),
            },
    ;

    /// Saves `value` under `key`, overwriting any prior entry.
    fn set(&mut self, key: &str, value: &str)
        ensures
            final(self).contents() == old(self).contents().insert(key@, value@),
    ;

    /// Deletes the entry for `key`, if any.
    fn delete(&mut self, key: &str)
        ensures
            final(self).contents() == old(self).contents().remove(key@),
    ;

    /// Removes all entries.
    fn clear(&mut self)
        ensures
            final(self).contents() == Map::<Seq<char>, Seq<char>>::empty(),
    ;
}

/// The mapping described by a sequence of key-value entries; a later entry
/// for the same key overrides an earlier one.
pub open spec fn entries_map(s: Seq<(Seq<char>, Seq<char>)>) -> Map<Seq<char>, Seq<char>>
    decreases s.len(),
{
    if s.len() == 0 {
        Map::empty()
    } else {
        entries_map(s.drop_last()).insert(s.last().0, s.last().1)
    }
}

/// The views of a vector of owned entries.
pub open spec fn entry_views(s: Seq<(String, String)>) -> Seq<(Seq<char>, Seq<char>)> {
    s.map_values(|p: (String, String)| (p.0@, p.1@))
}

/// The predicate "this entry's key is not `key`".
pub open spec fn key_differs(key: Seq<char>) -> spec_fn((Seq<char>, Seq<char>)) -> bool {
    |q: (Seq<char>, Seq<char>)| q.0 != key
}

pub proof fn lemma_filter_one<A>(x: A, p: spec_fn(A) -> bool)
    ensures
        p(x) ==> seq![x].filter(p) == seq![x],
        !p(x) ==> seq![x].filter(p) == Seq::<A>::empty(),
{
    reveal_with_fuel(Seq::filter, 2);
    assert(seq![x].drop_last() =~= Seq::<A>::empty());
    if p(x) {
        assert(seq![x].filter(p) =~= seq![x]);
    }
}

/// Dropping every entry for `key` removes exactly `key` from the mapping.
pub proof fn lemma_entries_map_erase(s: Seq<(Seq<char>, Seq<char>)>, key: Seq<char>)
    ensures
        entries_map(s.filter(key_differs(key))) == entries_map(s).remove(key),
    decreases s.len(),
{
    let p = key_differs(key);
    if s.len() == 0 {
        assert(s.filter(p) == s);
        assert(entries_map(s).remove(key) =~= Map::empty());
    } else {
        lemma_entries_map_erase(s.drop_last(), key);
        Seq::filter_distributes_over_add(s.drop_last(), seq![s.last()], p);
        lemma_filter_one(s.last(), p);
        assert(s.drop_last() + seq![s.last()] =~= s);
        if p(s.last()) {
            assert(s.filter(p).drop_last() =~= s.drop_last().filter(p));
            assert(s.filter(p).last() == s.last());
            assert(entries_map(s.filter(p)) =~= entries_map(s).remove(key));
        } else {
            assert(s.filter(p) =~= s.drop_last().filter(p));
            assert(entries_map(s.filter(p)) =~= entries_map(s).remove(key));
        }
    }
}

/// If no entry from position `i` on holds `key`, the mapping agrees at `key`
/// with the mapping of the first `i` entries.
pub proof fn lemma_entries_map_prefix(s: Seq<(Seq<char>, Seq<char>)>, key: Seq<char>, i: int)
    requires
        0 <= i <= s.len(),
        forall|j: int| i <= j < s.len() ==> (#[trigger] s[j]).0 != key,
    ensures
        entries_map(s).contains_key(key) == entries_map(s.take(i)).contains_key(key),
        entries_map(s).contains_key(key) ==> entries_map(s)[key] == entries_map(s.take(i))[key],
    decreases s.len() - i,
{
    if i < s.len() {
        lemma_entries_map_prefix(s, key, i + 1);
        assert(s.take(i + 1).drop_last() =~= s.take(i));
        assert(s.take(i + 1).last() == s[i]);
    } else {
        assert(s.take(i) =~= s);
    }
}

/// An in-memory storage backend: a list of key-value entries where the last
/// entry for a key is the one in force.
pub struct MemStorage {
    entries: Vec<(String, String)>,
}

impl MemStorage {
    pub fn new() -> (r: MemStorage)
        ensures
            r.contents() == Map::<Seq<char>, Seq<char>>::empty(),
    {
        MemStorage { entries: Vec::new() }
    }

    /// The entries as stored, for a host that mirrors this store into an
    /// external backend; the mapping in force is `entries_map` of their
    /// views.
    pub fn entries(&self) -> (r: &Vec<(String, String)>)
        ensures
            entries_map(entry_views(r@)) == self.contents(),
    {
        &self.entries
    }

    /// Rebuilds the entry list without any entry for `key`.
    fn erase(&mut self, key: &str)
        ensures
            final(self).contents() == old(self).contents().remove(key@),
    {
        let mut kept: Vec<(String, String)> = Vec::new();
        let ghost p = key_differs(key@);
        let mut i: usize = 0;
        proof {
            assert(entry_views(kept@) =~= Seq::<(Seq<char>, Seq<char>)>::empty());
            assert(entry_views(self.entries@).take(0) =~= Seq::<(Seq<char>, Seq<char>)>::empty());
            assert(Seq::<(Seq<char>, Seq<char>)>::empty().filter(p) =~= Seq::<
                (Seq<char>, Seq<char>),
            >::empty());
        }
        while i < self.entries.len()
            invariant
                p == key_differs(key@),
                i <= self.entries@.len(),
                entry_views(kept@) == entry_views(self.entries@).take(i as int).filter(p),
            decreases self.entries@.len() - i,
        {
            let ghost prev = entry_views(kept@);
            let pair = &self.entries[i];
            let k = pair.0.clone();
            let v = pair.1.clone();
            let keep = !str_eq(k.as_str(), key);
            proof {
                assert(k@ == self.entries@[i as int].0@);
                assert(entry_views(self.entries@)[i as int] == (
                    self.entries@[i as int].0@,
                    self.entries@[i as int].1@,
                ));
                assert(keep == p(entry_views(self.entries@)[i as int]));
            }
            if keep {
                kept.push((k, v));
            }
            i = i + 1;
            proof {
                let whole = entry_views(self.entries@);
                assert(whole.take(i - 1) + seq![whole[i - 1]] =~= whole.take(i as int));
                Seq::filter_distributes_over_add(whole.take(i - 1), seq![whole[i - 1]], p);
                lemma_filter_one(whole[i - 1], p);
                if keep {
                    assert(entry_views(kept@) =~= prev + seq![whole[i - 1]]);
                } else {
                    assert(entry_views(kept@) =~= prev + Seq::<(Seq<char>, Seq<char>)>::empty());
                }
            }
        }
        proof {
            let whole = entry_views(self.entries@);
            assert(whole.take(whole.len() as int) =~= whole);
            lemma_entries_map_erase(whole, key@);
        }
        self.entries = kept;
    }
}

/// Whether two strings hold the same characters.
pub fn str_eq(a: &str, b: &str) -> (r: bool)
    ensures
        r == (a@ == b@),
{
    let sa = a.to_owned();
    let sb = b.to_owned();
    sa == sb
}

impl Storage for MemStorage {
    closed spec fn contents(&self) -> Map<Seq<char>, Seq<char>> {
        entries_map(entry_views(self.entries@))
    }

    fn get(&self, key: &str) -> (r: Option<String>)
        ensures
            match r {
                Some(v) => self.contents().contains_key(key@) && v@ == self.contents()[key@],
                None => !self.contents().contains_key(key@),
            },
    {
        let ghost whole = entry_views(self.entries@);
        let mut i: usize = self.entries.len();
        while i > 0
            invariant
                i <= self.entries@.len(),
                forall|j: int| i <= j < whole.len() ==> (#[trigger] whole[j]).0 != key@,
                whole == entry_views(self.entries@),
            decreases i,
        {
            i = i - 1;
            if str_eq(self.entries[i].0.as_str(), key) {
                proof {
                    lemma_entries_map_prefix(whole, key@, i + 1);
                    assert(whole.take(i + 1).last() == whole[i as int]);
                    assert(whole.take(i + 1).drop_last() =~= whole.take(i as int));
                }
                return Some(self.entries[i].1.clone());
            }
        }
        proof {
            lemma_entries_map_prefix(whole, key@, 0);
            assert(whole.take(0) =~= Seq::empty());
        }
        None
    }

    fn set(&mut self, key: &str, value: &str)
        ensures
            final(self).contents() == old(self).contents().insert(key@, value@),
    {
        self.erase(key);
        let ghost before = entry_views(self.entries@);
        self.entries.push((key.to_owned(), value.to_owned()));
        proof {
            assert(entry_views(self.entries@) =~= before.push((key@, value@)));
            assert(entry_views(self.entries@).drop_last() =~= before);
            assert(old(self).contents().remove(key@).insert(key@, value@) =~= old(
                self,
            ).contents().insert(key@, value@));
        }
    }

    fn delete(&mut self, key: &str)
        ensures
            final(self).contents() == old(self).contents().remove(key@),
    {
        self.erase(key);
    }

    fn clear(&mut self)
        ensures
            final(self).contents() == Map::<Seq<char>, Seq<char>>::empty(),
    {
        self.entries = Vec::new();
    }
}

} // verus!
