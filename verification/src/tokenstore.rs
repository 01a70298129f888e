//! The fingerprint store of one partition: a mapping from window fingerprints
//! to the most recent window item seen with that fingerprint.
//!
//! The store is kept as a vector of entries with pairwise distinct keys and is
//! specified through its view, a `Map` from fingerprint to window item model.

use vstd::prelude::*;

use crate::tokenmap::{TokenItem, TokenItemV};

verus! {

/// One stored binding: a fingerprint and the last window item seen with it.
pub struct StoreEntry {
    pub key: String,
    pub item: TokenItem,
}

/// The map described by a sequence of entries, later entries winning.
pub open spec fn entries_map(s: Seq<StoreEntry>) -> Map<Seq<char>, TokenItemV>
    decreases s.len(),
{
    if s.len() == 0 {
        Map::empty()
    } else {
        entries_map(s.drop_last()).insert(s.last().key@, s.last().item@)
    }
}

/// Whether the entries carry pairwise distinct keys.
pub open spec fn distinct_keys(s: Seq<StoreEntry>) -> bool {
    forall|i: int, j: int| 0 <= i < j < s.len() ==> s[i].key@ != s[j].key@
}

/// A key that occurs nowhere in the entries is not in the map.
proof fn lemma_entries_map_absent(s: Seq<StoreEntry>, k: Seq<char>)
    requires
        forall|i: int| 0 <= i < s.len() ==> s[i].key@ != k,
    ensures
        !entries_map(s).contains_key(k),
    decreases s.len(),
{
    if s.len() > 0 {
        lemma_entries_map_absent(s.drop_last(), k);
    }
}

/// With distinct keys, each entry is the one the map holds for its key.
proof fn lemma_entries_map_get(s: Seq<StoreEntry>, i: int)
    requires
        distinct_keys(s),
        0 <= i < s.len(),
    ensures
        entries_map(s).contains_key(s[i].key@),
        entries_map(s)[s[i].key@] == s[i].item@,
    decreases s.len(),
{
    if i < s.len() - 1 {
        assert(s.drop_last()[i] == s[i]);
        lemma_entries_map_get(s.drop_last(), i);
        assert(s[i].key@ != s[s.len() - 1].key@);
    }
}

/// Every key of the map is the key of some entry.
proof fn lemma_entries_map_dom(s: Seq<StoreEntry>, k: Seq<char>)
    requires
        entries_map(s).contains_key(k),
    ensures
        exists|i: int| 0 <= i < s.len() && s[i].key@ == k,
    decreases s.len(),
{
    if s.len() > 0 && s.last().key@ != k {
        lemma_entries_map_dom(s.drop_last(), k);
        let i = choose|i: int| 0 <= i < s.drop_last().len() && s.drop_last()[i].key@ == k;
        assert(s[i].key@ == k);
    }
}

/// Removing the (sole) entry of a key removes that key from the map.
proof fn lemma_entries_map_remove(s: Seq<StoreEntry>, i: int)
    requires
        distinct_keys(s),
        0 <= i < s.len(),
    ensures
        entries_map(s.remove(i)) =~= entries_map(s).remove(s[i].key@),
    decreases s.len(),
{
    let k = s[i].key@;
    if i == s.len() - 1 {
        assert(s.remove(i) =~= s.drop_last());
        lemma_entries_map_absent_of_distinct(s, i);
        assert(entries_map(s.drop_last()).insert(k, s[i].item@).remove(k)
            =~= entries_map(s.drop_last()));
    } else {
        assert(s.remove(i).drop_last() =~= s.drop_last().remove(i));
        assert(s.remove(i).last() == s.last());
        lemma_entries_map_remove(s.drop_last(), i);
        assert(s.drop_last()[i] == s[i]);
        assert(s.last().key@ != k);
    }
}

/// With distinct keys, the map below an entry's position lacks its key.
proof fn lemma_entries_map_absent_of_distinct(s: Seq<StoreEntry>, i: int)
    requires
        distinct_keys(s),
        0 <= i < s.len(),
        i == s.len() - 1,
    ensures
        !entries_map(s.drop_last()).contains_key(s[i].key@),
{
    assert forall|j: int| 0 <= j < s.drop_last().len() implies s.drop_last()[j].key@ != s[i].key@
    by {
        assert(s.drop_last()[j] == s[j]);
    }
    lemma_entries_map_absent(s.drop_last(), s[i].key@);
}

/// A per-partition store: the last window item seen for each fingerprint.
pub struct TokenStore {
    entries: Vec<StoreEntry>,
}

impl View for TokenStore {
    type V = Map<Seq<char>, TokenItemV>;

    closed spec fn view(&self) -> Map<Seq<char>, TokenItemV> {
        entries_map(self.entries@)
    }
}

impl TokenStore {
    /// Whether the store's entries carry pairwise distinct keys.
    pub closed spec fn wf(&self) -> bool {
        distinct_keys(self.entries@)
    }

    /// An empty store.
    pub fn new() -> (r: TokenStore)
        ensures
            r@ == Map::<Seq<char>, TokenItemV>::empty(),
            r.wf(),
    {
        let r = TokenStore { entries: Vec::new() };
        proof {
            assert(r@ =~= Map::<Seq<char>, TokenItemV>::empty());
        }
        r
    }

    /// The index of the entry holding `key`, if any.
    fn find(&self, key: &String) -> (r: Option<usize>)
        requires
            self.wf(),
        ensures
            match r {
                Some(i) => i < self.entries@.len() && self.entries@[i as int].key@ == key@,
                None => !self@.contains_key(key@),
            },
    {
        let mut i: usize = 0;
        while i < self.entries.len()
            invariant
                i <= self.entries@.len(),
                forall|j: int| 0 <= j < i ==> self.entries@[j].key@ != key@,
            decreases self.entries@.len() - i,
        {
            if self.entries[i].key == *key {
                return Some(i);
            }
            i = i + 1;
        }
        proof {
            lemma_entries_map_absent(self.entries@, key@);
        }
        None
    }

    /// The last item stored under `key`, if any.
    pub fn get<'a>(&'a self, key: &String) -> (r: Option<&'a TokenItem>)
        requires
            self.wf(),
        ensures
            match r {
                Some(item) => self@.contains_key(key@) && item@ == self@[key@],
                None => !self@.contains_key(key@),
            },
    {
        match self.find(key) {
            Some(i) => {
                proof {
                    lemma_entries_map_get(self.entries@, i as int);
                }
                Some(&self.entries[i].item)
            },
            None => None,
        }
    }

    /// Bind `key` to `item`, overwriting any earlier binding.
    pub fn insert(&mut self, key: String, item: TokenItem)
        requires
            old(self).wf(),
        ensures
            final(self).wf(),
            final(self)@ == old(self)@.insert(key@, item@),
    {
        let ghost pre = self.entries@;
        match self.find(&key) {
            Some(i) => {
                proof {
                    lemma_entries_map_get(pre, i as int);
                    lemma_entries_map_remove(pre, i as int);
                }
                self.entries.remove(i);
                proof {
                    assert(distinct_keys(self.entries@)) by {
                        assert forall|a: int, b: int|
                            0 <= a < b < self.entries@.len() implies self.entries@[a].key@
                            != self.entries@[b].key@ by {
                            let a0 = if a < i { a } else { a + 1 };
                            let b0 = if b < i { b } else { b + 1 };
                            assert(self.entries@[a] == pre[a0]);
                            assert(self.entries@[b] == pre[b0]);
                        }
                    }
                }
            },
            None => {},
        }
        let ghost mid = self.entries@;
        let ghost keyv = key@;
        proof {
            assert(!entries_map(mid).contains_key(keyv));
            assert forall|j: int| 0 <= j < mid.len() implies mid[j].key@ != keyv by {
                lemma_entries_map_get(mid, j);
            }
        }
        self.entries.push(StoreEntry { key, item });
        proof {
            assert(self.entries@.drop_last() =~= mid);
            assert(self@ =~= old(self)@.insert(keyv, item@));
        }
    }
}

} // verus!
