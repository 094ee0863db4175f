//! The registry's state: the singleton configuration and the token records,
//! modelled as a vector of entries kept in strictly ascending identifier
//! order — the order in which the host's store ranges over its keys.
//!
//! Contracts speak of the state through two views: `entries()`, the stored
//! pairs in store order, and `nft_map()`, the same contents as a map from
//! token identifier to record.

use vstd::prelude::*;

use crate::keys::{
    key_lt, lemma_key_lt_irreflexive, lemma_key_lt_ne, lemma_key_lt_transitive,
};

verus! {

/// Registry-wide metadata, written once at instantiation and immutable
/// thereafter.
pub struct Config {
    pub name: String,
    pub symbol: String,
}

/// The record stored for one token: its owner, its metadata pointer, and its
/// asking price in the ledger's native unit.
pub struct NftData {
    pub owner: String,
    pub token_uri: String,
    pub price: u128,
}

/// Mathematical image of one token record.
pub ghost struct NftDataView {
    pub owner: Seq<char>,
    pub token_uri: Seq<char>,
    pub price: u128,
}

impl View for NftData {
    type V = NftDataView;

    open spec fn view(&self) -> NftDataView {
        NftDataView { owner: self.owner@, token_uri: self.token_uri@, price: self.price }
    }
}

/// One stored pair of token identifier and record.
pub struct Entry {
    pub token_id: String,
    pub data: NftData,
}

/// The stored pairs as ghost values, in store order.
pub open spec fn entries_of(v: Seq<Entry>) -> Seq<(Seq<char>, NftDataView)> {
    Seq::new(v.len(), |i: int| (v[i].token_id@, v[i].data@))
}

/// Keys strictly ascend, so each occurs once.
pub open spec fn sorted_keys(s: Seq<(Seq<char>, NftDataView)>) -> bool {
    forall|i: int, j: int|
        0 <= i < j < s.len() ==> key_lt(#[trigger] s[i].0, #[trigger] s[j].0)
}

/// No key occurs twice.
pub open spec fn distinct_keys(s: Seq<(Seq<char>, NftDataView)>) -> bool {
    forall|i: int, j: int| 0 <= i < j < s.len() ==> (#[trigger] s[i].0) != (#[trigger] s[j].0)
}

/// The pairs read as a map from token identifier to record.
pub open spec fn map_of(s: Seq<(Seq<char>, NftDataView)>) -> Map<Seq<char>, NftDataView>
    decreases s.len(),
{
    if s.len() == 0 {
        Map::empty()
    } else {
        map_of(s.drop_last()).insert(s.last().0, s.last().1)
    }
}

pub proof fn lemma_sorted_distinct(s: Seq<(Seq<char>, NftDataView)>)
    requires
        sorted_keys(s),
    ensures
        distinct_keys(s),
{
    assert forall|i: int, j: int| 0 <= i < j < s.len() implies (#[trigger] s[i].0)
        != (#[trigger] s[j].0) by {
        lemma_key_lt_ne(s[i].0, s[j].0);
    }
}

/// A key is in the map exactly when some pair holds it.
pub proof fn lemma_map_of_contains(s: Seq<(Seq<char>, NftDataView)>, k: Seq<char>)
    ensures
        map_of(s).contains_key(k) <==> (exists|i: int|
            0 <= i < s.len() && (#[trigger] s[i]).0 == k),
    decreases s.len(),
{
    if s.len() > 0 {
        lemma_map_of_contains(s.drop_last(), k);
        assert(forall|i: int|
            0 <= i < s.len() - 1 ==> (#[trigger] s.drop_last()[i]) == s[i]);
        if s.last().0 == k {
            assert((s[s.len() - 1]).0 == k);
        } else {
            if exists|i: int| 0 <= i < s.len() && (#[trigger] s[i]).0 == k {
                let i = choose|i: int| 0 <= i < s.len() && (#[trigger] s[i]).0 == k;
                assert(i < s.len() - 1);
                assert((s.drop_last()[i]).0 == k);
            }
        }
    }
}

/// With distinct keys, the map holds each pair's record under its key.
pub proof fn lemma_map_of_at(s: Seq<(Seq<char>, NftDataView)>, i: int)
    requires
        distinct_keys(s),
        0 <= i < s.len(),
    ensures
        map_of(s).contains_key(s[i].0),
        map_of(s)[s[i].0] == s[i].1,
    decreases s.len(),
{
    if i == s.len() - 1 {
    } else {
        assert(forall|j: int|
            0 <= j < s.len() - 1 ==> (#[trigger] s.drop_last()[j]) == s[j]);
        lemma_map_of_at(s.drop_last(), i);
        assert(s[i].0 != s.last().0);
    }
}

/// Replacing the record at one position rewrites the map at that pair's key.
pub proof fn lemma_map_of_update(s: Seq<(Seq<char>, NftDataView)>, i: int, v: NftDataView)
    requires
        distinct_keys(s),
        0 <= i < s.len(),
    ensures
        map_of(s.update(i, (s[i].0, v))) == map_of(s).insert(s[i].0, v),
    decreases s.len(),
{
    let k = s[i].0;
    let s2 = s.update(i, (k, v));
    if i == s.len() - 1 {
        assert(s2.drop_last() =~= s.drop_last());
        assert(s2.last() == (k, v));
        assert(map_of(s.drop_last()).insert(k, s.last().1).insert(k, v) =~= map_of(
            s.drop_last(),
        ).insert(k, v));
    } else {
        assert(forall|j: int|
            0 <= j < s.len() - 1 ==> (#[trigger] s.drop_last()[j]) == s[j]);
        lemma_map_of_update(s.drop_last(), i, v);
        assert(s2.drop_last() =~= s.drop_last().update(i, (k, v)));
        assert(s2.last() == s.last());
        let lk = s.last().0;
        let lv = s.last().1;
        assert(k != lk);
        assert(map_of(s.drop_last()).insert(k, v).insert(lk, lv) =~= map_of(
            s.drop_last(),
        ).insert(lk, lv).insert(k, v));
    }
}

/// Inserting a pair with a fresh key anywhere extends the map by that pair.
pub proof fn lemma_map_of_insert(
    s: Seq<(Seq<char>, NftDataView)>,
    p: int,
    k: Seq<char>,
    v: NftDataView,
)
    requires
        0 <= p <= s.len(),
        forall|i: int| 0 <= i < s.len() ==> (#[trigger] s[i]).0 != k,
    ensures
        map_of(s.insert(p, (k, v))) == map_of(s).insert(k, v),
    decreases s.len(),
{
    let s2 = s.insert(p, (k, v));
    s.insert_ensures(p, (k, v));
    if p == s.len() {
        assert(s2.drop_last() =~= s);
        assert(s2.last() == (k, v));
    } else {
        assert(s2.last() == s2[s.len() as int]);
        assert(s2.last() == s.last());
        assert(forall|j: int|
            0 <= j < s.len() - 1 ==> (#[trigger] s.drop_last()[j]) == s[j]);
        s.drop_last().insert_ensures(p, (k, v));
        assert(s2.drop_last() =~= s.drop_last().insert(p, (k, v)));
        lemma_map_of_insert(s.drop_last(), p, k, v);
        let lk = s.last().0;
        let lv = s.last().1;
        assert(lk != k);
        assert(map_of(s.drop_last()).insert(k, v).insert(lk, lv) =~= map_of(
            s.drop_last(),
        ).insert(lk, lv).insert(k, v));
    }
}

/// With distinct keys the map is exactly as large as the pair sequence.
pub proof fn lemma_map_of_len(s: Seq<(Seq<char>, NftDataView)>)
    requires
        distinct_keys(s),
    ensures
        map_of(s).dom().finite(),
        map_of(s).len() == s.len(),
    decreases s.len(),
{
    if s.len() > 0 {
        assert(forall|j: int|
            0 <= j < s.len() - 1 ==> (#[trigger] s.drop_last()[j]) == s[j]);
        lemma_map_of_len(s.drop_last());
        lemma_map_of_contains(s.drop_last(), s.last().0);
        assert(!map_of(s.drop_last()).contains_key(s.last().0));
    }
}

/// Inserting at the boundary between smaller and larger keys keeps the keys
/// sorted.
pub proof fn lemma_sorted_insert(
    s: Seq<(Seq<char>, NftDataView)>,
    p: int,
    k: Seq<char>,
    v: NftDataView,
)
    requires
        sorted_keys(s),
        0 <= p <= s.len(),
        forall|j: int| 0 <= j < p ==> key_lt((#[trigger] s[j]).0, k),
        forall|j: int| p <= j < s.len() ==> key_lt(k, (#[trigger] s[j]).0),
    ensures
        sorted_keys(s.insert(p, (k, v))),
{
    let s2 = s.insert(p, (k, v));
    s.insert_ensures(p, (k, v));
    assert forall|i: int, j: int| 0 <= i < j < s2.len() implies key_lt(
        #[trigger] s2[i].0,
        #[trigger] s2[j].0,
    ) by {
        if i < p && j < p {
            assert(s2[i] == s[i] && s2[j] == s[j]);
        } else if i < p && j == p {
            assert(s2[i] == s[i] && s2[j] == (k, v));
        } else if i < p && j > p {
            assert(s2[i] == s[i] && s2[j] == s[j - 1]);
        } else if i == p {
            assert(s2[i] == (k, v) && s2[j] == s[j - 1]);
        } else {
            assert(s2[i] == s[i - 1] && s2[j] == s[j - 1]);
        }
    }
}

/// Replacing one stored entry replaces one pair of the view.
pub proof fn lemma_entries_of_update(v: Seq<Entry>, i: int, e: Entry)
    requires
        0 <= i < v.len(),
    ensures
        entries_of(v.update(i, e)) =~= entries_of(v).update(i, (e.token_id@, e.data@)),
{
    assert forall|j: int| 0 <= j < v.len() implies entries_of(v.update(i, e))[j] == entries_of(
        v,
    ).update(i, (e.token_id@, e.data@))[j] by {
        if j != i {
            assert(v.update(i, e)[j] == v[j]);
        }
    }
}

/// Inserting one stored entry inserts one pair of the view.
pub proof fn lemma_entries_of_insert(v: Seq<Entry>, i: int, e: Entry)
    requires
        0 <= i <= v.len(),
    ensures
        entries_of(v.insert(i, e)) =~= entries_of(v).insert(i, (e.token_id@, e.data@)),
{
    v.insert_ensures(i, e);
    entries_of(v).insert_ensures(i, (e.token_id@, e.data@));
    assert forall|j: int| 0 <= j < v.len() + 1 implies entries_of(v.insert(i, e))[j] == entries_of(
        v,
    ).insert(i, (e.token_id@, e.data@))[j] by {
        if j < i {
            assert(v.insert(i, e)[j] == v[j]);
        } else if j == i {
            assert(v.insert(i, e)[j] == e);
        } else {
            assert(v.insert(i, e)[j] == v[j - 1]);
            assert(entries_of(v).insert(i, (e.token_id@, e.data@))[j] == entries_of(v)[j - 1]);
        }
    }
}

/// Replacing the record behind an existing key keeps the keys sorted.
pub proof fn lemma_sorted_update_same_key(s: Seq<(Seq<char>, NftDataView)>, i: int, v: NftDataView)
    requires
        sorted_keys(s),
        0 <= i < s.len(),
    ensures
        sorted_keys(s.update(i, (s[i].0, v))),
{
    let s2 = s.update(i, (s[i].0, v));
    assert forall|a: int, b: int| 0 <= a < b < s2.len() implies key_lt(
        #[trigger] s2[a].0,
        #[trigger] s2[b].0,
    ) by {
        assert(s2[a].0 == s[a].0);
        assert(s2[b].0 == s[b].0);
    }
}

/// Law: the map view is lossless — two stores with sorted keys and the same
/// map hold the same pairs in the same order, so the contracts' map-level
/// postconditions pin the store down completely.
pub proof fn lemma_sorted_map_canonical(
    s1: Seq<(Seq<char>, NftDataView)>,
    s2: Seq<(Seq<char>, NftDataView)>,
)
    requires
        sorted_keys(s1),
        sorted_keys(s2),
        map_of(s1) == map_of(s2),
    ensures
        s1 == s2,
    decreases s1.len(),
{
    lemma_sorted_distinct(s1);
    lemma_sorted_distinct(s2);
    lemma_map_of_len(s1);
    lemma_map_of_len(s2);
    if s1.len() == 0 {
        assert(s1 =~= s2);
    } else {
        let n = s1.len() - 1;
        assert(s1[n] == s1.last());
        assert(s2[n] == s2.last());
        // Each sequence's last key is the other's largest, so they coincide.
        lemma_map_of_contains(s2, s1.last().0);
        let j = choose|j: int| 0 <= j < s2.len() && (#[trigger] s2[j]).0 == s1.last().0;
        lemma_map_of_contains(s1, s2.last().0);
        let i = choose|i: int| 0 <= i < s1.len() && (#[trigger] s1[i]).0 == s2.last().0;
        if j < n && i < n {
            assert(key_lt(s2[j].0, s2.last().0));
            assert(key_lt(s1[i].0, s1.last().0));
            lemma_key_lt_transitive(s1.last().0, s2.last().0, s1.last().0);
            lemma_key_lt_irreflexive(s1.last().0);
        }
        let k = s1.last().0;
        assert(s2.last().0 == k);
        // The shared map holds the shared value behind the last key.
        lemma_map_of_at(s1, n);
        lemma_map_of_at(s2, n);
        assert(s1.last().1 == s2.last().1);
        // Dropping the last pair drops exactly that key from both maps.
        assert(forall|a: int|
            0 <= a < s1.len() - 1 ==> (#[trigger] s1.drop_last()[a]) == s1[a]);
        assert(forall|a: int|
            0 <= a < s2.len() - 1 ==> (#[trigger] s2.drop_last()[a]) == s2[a]);
        lemma_map_of_contains(s1.drop_last(), k);
        lemma_map_of_contains(s2.drop_last(), k);
        assert(!map_of(s1.drop_last()).contains_key(k));
        assert(!map_of(s2.drop_last()).contains_key(k));
        assert(map_of(s1.drop_last()) =~= map_of(s2.drop_last())) by {
            assert forall|k2: Seq<char>|
                #[trigger] map_of(s1.drop_last()).contains_key(k2) implies map_of(
                s2.drop_last(),
            ).contains_key(k2) && map_of(s2.drop_last())[k2] == map_of(s1.drop_last())[k2] by {
                assert(k2 != k);
                assert(map_of(s1)[k2] == map_of(s1.drop_last())[k2]);
                assert(map_of(s2).contains_key(k2));
                assert(map_of(s2.drop_last()).contains_key(k2));
            }
            assert forall|k2: Seq<char>|
                #[trigger] map_of(s2.drop_last()).contains_key(k2) implies map_of(
                s1.drop_last(),
            ).contains_key(k2) by {
                assert(k2 != k);
                assert(map_of(s1).contains_key(k2));
            }
        }
        assert(sorted_keys(s1.drop_last()));
        assert(sorted_keys(s2.drop_last()));
        lemma_sorted_map_canonical(s1.drop_last(), s2.drop_last());
        assert forall|a: int| 0 <= a < s1.len() implies s1[a] == s2[a] by {
            if a < n {
                assert(s1[a] == s1.drop_last()[a]);
                assert(s2[a] == s2.drop_last()[a]);
            }
        }
        assert(s1 =~= s2);
    }
}

/// The contract's whole state: the configuration slot and every token record,
/// in ascending token-identifier order.
pub struct Registry {
    pub config: Option<Config>,
    pub nfts: Vec<Entry>,
}

impl Registry {
    /// The stored pairs in store order.
    pub open spec fn entries(self) -> Seq<(Seq<char>, NftDataView)> {
        entries_of(self.nfts@)
    }

    /// The store as a map from token identifier to record.
    pub open spec fn nft_map(self) -> Map<Seq<char>, NftDataView> {
        map_of(self.entries())
    }

    /// Well-formedness: entries strictly ascend by token identifier.
    pub open spec fn wf(self) -> bool {
        sorted_keys(self.entries())
    }

    /// An empty registry, as the host hands a freshly deployed contract.
    pub fn new() -> (r: Registry)
        ensures
            r.wf(),
            r.nft_map() == Map::<Seq<char>, NftDataView>::empty(),
            r.entries() == Seq::<(Seq<char>, NftDataView)>::empty(),
            r.config is None,
    {
        let r = Registry { config: None, nfts: Vec::new() };
        proof {
            assert(r.entries() =~= Seq::<(Seq<char>, NftDataView)>::empty());
        }
        r
    }

    /// Index of the entry holding `token_id`, if one exists.
    pub(crate) fn find(&self, token_id: &String) -> (r: Option<usize>)
        ensures
            match r {
                Some(i) => i < self.nfts@.len() && self.nfts@[i as int].token_id@ == token_id@,
                None => forall|i: int|
                    0 <= i < self.nfts@.len() ==> (#[trigger] self.nfts@[i]).token_id@
                        != token_id@,
            },
    {
        let mut i: usize = 0;
        while i < self.nfts.len()
            invariant
                i <= self.nfts@.len(),
                forall|j: int| 0 <= j < i ==> (#[trigger] self.nfts@[j]).token_id@ != token_id@,
            decreases self.nfts@.len() - i,
        {
            if self.nfts[i].token_id == *token_id {
                return Some(i);
            }
            i += 1;
        }
        None
    }

    /// With a well-formed state, a found index names the record the map holds
    /// under that key, and a fruitless search means the key is absent.
    pub proof fn lemma_find_result(self, r: Option<usize>, k: Seq<char>)
        requires
            self.wf(),
            match r {
                Some(i) => i < self.nfts@.len() && self.nfts@[i as int].token_id@ == k,
                None => forall|i: int|
                    0 <= i < self.nfts@.len() ==> (#[trigger] self.nfts@[i]).token_id@ != k,
            },
        ensures
            match r {
                Some(i) => self.nft_map().contains_key(k) && self.nft_map()[k]
                    == self.entries()[i as int].1 && self.entries()[i as int].0 == k,
                None => !self.nft_map().contains_key(k),
            },
    {
        lemma_sorted_distinct(self.entries());
        match r {
            Some(i) => {
                lemma_map_of_at(self.entries(), i as int);
            },
            None => {
                lemma_map_of_contains(self.entries(), k);
            },
        }
    }
}

} // verus!
