//! Entries filed under accounts, read as maps.
//!
//! The registries keep their entries in vectors and find an entry by
//! scanning for its account. Their views are maps; this module says which
//! map a list of keys and an equally long list of values stand for, what
//! the list operations do to that map, and how a vector is searched.

use vstd::prelude::*;

use crate::types::AccountId;

verus! {

/// The map that sends each key of `keys` to the value at the key's position.
pub open spec fn assoc<K, V>(keys: Seq<K>, vals: Seq<V>) -> Map<K, V> {
    Map::new(|k: K| keys.contains(k), |k: K| vals[keys.index_of(k)])
}

/// With distinct keys, the entry at position `i` is the map's entry for
/// the key at `i`.
pub proof fn lemma_assoc_at<K, V>(keys: Seq<K>, vals: Seq<V>, i: int)
    requires
        keys.no_duplicates(),
        0 <= i < keys.len(),
    ensures
        assoc(keys, vals).dom().contains(keys[i]),
        assoc(keys, vals)[keys[i]] == vals[i],
{
    assert(keys.contains(keys[i]));
}

/// Appending an entry under a new key inserts it into the map.
pub proof fn lemma_assoc_push<K, V>(keys: Seq<K>, vals: Seq<V>, k: K, v: V)
    requires
        keys.no_duplicates(),
        keys.len() == vals.len(),
        !keys.contains(k),
    ensures
        keys.push(k).no_duplicates(),
        assoc(keys.push(k), vals.push(v)) == assoc(keys, vals).insert(k, v),
{
    let keys2 = keys.push(k);
    let vals2 = vals.push(v);
    assert(keys2[keys.len() as int] == k);
    assert forall|x: K| #[trigger] keys2.contains(x) <==> keys.contains(x) || x == k by {
        if keys.contains(x) {
            let i = keys.index_of(x);
            assert(keys2[i] == x);
        }
    }
    assert forall|x: K| keys2.contains(x) implies #[trigger] vals2[keys2.index_of(x)] == (if x
        == k {
        v
    } else {
        vals[keys.index_of(x)]
    }) by {
        let j = keys2.index_of(x);
        if x != k {
            assert(keys[j] == x);
            assert(keys.contains(x));
        }
    }
    assert(assoc(keys2, vals2) =~= assoc(keys, vals).insert(k, v));
}

/// Replacing the value at position `i` replaces the map's entry for the
/// key at `i`.
pub proof fn lemma_assoc_update<K, V>(keys: Seq<K>, vals: Seq<V>, i: int, v: V)
    requires
        keys.no_duplicates(),
        keys.len() == vals.len(),
        0 <= i < keys.len(),
    ensures
        assoc(keys, vals.update(i, v)) == assoc(keys, vals).insert(keys[i], v),
{
    assert(keys.contains(keys[i]));
    assert(assoc(keys, vals.update(i, v)) =~= assoc(keys, vals).insert(keys[i], v));
}

/// The map has an entry for each key of the list and for nothing else.
pub proof fn lemma_assoc_dom<K, V>(keys: Seq<K>, vals: Seq<V>)
    ensures
        assoc(keys, vals).dom() == keys.to_set(),
        assoc(keys, vals).dom().finite(),
{
    vstd::seq_lib::seq_to_set_is_finite(keys);
    assert(assoc(keys, vals).dom() =~= keys.to_set());
}

/// An entry that is filed under an account.
pub trait Keyed {
    /// The account the entry is filed under.
    spec fn key(&self) -> Seq<char>;

    /// The account the entry is filed under.
    fn account(&self) -> (account: &AccountId)
        ensures
            account@ == self.key(),
    ;
}

impl Keyed for AccountId {
    open spec fn key(&self) -> Seq<char> {
        self@
    }

    fn account(&self) -> (account: &AccountId) {
        self
    }
}

/// The accounts of the entries, in the order of the entries.
pub open spec fn keys_of<T: Keyed>(entries: Seq<T>) -> Seq<Seq<char>> {
    entries.map_values(|e: T| e.key())
}

/// Appending an entry appends its account.
pub proof fn lemma_keys_push<T: Keyed>(entries: Seq<T>, entry: T)
    ensures
        keys_of(entries.push(entry)) == keys_of(entries).push(entry.key()),
{
    assert(keys_of(entries.push(entry)) =~= keys_of(entries).push(entry.key()));
}

/// Where the entry of `account` stands, if there is one.
pub fn position<T: Keyed>(entries: &Vec<T>, account: &AccountId) -> (at: Option<usize>)
    ensures
        match at {
            Some(i) => i < entries@.len() && keys_of(entries@)[i as int] == account@,
            None => !keys_of(entries@).contains(account@),
        },
{
    let mut i: usize = 0;
    while i < entries.len()
        invariant
            i <= entries@.len(),
            forall|j: int| 0 <= j < i ==> keys_of(entries@)[j] != account@,
        decreases entries@.len() - i,
    {
        if *entries[i].account() == *account {
            return Some(i);
        }
        i = i + 1;
    }
    None
}

/// Whether no two entries are filed under the same account.
pub fn all_distinct<T: Keyed>(entries: &Vec<T>) -> (r: bool)
    ensures
        r == keys_of(entries@).no_duplicates(),
{
    let ghost keys = keys_of(entries@);
    let mut i: usize = 0;
    while i < entries.len()
        invariant
            i <= entries@.len(),
            keys == keys_of(entries@),
            forall|a: int, b: int| 0 <= a < b < i ==> keys[a] != keys[b],
        decreases entries@.len() - i,
    {
        let mut j: usize = 0;
        while j < i
            invariant
                j <= i < entries@.len(),
                keys == keys_of(entries@),
                forall|b: int| 0 <= b < j ==> keys[b] != keys[i as int],
            decreases i - j,
        {
            if *entries[j].account() == *entries[i].account() {
                assert(keys[j as int] == keys[i as int]);
                return false;
            }
            j = j + 1;
        }
        i = i + 1;
    }
    true
}

} // verus!
