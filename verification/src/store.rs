//! The account-scoped key/value store that holds the lifecycle flag.
//!
//! The host persists contract state per account; handlers receive the store
//! of the invoked account as an injected capability, so that an embedding
//! can substitute an in-memory store. The store is modelled as a map from
//! key text to value bytes; a key that was never written reads as empty.

use vstd::prelude::*;

verus! {

/// The value under `key` in store state `state`: the stored bytes, or the
/// empty sequence when the key was never written.
pub open spec fn stored(state: Map<Seq<char>, Seq<u8>>, key: Seq<char>) -> Seq<u8> {
    if state.contains_key(key) {
        state[key]
    } else {
        Seq::empty()
    }
}

/// The value bound to `key` by `entries`, where a later entry overrides an
/// earlier one with the same key.
spec fn lookup(entries: Seq<(String, Vec<u8>)>, key: Seq<char>) -> Option<Seq<u8>>
    decreases entries.len(),
{
    if entries.len() == 0 {
        None
    } else if entries.last().0@ == key {
        Some(entries.last().1@)
    } else {
        lookup(entries.drop_last(), key)
    }
}

/// The map that `entries` denotes, with later entries overriding earlier
/// ones.
spec fn entries_map(entries: Seq<(String, Vec<u8>)>) -> Map<Seq<char>, Seq<u8>>
    decreases entries.len(),
{
    if entries.len() == 0 {
        Map::empty()
    } else {
        entries_map(entries.drop_last()).insert(entries.last().0@, entries.last().1@)
    }
}

proof fn lemma_lookup_entries_map(entries: Seq<(String, Vec<u8>)>, key: Seq<char>)
    ensures
        entries_map(entries).contains_key(key) <==> lookup(entries, key) is Some,
        entries_map(entries).contains_key(key) ==> Some(entries_map(entries)[key])
            == lookup(entries, key),
    decreases entries.len(),
{
    if entries.len() > 0 {
        lemma_lookup_entries_map(entries.drop_last(), key);
    }
}

/// Key/value state of one account, as a host embedding would persist it.
pub struct AccountStore {
    entries: Vec<(String, Vec<u8>)>,
}

impl View for AccountStore {
    type V = Map<Seq<char>, Seq<u8>>;

    closed spec fn view(&self) -> Map<Seq<char>, Seq<u8>> {
        entries_map(self.entries@)
    }
}

impl AccountStore {
    /// A store in which no key has been written yet.
    pub fn new() -> (s: Self)
        ensures
            s@ == Map::<Seq<char>, Seq<u8>>::empty(),
    {
        AccountStore { entries: Vec::new() }
    }

    /// Writes `data` under `key`, replacing any earlier value.
    pub fn store_data(&mut self, key: &str, data: Vec<u8>)
        ensures
            final(self)@ == old(self)@.insert(key@, data@),
    {
        let owned: String = key.to_owned();
        self.entries.push((owned, data));
        proof {
            assert(self.entries@.drop_last() =~= old(self).entries@);
        }
    }

    /// Reads the value under `key`; a key that was never written reads as
    /// an empty value.
    pub fn load_data(&self, key: &str) -> (r: Vec<u8>)
        ensures
            r@ == stored(self@, key@),
    {
        let wanted: String = key.to_owned();
        proof {
            lemma_lookup_entries_map(self.entries@, key@);
            assert(self.entries@.subrange(0, self.entries@.len() as int) =~= self.entries@);
        }

        let mut i: usize = self.entries.len();
        loop
            invariant
                i <= self.entries@.len(),
                wanted@ == key@,
                lookup(self.entries@, key@) == lookup(
                    self.entries@.subrange(0, i as int),
                    key@,
                ),
                entries_map(self.entries@).contains_key(key@) <==> lookup(
                    self.entries@,
                    key@,
                ) is Some,
                entries_map(self.entries@).contains_key(key@) ==> Some(
                    entries_map(self.entries@)[key@],
                ) == lookup(self.entries@, key@),
                self@ == entries_map(self.entries@),
            decreases i,
        {
            if i == 0 {
                return Vec::new();
            }
            i = i - 1;
            proof {
                assert(self.entries@.subrange(0, i + 1 as int).drop_last() =~= self
                    .entries@
                    .subrange(0, i as int));
                assert(self.entries@.subrange(0, i + 1 as int).last() == self.entries@[i as int]);
            }
            if self.entries[i].0 == wanted {
                return self.entries[i].1.clone();
            }
        }
    }
}

} // verus!
