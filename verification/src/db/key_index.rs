//! The primary-key index of a table: a hash map from key bytes to row ids.

use vstd::prelude::*;

verus! {

/// A `hashbrown` map from the bytes of a primary key to a row id.
#[verifier::external_body]
pub struct KeyIndex {
    map: hashbrown::HashMap<Vec<u8>, usize, ahash::RandomState>,
}

/// The key-to-row-id pairs that the index holds.
pub uninterp spec fn key_index_contents(m: KeyIndex) -> Map<Seq<u8>, usize>;

impl KeyIndex {
    /// `hashbrown::HashMap::with_hasher` with a fresh `ahash::RandomState`:
    /// an empty map.
    #[verifier::external_body]
    pub(crate) fn new() -> (m: Self)
        ensures
            key_index_contents(m).dom() == Set::<Seq<u8>>::empty(),
    {
        KeyIndex { map: hashbrown::HashMap::with_hasher(ahash::RandomState::new()) }
    }

    /// `hashbrown::HashMap::insert`: maps the key to the row id, replacing any
    /// previous row id of the key.
    #[verifier::external_body]
    pub(crate) fn insert(&mut self, k: Vec<u8>, v: usize)
        ensures
            key_index_contents(*final(self)) == key_index_contents(*old(self)).insert(k@, v),
    {
        self.map.insert(k, v);
    }

    /// `hashbrown::HashMap::get`: the row id of the key, if the map holds the key.
    #[verifier::external_body]
    pub(crate) fn get(&self, k: &[u8]) -> (r: Option<usize>)
        ensures
            r == (if key_index_contents(*self).dom().contains(k@) {
                Some(key_index_contents(*self)[k@])
            } else {
                None
            }),
    {
        self.map.get(k).copied()
    }

    /// `hashbrown::HashMap::remove`: removes the key from the map.
    #[verifier::external_body]
    pub(crate) fn remove(&mut self, k: &[u8])
        ensures
            key_index_contents(*final(self)) == key_index_contents(*old(self)).remove(k@),
    {
        self.map.remove(k);
    }
}

} // verus!
