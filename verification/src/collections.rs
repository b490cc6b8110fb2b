//! Hash-backed lookup from 64-bit identifiers to positions in an arena.
//!
//! Tables, registers and operators are all named by 64-bit hashes. The values
//! themselves live in plain vectors; an [`IdMap`] remembers at which position
//! of such a vector the value with a given identifier stands.

use vstd::prelude::*;

verus! {

/// A map from identifiers to arena positions, stored in a `hashbrown::HashMap`.
///
/// The verifier does not look inside the map: what it holds is the abstract
/// map [`id_map_entries`], and the three methods below are believed to act on
/// it as their contracts say.
#[verifier::external_body]
#[derive(Debug)]
pub struct IdMap {
    inner: hashbrown::HashMap<u64, usize>,
}

/// The entries that an [`IdMap`] holds: one position for each identifier that
/// was inserted, the position given at its last insertion.
pub uninterp spec fn id_map_entries(m: IdMap) -> Map<u64, usize>;

/// The map without entries.
pub open spec fn no_entries() -> Map<u64, usize> {
    Map::empty()
}

impl View for IdMap {
    type V = Map<u64, usize>;

    open spec fn view(&self) -> Map<u64, usize> {
        id_map_entries(*self)
    }
}

impl IdMap {
    /// Calls `hashbrown::HashMap::new`: the new map holds no entry.
    #[verifier::external_body]
    pub(crate) fn new() -> (m: IdMap)
        ensures
            id_map_entries(m) == no_entries(),
    {
        IdMap { inner: hashbrown::HashMap::new() }
    }

    /// Calls `hashbrown::HashMap::insert`: afterwards `key` is bound to
    /// `slot`, whether or not it was bound before, and every other entry is
    /// as it was.
    #[verifier::external_body]
    pub(crate) fn insert(&mut self, key: u64, slot: usize)
        ensures
            id_map_entries(*final(self)) == id_map_entries(*old(self)).insert(key, slot),
    {
        self.inner.insert(key, slot);
    }

    /// Calls `hashbrown::HashMap::get`: the position bound to `key`, or
    /// `None` when the map holds no entry for it.
    #[verifier::external_body]
    pub(crate) fn get(&self, key: u64) -> (slot: Option<usize>)
        ensures
            slot == (if id_map_entries(*self).dom().contains(key) {
                Some(id_map_entries(*self)[key])
            } else {
                None
            }),
    {
        self.inner.get(&key).copied()
    }
}

} // verus!
