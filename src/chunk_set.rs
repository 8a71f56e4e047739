//! A set of chunk coordinates, kept in bevy's hash set.

use vstd::prelude::*;

verus! {

/// The integer position of a chunk in the infinite grid.
pub type ChunkCoord = (i32, i32);

/// A set of chunk coordinates backed by `bevy::utils::HashSet`.
///
/// Verus sees the set only through `chunk_set_contents`; each operation below
/// states what it does to those contents.
#[verifier::external_body]
pub struct ChunkSet {
    inner: bevy::utils::HashSet<(i32, i32)>,
}

/// The coordinates that a chunk set holds.
pub uninterp spec fn chunk_set_contents(s: ChunkSet) -> Set<(i32, i32)>;

impl View for ChunkSet {
    type V = Set<ChunkCoord>;

    open spec fn view(&self) -> Set<ChunkCoord> {
        chunk_set_contents(*self)
    }
}

impl ChunkSet {
    /// Relies on `hashbrown::HashSet::default`: a new set holds nothing.
    #[verifier::external_body]
    pub(crate) fn new() -> (s: ChunkSet)
        ensures
            chunk_set_contents(s) == Set::<ChunkCoord>::empty(),
    {
        ChunkSet { inner: bevy::utils::HashSet::default() }
    }

    /// Relies on `hashbrown::HashSet::contains`: membership of the coordinate.
    #[verifier::external_body]
    pub(crate) fn contains(&self, c: ChunkCoord) -> (r: bool)
        ensures
            r == chunk_set_contents(*self).contains(c),
    {
        self.inner.contains(&c)
    }

    /// Relies on `hashbrown::HashSet::insert`: the coordinate is added, and the
    /// result tells whether it was absent before.
    #[verifier::external_body]
    pub(crate) fn insert(&mut self, c: ChunkCoord) -> (r: bool)
        ensures
            chunk_set_contents(*final(self)) == chunk_set_contents(*old(self)).insert(c),
            r == !chunk_set_contents(*old(self)).contains(c),
    {
        self.inner.insert(c)
    }

    /// Relies on `hashbrown::HashSet::clear`: afterwards the set holds nothing.
    #[verifier::external_body]
    pub(crate) fn clear(&mut self)
        ensures
            chunk_set_contents(*final(self)) == Set::<ChunkCoord>::empty(),
    {
        self.inner.clear()
    }

    /// Relies on `hashbrown::HashSet::iter`, which visits every element once,
    /// in an order that the set does not fix.
    #[verifier::external_body]
    pub(crate) fn to_vec(&self) -> (r: Vec<ChunkCoord>)
        ensures
            r@.to_set() == chunk_set_contents(*self),
            r@.no_duplicates(),
    {
        self.inner.iter().copied().collect()
    }
}

} // verus!
