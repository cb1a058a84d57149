//! Boundaries between neighboring cells, and the set of boundaries that paths
//! have claimed.

use crate::coord::{Coordinate, Direction};
use crate::layout::{cell_center, center_of, edge_midpoint_of, LatticePoint, PlanePoint};
use vstd::prelude::*;

verus! {

/// The boundary shared by two cells, named by the two cells in lexicographic
/// order so that either side gives the same key.
#[derive(Clone, Copy, Debug, PartialEq, Eq, Structural, Hash)]
pub struct EdgeKey {
    pub lo: Coordinate,
    pub hi: Coordinate,
}

impl EdgeKey {
    /// Whether the two cells are in order: `hi` does not come before `lo`.
    pub open spec fn canonical(self) -> bool {
        !self.hi@.precedes(self.lo@)
    }

    /// Whether the key names a boundary of the grid: the two cells are
    /// neighbors.
    pub open spec fn is_boundary(self) -> bool {
        self.lo@.is_neighbor(self.hi@)
    }

    /// The key of the unordered pair `{a, b}`.
    pub open spec fn spec_new(a: Coordinate, b: Coordinate) -> EdgeKey {
        if b@.precedes(a@) {
            EdgeKey { lo: b, hi: a }
        } else {
            EdgeKey { lo: a, hi: b }
        }
    }

    /// The point halfway between the centers of the two cells; for
    /// neighbors, the midpoint of their common edge.
    pub open spec fn spec_midpoint(self) -> PlanePoint {
        PlanePoint {
            u: (center_of(self.lo@).u + center_of(self.hi@).u) / 2,
            v: (center_of(self.lo@).v + center_of(self.hi@).v) / 2,
        }
    }

    /// The key of the unordered pair `{a, b}`: the smaller cell first.
    pub fn new(a: Coordinate, b: Coordinate) -> (key: EdgeKey)
        ensures
            key == EdgeKey::spec_new(a, b),
            key.canonical(),
    {
        if b.precedes(&a) {
            EdgeKey { lo: b, hi: a }
        } else {
            EdgeKey { lo: a, hi: b }
        }
    }

    /// The point halfway between the centers of the two cells.
    pub fn midpoint(&self) -> (p: LatticePoint)
        ensures
            p@ == self.spec_midpoint(),
    {
        let a = cell_center(self.lo);
        let b = cell_center(self.hi);
        LatticePoint { u: (a.u + b.u) / 2, v: (a.v + b.v) / 2 }
    }
}

/// Two pairs of cells have the same key exactly when they are the same
/// unordered pair.
pub proof fn lemma_edge_key_unordered(a: Coordinate, b: Coordinate, c: Coordinate, d: Coordinate)
    ensures
        EdgeKey::spec_new(a, b) == EdgeKey::spec_new(c, d) <==> (a == c && b == d) || (a == d && b
            == c),
        EdgeKey::spec_new(a, b) == EdgeKey::spec_new(b, a),
        EdgeKey::spec_new(a, b).canonical(),
{
}

/// The key of a cell and its neighbor in direction `d` names a boundary, and
/// its midpoint is the midpoint of the cell's edge that faces `d`.
pub proof fn lemma_edge_key_midpoint(a: Coordinate, b: Coordinate, d: Direction)
    requires
        b@ == a@.step(d),
    ensures
        EdgeKey::spec_new(a, b).is_boundary(),
        EdgeKey::spec_new(a, b).spec_midpoint() == edge_midpoint_of(a@, d),
        EdgeKey::spec_new(a, b).spec_midpoint() == edge_midpoint_of(b@, d.spec_opposite()),
{
    let key = EdgeKey::spec_new(a, b);
    assert(b@ == a@.step(d));
    assert(a@ == b@.step(d.spec_opposite()));
    if b@.precedes(a@) {
        assert(key.hi@ == key.lo@.step(d.spec_opposite()));
    } else {
        assert(key.hi@ == key.lo@.step(d));
    }
}

/// Among boundaries, the midpoint tells the key: two canonical keys of
/// neighboring cells with the same midpoint are equal.
pub proof fn lemma_midpoint_identifies_key(j: EdgeKey, k: EdgeKey)
    requires
        j.canonical(),
        k.canonical(),
        j.is_boundary(),
        k.is_boundary(),
        j.spec_midpoint() == k.spec_midpoint(),
    ensures
        j == k,
{
    let dj = choose|d: Direction| j.hi@ == #[trigger] j.lo@.step(d);
    let dk = choose|d: Direction| k.hi@ == #[trigger] k.lo@.step(d);
    assert(j.hi@ == j.lo@.step(dj));
    assert(k.hi@ == k.lo@.step(dk));
}

/// The boundaries that paths have claimed so far. A well-formed set stores
/// nothing twice.
pub struct ClaimedEdgeSet {
    edges: Vec<EdgeKey>,
}

impl View for ClaimedEdgeSet {
    type V = Set<EdgeKey>;

    closed spec fn view(&self) -> Set<EdgeKey> {
        self.edges@.to_set()
    }
}

impl ClaimedEdgeSet {
    /// Nothing is stored twice. Every function here that makes or changes a
    /// set leaves it well-formed.
    pub closed spec fn wf(&self) -> bool {
        self.edges@.no_duplicates()
    }

    /// A well-formed set is finite.
    pub proof fn lemma_finite(&self)
        ensures
            self@.finite(),
    {
        vstd::seq_lib::seq_to_set_is_finite(self.edges@);
    }

    /// The empty set.
    pub fn new() -> (set: ClaimedEdgeSet)
        ensures
            set.wf(),
            set@ == Set::<EdgeKey>::empty(),
    {
        let set = ClaimedEdgeSet { edges: Vec::new() };
        assert(set@ =~= Set::<EdgeKey>::empty());
        set
    }

    /// The number of claimed boundaries.
    pub fn len(&self) -> (n: usize)
        requires
            self.wf(),
        ensures
            self@.finite(),
            n == self@.len(),
    {
        proof {
            self.edges@.unique_seq_to_set();
            vstd::seq_lib::seq_to_set_is_finite(self.edges@);
        }
        self.edges.len()
    }

    /// Whether `key` has been claimed.
    pub fn contains(&self, key: EdgeKey) -> (found: bool)
        ensures
            found == self@.contains(key),
    {
        let mut i: usize = 0;
        while i < self.edges.len()
            invariant
                i <= self.edges@.len(),
                forall|j: int| 0 <= j < i ==> self.edges@[j] != key,
            decreases self.edges@.len() - i,
        {
            if self.edges[i] == key {
                return true;
            }
            i += 1;
        }
        false
    }

    /// Claims `key`. Returns whether it was free: `false` leaves the set as
    /// it was.
    pub fn insert(&mut self, key: EdgeKey) -> (fresh: bool)
        requires
            old(self).wf(),
        ensures
            final(self).wf(),
            fresh == !old(self)@.contains(key),
            final(self)@ == old(self)@.insert(key),
            final(self)@.finite(),
            final(self)@.len() == old(self)@.len() + (if fresh {
                1int
            } else {
                0int
            }),
    {
        proof {
            self.edges@.unique_seq_to_set();
            vstd::seq_lib::seq_to_set_is_finite(self.edges@);
        }
        if self.contains(key) {
            assert(self@.insert(key) =~= self@);
            false
        } else {
            self.edges.push(key);
            proof {
                old(self).edges@.lemma_push_to_set_commute(key);
                assert(self.edges@ == old(self).edges@.push(key));
                assert(self.edges@.no_duplicates());
                self.edges@.unique_seq_to_set();
                vstd::seq_lib::seq_to_set_is_finite(self.edges@);
            }
            true
        }
    }

    /// Forgets every claim.
    pub fn clear(&mut self)
        ensures
            final(self).wf(),
            final(self)@ == Set::<EdgeKey>::empty(),
    {
        self.edges.clear();
        assert(self@ =~= Set::<EdgeKey>::empty());
    }
}

} // verus!
