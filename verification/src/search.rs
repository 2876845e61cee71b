//! The pieces of the search structures that are independent of the point
//! type: indexed points, loading explanations, and the r*-tree parameters.
use vstd::prelude::*;

use std::fmt;
use std::hash::Hash;

verus! {

/// Generic point struct that can be used to store a point together with its
/// index in the data set.
#[derive(Clone, Debug)]
pub struct IndexedPoint<P: Clone + fmt::Debug> {
    pub point: P,
    pub index: u32,
}

impl<P: Clone + fmt::Debug> IndexedPoint<P> {
    /// Pair a point with its index.
    pub fn new(point: P, index: u32) -> (res: Self)
        ensures
            res.point == point,
            res.index == index,
    {
        IndexedPoint::<P> { point, index }
    }
}

/// Something that knows the index of the point it stands for.
pub trait Indexed {
    /// The index of the point.
    spec fn spec_index(&self) -> u32;

    /// The index of the point.
    fn get_index(&self) -> (index: u32)
        ensures
            index == self.spec_index(),
    ;
}

impl<P: Clone + fmt::Debug> Indexed for IndexedPoint<P> {
    open spec fn spec_index(&self) -> u32 {
        self.index
    }

    fn get_index(&self) -> (index: u32) {
        self.index
    }
}

/// Whether a found point is another point than the one searched from.
pub open spec fn other_than(index: u32) -> spec_fn(u32) -> bool {
    |i: u32| i != index
}

/// The neighbours among the points a search around point `index` found:
/// every found point but `index` itself, in the order they were found.
pub fn without_point(found: &[u32], index: u32) -> (neighbors: Vec<u32>)
    ensures
        neighbors@ == found@.filter(other_than(index)),
{
    let mut neighbors: Vec<u32> = Vec::new();
    let mut k: usize = 0;
    assert(found@.take(0) =~= Seq::<u32>::empty());
    while k < found.len()
        invariant
            k <= found@.len(),
            neighbors@ == found@.take(k as int).filter(other_than(index)),
        decreases found@.len() - k,
    {
        proof {
            assert(found@.take(k + 1) =~= found@.take(k as int).push(found@[k as int]));
            found@.take(k as int).lemma_filter_push(found@[k as int], other_than(index));
        }
        if found[k] != index {
            neighbors.push(found[k]);
        }
        k = k + 1;
    }
    assert(found@.take(k as int) =~= found@);
    neighbors
}

/// Loading explanations into a data structure.
pub trait Load<T, S: Hash> {
    /// Load data into the visualization state
    fn load(&mut self, value: T, mode: S);
}

/// R*-tree parameters used for the 2D points.
pub struct RTreeParameters2D;

impl RTreeParameters2D {
    pub const MIN_SIZE: usize = 5;
    pub const MAX_SIZE: usize = 9;
    pub const REINSERTION_COUNT: usize = 3;
}

/// R*-tree parameters used for the 3D points.
pub struct RTreeParameters3D;

impl RTreeParameters3D {
    pub const MIN_SIZE: usize = 10;
    pub const MAX_SIZE: usize = 20;
    pub const REINSERTION_COUNT: usize = 3;
}

} // verus!
