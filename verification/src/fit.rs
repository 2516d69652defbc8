//! What is asked of the base clustering routine.
//!
//! The routine itself, which assigns points to centroids and moves the centroids until
//! they settle, is the caller's. Fixed here is how each of the three fits of a
//! refinement is to start.

use vstd::prelude::*;

verus! {

/// The most passes that a fit may make over its points.
pub const MAX_FIT_ITERATIONS: usize = 100;

/// How a fit chooses the centroids it starts from.
#[derive(Debug)]
pub enum Init<T> {
    /// Spread-out points of the data, each picked with a probability that grows with its
    /// distance from those picked before.
    KMeansPlusPlus,
    /// The means of a random partition of the points.
    RandomPartition,
    /// The given centroids, as they stand.
    Precomputed(Vec<T>),
}

/// What is asked of the base clustering routine: fit `k` centroids to some points in at
/// most `max_iters` passes, starting as `init` says.
#[derive(Debug)]
pub struct FitRequest<T> {
    pub k: usize,
    pub max_iters: usize,
    pub init: Init<T>,
}

impl<T> FitRequest<T> {
    /// The first fit of a data set, at a given number of clusters: it starts from
    /// spread-out points.
    pub fn initial(k: usize) -> (r: FitRequest<T>)
        ensures
            r.k == k,
            r.max_iters == MAX_FIT_ITERATIONS,
            r.init is KMeansPlusPlus,
    {
        FitRequest { k, max_iters: MAX_FIT_ITERATIONS, init: Init::KMeansPlusPlus }
    }

    /// The fit that proposes a split of one cluster: exactly two centroids, from a random
    /// partition. Starting from spread-out points instead would favour the split.
    pub fn split() -> (r: FitRequest<T>)
        ensures
            r.is_split(),
    {
        FitRequest { k: 2, max_iters: MAX_FIT_ITERATIONS, init: Init::RandomPartition }
    }

    /// The fit of the whole data set after a round that grew the number of clusters: it
    /// starts from the round's candidates, which are good estimates already.
    pub fn refit(k: usize, seed: Vec<T>) -> (r: FitRequest<T>)
        ensures
            r.is_refit(k as nat, seed@),
    {
        FitRequest { k, max_iters: MAX_FIT_ITERATIONS, init: Init::Precomputed(seed) }
    }

    /// Whether this is the request for a two-way split.
    pub open spec fn is_split(self) -> bool {
        self.k == 2 && self.max_iters == MAX_FIT_ITERATIONS && self.init is RandomPartition
    }

    /// Whether this is the request to fit `k` centroids starting from `seed`.
    pub open spec fn is_refit(self, k: nat, seed: Seq<T>) -> bool {
        &&& self.k == k
        &&& self.max_iters == MAX_FIT_ITERATIONS
        &&& self.init matches Init::Precomputed(from)
        &&& from@ == seed
    }
}

} // verus!
