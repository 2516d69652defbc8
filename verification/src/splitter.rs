//! The cluster splitter: for one cluster, whether two centroids explain its points
//! better than the one it has.
//!
//! Fitting two centroids to the cluster's points and scoring both models is the caller's
//! work. Decided here is which clusters are worth the attempt, what an attempt must
//! look like to be heard, and which centroids stand in the end.

use crate::bic::Score;
use crate::clustering::{lemma_members_exact, Clustering};
use crate::points::{append_copy, as_ints, gathered, PointSet};
use vstd::prelude::*;

verus! {

/// A cluster of this many points or fewer is never split: two centroids cannot be
/// fitted to so few in any meaningful way.
pub const SPLIT_THRESHOLD: usize = 2;

/// A proposed two-way split of one cluster.
#[derive(Debug)]
pub struct Proposal<T> {
    /// The cluster's own points, fitted with two centroids.
    pub split: Clustering<T>,
    /// The score of the cluster's points under its one present centroid.
    pub parent_score: Score,
    /// The score of the same points under the two proposed centroids. Both scores are
    /// taken on the same scale of variance.
    pub split_score: Score,
}

/// Whether the cluster has enough points for a split to be tried.
pub open spec fn splittable<T>(state: Clustering<T>, cluster: int) -> bool {
    state.member_indices(cluster).len() > SPLIT_THRESHOLD
}

/// Whether `proposal` is a split of this cluster at all: two centroids of the state's
/// dimensionality, fitted to as many points as the cluster has.
pub open spec fn concerns<T>(proposal: Proposal<T>, state: Clustering<T>, cluster: int) -> bool {
    &&& proposal.split.clusters() == 2
    &&& proposal.split.width() == state.width()
    &&& proposal.split.labels().len() == state.member_indices(cluster).len()
}

/// Whether the split replaces the cluster's centroid.
///
/// It does when the cluster may be split, a proposal for it is there, and the present
/// centroid does not score strictly lower than the proposed pair. A tie goes to the
/// split.
pub open spec fn accepted<T>(state: Clustering<T>, cluster: int, proposal: Option<Proposal<T>>) -> bool {
    &&& splittable(state, cluster)
    &&& proposal matches Some(p)
    &&& concerns(p, state, cluster)
    &&& !p.parent_score.below(p.split_score)
}

/// The centroids that stand for the cluster after the attempt: the proposed two, or the
/// one it had.
pub open spec fn outcome<T>(state: Clustering<T>, cluster: int, proposal: Option<Proposal<T>>) -> Seq<T> {
    if accepted(state, cluster, proposal) {
        proposal->0.split.centers()
    } else {
        state.center(cluster)
    }
}

/// The work to hand out for one cluster: its points, if it may be split.
pub open spec fn is_task<T>(
    task: Option<PointSet<T>>,
    points: PointSet<T>,
    state: Clustering<T>,
    cluster: int,
) -> bool {
    &&& task is Some <==> splittable(state, cluster)
    &&& task matches Some(members) ==> {
        &&& members.wf()
        &&& members.width() == points.width()
        &&& members.count() == state.member_indices(cluster).len()
        &&& members.flat() == gathered(
            points.flat(),
            points.width(),
            state.member_indices(cluster),
        )
    }
}

/// The points of one cluster, if the cluster has enough of them to try a split.
pub fn split_task<T: Copy>(points: &PointSet<T>, state: &Clustering<T>, cluster: usize) -> (r:
    Option<PointSet<T>>)
    requires
        state.describes(*points),
    ensures
        is_task(r, *points, *state, cluster as int),
{
    let members = state.members(cluster);
    if members.len() <= SPLIT_THRESHOLD {
        return None;
    }
    proof {
        lemma_members_exact(state.labels(), cluster as int);
        assert forall|j: int| 0 <= j < members@.len() implies (#[trigger] members@[j])
            < points.count() by {
            assert(as_ints(members@)[j] == members@[j]);
        }
    }
    Some(points.select(&members))
}

/// The centroids that stand for `cluster` once a split was or was not proposed.
///
/// A cluster at or below the threshold keeps its one centroid whatever is proposed.
pub fn resolve<T: Copy>(state: &Clustering<T>, cluster: usize, proposal: Option<&Proposal<T>>) -> (r:
    Vec<T>)
    requires
        cluster < state.clusters(),
    ensures
        r@ == outcome(
            *state,
            cluster as int,
            match proposal {
                Some(p) => Some(*p),
                None => None,
            },
        ),
        r@.len() == if accepted(
            *state,
            cluster as int,
            match proposal {
                Some(p) => Some(*p),
                None => None,
            },
        ) {
            2 * state.width()
        } else {
            state.width()
        },
        !splittable(*state, cluster as int) ==> r@ == state.center(cluster as int) && r@.len()
            == state.width(),
{
    let mut kept: Vec<T> = Vec::new();
    if let Some(p) = proposal {
        if state.member_count(cluster) > SPLIT_THRESHOLD && p.split.k() == 2 && p.split.dim()
            == state.dim() && p.split.len() == state.member_count(cluster)
            && !p.parent_score.is_below(&p.split_score) {
            proof {
                use_type_invariant(&p.split);
            }
            append_copy(&mut kept, p.split.centroids());
            return kept;
        }
    }
    append_copy(&mut kept, state.centroid(cluster));
    kept
}

} // verus!
