//! Clustering states: `k` centroids and, for each point, the centroid it is assigned to.

use crate::points::{as_ints, lemma_row_bounds, row_of, PointSet};
use vstd::prelude::*;

verus! {

/// The outcome of one clustering step: the centroids, the assignment of every point,
/// and the total error where the step reported one.
///
/// A state is never edited: each step makes a new one.
#[derive(Debug)]
pub struct Clustering<T> {
    centroids: Vec<T>,
    assignments: Vec<usize>,
    k: usize,
    dim: usize,
    distortion: Option<T>,
}

/// The numbers `0, 1, .., n - 1`.
pub open spec fn indices(n: nat) -> Seq<int> {
    Seq::new(n, |i: int| i)
}

/// The test "point `i` is assigned to `cluster`".
pub open spec fn assigned_to(labels: Seq<usize>, cluster: int) -> spec_fn(int) -> bool {
    |i: int| 0 <= i < labels.len() && labels[i] == cluster
}

/// The points assigned to `cluster`, by index, in ascending order.
pub open spec fn members_of(labels: Seq<usize>, cluster: int) -> Seq<int> {
    indices(labels.len()).filter(assigned_to(labels, cluster))
}

/// The members of a cluster among the first `n + 1` points are those among the first
/// `n`, and point `n` after them if it is assigned to the cluster.
pub proof fn lemma_members_step(labels: Seq<usize>, cluster: int, n: int)
    requires
        0 <= n < labels.len(),
    ensures
        members_of(labels.take(n + 1), cluster) == if labels[n] == cluster {
            members_of(labels.take(n), cluster).push(n)
        } else {
            members_of(labels.take(n), cluster)
        },
{
    let shorter = labels.take(n);
    let longer = labels.take(n + 1);
    let test_shorter = assigned_to(shorter, cluster);
    let test_longer = assigned_to(longer, cluster);
    assert(indices(longer.len()) =~= indices(shorter.len()).push(n));
    indices(shorter.len()).lemma_filter_push(n, test_longer);
    lemma_filter_agrees(indices(shorter.len()), test_shorter, test_longer);
}

/// Two tests that agree on every item of a sequence keep the same items of it.
pub proof fn lemma_filter_agrees<A>(s: Seq<A>, p: spec_fn(A) -> bool, q: spec_fn(A) -> bool)
    requires
        forall|i: int| 0 <= i < s.len() ==> p(s[i]) == q(s[i]),
    ensures
        s.filter(p) == s.filter(q),
    decreases s.len(),
{
    reveal(Seq::filter);
    if s.len() > 0 {
        lemma_filter_agrees(s.drop_last(), p, q);
    }
}

/// What [`members_of`] lists: exactly the points assigned to the cluster, each once, in
/// ascending order.
pub proof fn lemma_members_exact(labels: Seq<usize>, cluster: int)
    ensures
        forall|j: int|
            0 <= j < members_of(labels, cluster).len() ==> {
                let i = #[trigger] members_of(labels, cluster)[j];
                0 <= i < labels.len() && labels[i] == cluster
            },
        forall|i: int|
            0 <= i < labels.len() && labels[i] == cluster ==> members_of(labels, cluster).contains(
                i,
            ),
        forall|a: int, b: int|
            0 <= a < b < members_of(labels, cluster).len() ==> members_of(labels, cluster)[a]
                < members_of(labels, cluster)[b],
        members_of(labels, cluster).len() <= labels.len(),
    decreases labels.len(),
{
    if labels.len() > 0 {
        let n = labels.len() - 1;
        let shorter = labels.take(n);
        assert(labels.take(n + 1) =~= labels);
        lemma_members_step(labels, cluster, n);
        lemma_members_exact(shorter, cluster);
        let before = members_of(shorter, cluster);
        let all = members_of(labels, cluster);
        assert forall|i: int| 0 <= i < labels.len() && labels[i] == cluster implies all.contains(
            i,
        ) by {
            if i < n {
                assert(shorter[i] == labels[i]);
                assert(before.contains(i));
                let j = choose|j: int| 0 <= j < before.len() && before[j] == i;
                assert(all[j] == i);
            } else {
                assert(all[all.len() - 1] == n);
            }
        }
        assert forall|j: int| 0 <= j < all.len() implies {
            let i = #[trigger] all[j];
            0 <= i < labels.len() && labels[i] == cluster
        } by {
            if j < before.len() {
                assert(all[j] == before[j]);
                assert(shorter[before[j]] == labels[before[j]]);
            }
        }
        assert forall|a: int, b: int| 0 <= a < b < all.len() implies all[a] < all[b] by {
            assert(all[a] == before[a]);
            if b < before.len() {
                assert(all[b] == before[b]);
            }
        }
    } else {
        reveal(Seq::filter);
        assert(indices(labels.len()) =~= Seq::<int>::empty());
    }
}

/// Whether every item of `v` is less than `bound`.
fn all_below(v: &Vec<usize>, bound: usize) -> (r: bool)
    ensures
        r == forall|i: int| 0 <= i < v@.len() ==> (#[trigger] v@[i]) < bound,
{
    let mut i: usize = 0;
    while i < v.len()
        invariant
            i <= v@.len(),
            forall|j: int| 0 <= j < i ==> (#[trigger] v@[j]) < bound,
        decreases v.len() - i,
    {
        if v[i] >= bound {
            return false;
        }
        i = i + 1;
    }
    true
}

impl<T> Clustering<T> {
    /// The centroids, row after row.
    pub closed spec fn centers(self) -> Seq<T> {
        self.centroids@
    }

    /// For each point the index of its centroid.
    pub closed spec fn labels(self) -> Seq<usize> {
        self.assignments@
    }

    /// The number of centroids.
    pub closed spec fn clusters(self) -> nat {
        self.k as nat
    }

    /// The number of coordinates of each centroid.
    pub closed spec fn width(self) -> nat {
        self.dim as nat
    }

    /// The total error, where one came with the state.
    pub closed spec fn total_error(self) -> Option<T> {
        self.distortion
    }

    /// There is at least one centroid, every centroid has `width()` coordinates, and
    /// every point is assigned to one of them.
    #[verifier::type_invariant]
    pub open spec fn wf(self) -> bool {
        &&& self.width() >= 1
        &&& self.clusters() >= 1
        &&& self.centers().len() == self.clusters() * self.width()
        &&& forall|i: int| 0 <= i < self.labels().len() ==> #[trigger] self.labels()[i] < self.clusters()
    }

    /// Centroid `c`.
    pub open spec fn center(self, c: int) -> Seq<T> {
        row_of(self.centers(), self.width(), c)
    }

    /// The points assigned to `cluster`, by index, in ascending order.
    pub open spec fn member_indices(self, cluster: int) -> Seq<int> {
        members_of(self.labels(), cluster)
    }

    /// Whether this state speaks of the points of `points`: one assignment per point,
    /// centroids of the points' dimensionality.
    pub open spec fn describes(self, points: PointSet<T>) -> bool {
        self.width() == points.width() && self.labels().len() == points.count()
    }

    /// Takes what a clustering step gave: centroids in one row-major buffer, the
    /// assignment of each point, and the total error if there is one.
    ///
    /// There is a state exactly when `dim` is at least one, the buffer holds one or more
    /// whole centroids, and every assignment names one of them.
    pub fn new(centroids: Vec<T>, assignments: Vec<usize>, dim: usize, distortion: Option<T>) -> (r:
        Option<Clustering<T>>)
        ensures
            r is Some <==> {
                &&& dim >= 1
                &&& centroids@.len() >= 1
                &&& centroids@.len() % (dim as nat) == 0
                &&& forall|i: int|
                    0 <= i < assignments@.len() ==> (#[trigger] assignments@[i]) < centroids@.len() / (
                    dim as nat)
            },
            r matches Some(s) ==> {
                &&& s.wf()
                &&& s.centers() == centroids@
                &&& s.labels() == assignments@
                &&& s.width() == dim
                &&& s.clusters() == centroids@.len() / (dim as nat)
                &&& s.total_error() == distortion
            },
    {
        if dim == 0 {
            return None;
        }
        let len: usize = centroids.len();
        if len == 0 || len % dim != 0 {
            return None;
        }
        let k: usize = len / dim;
        proof {
            vstd::arithmetic::div_mod::lemma_fundamental_div_mod(len as int, dim as int);
            assert(len == (len / dim) * dim) by (nonlinear_arith)
                requires
                    len == dim * (len / dim) + len % dim,
                    len % dim == 0,
            ;
        }
        if !all_below(&assignments, k) {
            return None;
        }
        assert(k >= 1) by (nonlinear_arith)
            requires
                len == k * dim,
                len >= 1,
                dim >= 1,
        ;
        Some(Clustering { centroids, assignments, k, dim, distortion })
    }

    /// The number of centroids.
    pub fn k(&self) -> (r: usize)
        ensures
            r == self.clusters(),
            r >= 1,
    {
        proof {
            use_type_invariant(self);
        }
        self.k
    }

    /// The number of coordinates of each centroid.
    pub fn dim(&self) -> (r: usize)
        ensures
            r == self.width(),
            r >= 1,
    {
        proof {
            use_type_invariant(self);
        }
        self.dim
    }

    /// The number of points that the state assigns.
    pub fn len(&self) -> (r: usize)
        ensures
            r == self.labels().len(),
    {
        self.assignments.len()
    }

    /// The total error, where one came with the state.
    pub fn distortion(&self) -> (r: Option<&T>)
        ensures
            match r {
                Some(total) => self.total_error() == Some(*total),
                None => self.total_error() is None,
            },
    {
        self.distortion.as_ref()
    }

    /// The centroids, row after row.
    pub fn centroids(&self) -> (r: &[T])
        ensures
            r@ == self.centers(),
    {
        self.centroids.as_slice()
    }

    /// For each point the index of its centroid.
    pub fn assignments(&self) -> (r: &[usize])
        ensures
            r@ == self.labels(),
    {
        self.assignments.as_slice()
    }

    /// Centroid `c`.
    pub fn centroid(&self, c: usize) -> (r: &[T])
        requires
            c < self.clusters(),
        ensures
            r@ == self.center(c as int),
            r@.len() == self.width(),
    {
        let len: usize = self.centroids.len();
        proof {
            use_type_invariant(self);
            lemma_row_bounds(self.clusters(), self.width(), c as int);
            assert(c * self.dim + self.dim <= len);
        }
        let start: usize = c * self.dim;
        let end: usize = start + self.dim;
        vstd::slice::slice_subrange(self.centroids.as_slice(), start, end)
    }

    /// The centroid that point `i` is assigned to.
    pub fn assigned_centroid(&self, i: usize) -> (r: &[T])
        requires
            i < self.labels().len(),
        ensures
            r@ == self.center(self.labels()[i as int] as int),
            r@.len() == self.width(),
    {
        proof {
            use_type_invariant(self);
        }
        self.centroid(self.assignments[i])
    }

    /// Whether this state speaks of the points of `points`.
    pub fn fits(&self, points: &PointSet<T>) -> (r: bool)
        ensures
            r == self.describes(*points),
    {
        self.dim == points.dim() && self.assignments.len() == points.len()
    }

    /// The number of points assigned to `cluster`.
    pub fn member_count(&self, cluster: usize) -> (r: usize)
        ensures
            r == self.member_indices(cluster as int).len(),
    {
        let mut found: usize = 0;
        let mut i: usize = 0;
        while i < self.assignments.len()
            invariant
                i <= self.assignments@.len(),
                found <= i,
                found == members_of(self.assignments@.take(i as int), cluster as int).len(),
            decreases self.assignments.len() - i,
        {
            proof {
                lemma_members_step(self.assignments@, cluster as int, i as int);
            }
            if self.assignments[i] == cluster {
                found = found + 1;
            }
            i = i + 1;
        }
        proof {
            assert(self.assignments@.take(i as int) =~= self.assignments@);
        }
        found
    }

    /// The points assigned to `cluster`, by index, in ascending order.
    pub fn members(&self, cluster: usize) -> (r: Vec<usize>)
        ensures
            as_ints(r@) == self.member_indices(cluster as int),
    {
        let mut found: Vec<usize> = Vec::new();
        let mut i: usize = 0;
        while i < self.assignments.len()
            invariant
                i <= self.assignments@.len(),
                as_ints(found@) == members_of(
                    self.assignments@.take(i as int),
                    cluster as int,
                ),
            decreases self.assignments.len() - i,
        {
            proof {
                lemma_members_step(self.assignments@, cluster as int, i as int);
            }
            if self.assignments[i] == cluster {
                proof {
                    assert(as_ints(found@.push(i)) =~= as_ints(found@).push(i as int));
                }
                found.push(i);
            }
            i = i + 1;
        }
        proof {
            assert(self.assignments@.take(i as int) =~= self.assignments@);
        }
        found
    }
}

} // verus!
