//! The refinement driver: round after round it lets every cluster try a split, and stops
//! when no cluster takes one or the round limit is reached.
//!
//! Fitting centroids to points is not done here. The driver is a state machine: it says
//! what is to be done next, the caller does it and reports back, and the driver decides
//! what that means.

use crate::clustering::{indices, Clustering};
use crate::fit::FitRequest;
use crate::points::{append_copy, lemma_row_bounds, PointSet};
use crate::splitter::{accepted, is_task, outcome, resolve, split_task, Proposal};
use vstd::prelude::*;

verus! {

/// The number of rounds that a refinement is given where nothing else is asked for.
pub const DEFAULT_ROUND_LIMIT: usize = 10;

/// The proposal for cluster `c`, where the list has one.
pub open spec fn proposal_at<T>(proposals: Seq<Option<Proposal<T>>>, c: int) -> Option<
    Proposal<T>,
> {
    if 0 <= c < proposals.len() {
        proposals[c]
    } else {
        None
    }
}

/// For each cluster the centroids that stand for it after the round.
pub open spec fn outcome_at<T>(state: Clustering<T>, proposals: Seq<Option<Proposal<T>>>) -> spec_fn(
    int,
) -> Seq<T> {
    |c: int| outcome(state, c, proposal_at(proposals, c))
}

/// The candidate centroids of a round over the first `n` clusters: cluster after
/// cluster, the one centroid it keeps or the two that replace it.
pub open spec fn candidates_upto<T>(
    state: Clustering<T>,
    proposals: Seq<Option<Proposal<T>>>,
    n: nat,
) -> Seq<T> {
    Seq::new(n, outcome_at(state, proposals)).flatten()
}

/// The candidate centroids of a round.
pub open spec fn candidates<T>(state: Clustering<T>, proposals: Seq<Option<Proposal<T>>>) -> Seq<T> {
    candidates_upto(state, proposals, state.clusters())
}

/// The test "the split of cluster `c` was accepted".
pub open spec fn accepted_at<T>(state: Clustering<T>, proposals: Seq<Option<Proposal<T>>>) -> spec_fn(
    int,
) -> bool {
    |c: int| accepted(state, c, proposal_at(proposals, c))
}

/// How many of the first `n` clusters were split.
pub open spec fn splits_upto<T>(state: Clustering<T>, proposals: Seq<Option<Proposal<T>>>, n: nat) -> nat {
    indices(n).filter(accepted_at(state, proposals)).len()
}

/// The number of candidate centroids of a round: one for each cluster and one more for
/// each split.
pub open spec fn candidate_count<T>(state: Clustering<T>, proposals: Seq<Option<Proposal<T>>>) -> nat {
    state.clusters() + splits_upto(state, proposals, state.clusters())
}

/// One cluster more adds its outcome to the candidates, and one to the count of splits
/// if its split was accepted.
pub proof fn lemma_round_step<T>(state: Clustering<T>, proposals: Seq<Option<Proposal<T>>>, n: nat)
    ensures
        candidates_upto(state, proposals, n + 1) == candidates_upto(state, proposals, n) + outcome(
            state,
            n as int,
            proposal_at(proposals, n as int),
        ),
        splits_upto(state, proposals, n + 1) == splits_upto(state, proposals, n) + if accepted(
            state,
            n as int,
            proposal_at(proposals, n as int),
        ) {
            1nat
        } else {
            0nat
        },
        candidates_upto(state, proposals, 0) == Seq::<T>::empty(),
        splits_upto(state, proposals, 0) == 0,
{
    let f = outcome_at(state, proposals);
    let before = Seq::new(n, f);
    assert(Seq::new(n + 1, f) =~= before.push(f(n as int)));
    before.lemma_flatten_push(f(n as int));
    let p = accepted_at(state, proposals);
    assert(indices(n + 1) =~= indices(n).push(n as int));
    indices(n).lemma_filter_push(n as int, p);
    assert(Seq::new(0, f) =~= Seq::<Seq<T>>::empty());
    assert(Seq::<Seq<T>>::empty().flatten() =~= Seq::<T>::empty()) by {
        reveal_with_fuel(Seq::flatten, 1);
    }
    assert(indices(0) =~= Seq::<int>::empty());
    assert(Seq::<int>::empty().filter(p) =~= Seq::<int>::empty()) by {
        reveal(Seq::filter);
    }
}

/// The candidates of a round are whole centroids, as many as [`candidate_count`] says:
/// never fewer than there were clusters, never more than twice as many.
pub proof fn lemma_candidates_len<T>(state: Clustering<T>, proposals: Seq<Option<Proposal<T>>>, n: nat)
    requires
        state.wf(),
        n <= state.clusters(),
        forall|c: int|
            0 <= c < proposals.len() ==> (#[trigger] proposals[c] matches Some(p) ==> p.split.wf()),
    ensures
        candidates_upto(state, proposals, n).len() == (n + splits_upto(state, proposals, n))
            * state.width(),
        splits_upto(state, proposals, n) <= n,
    decreases n,
{
    lemma_round_step(state, proposals, 0);
    if n > 0 {
        let m = (n - 1) as nat;
        lemma_candidates_len(state, proposals, m);
        lemma_round_step(state, proposals, m);
        lemma_row_bounds(state.clusters(), state.width(), m as int);
        let s = splits_upto(state, proposals, m);
        let w = state.width();
        if accepted(state, m as int, proposal_at(proposals, m as int)) {
            assert((m + s) * w + 2 * w == (m + 1 + (s + 1)) * w) by (nonlinear_arith);
        } else {
            assert((m + s) * w + w == (m + 1 + s) * w) by (nonlinear_arith);
        }
    } else {
        assert((0 + 0) * state.width() == 0) by (nonlinear_arith);
    }
}

/// A round that splits none of the first `n` clusters leaves their centroids as they
/// are.
pub proof fn lemma_no_split_keeps_centroids<T>(
    state: Clustering<T>,
    proposals: Seq<Option<Proposal<T>>>,
    n: nat,
)
    requires
        state.wf(),
        n <= state.clusters(),
        splits_upto(state, proposals, n) == 0,
    ensures
        candidates_upto(state, proposals, n) == state.centers().subrange(0, (n * state.width()) as int),
    decreases n,
{
    lemma_round_step(state, proposals, 0);
    if n > 0 {
        let m = (n - 1) as nat;
        lemma_round_step(state, proposals, m);
        lemma_no_split_keeps_centroids(state, proposals, m);
        lemma_row_bounds(state.clusters(), state.width(), m as int);
        assert(candidates_upto(state, proposals, n) =~= state.centers().subrange(
            0,
            (n * state.width()) as int,
        ));
    } else {
        assert(0 * state.width() == 0) by (nonlinear_arith);
        assert(candidates_upto(state, proposals, n) =~= state.centers().subrange(
            0,
            (n * state.width()) as int,
        ));
    }
}

/// The candidate centroids of one round: for every cluster in turn its one centroid, or
/// the two of its accepted split.
///
/// `proposals` holds for each cluster what was proposed for it, if anything; a cluster
/// beyond the end of the list has no proposal.
pub fn next_centroids<T: Copy>(state: &Clustering<T>, proposals: &Vec<Option<Proposal<T>>>) -> (r:
    Vec<T>)
    ensures
        r@ == candidates(*state, proposals@),
        r@.len() == candidate_count(*state, proposals@) * state.width(),
        state.clusters() <= candidate_count(*state, proposals@) <= 2 * state.clusters(),
{
    round_candidates(state, proposals).0
}

/// The candidate centroids of one round, and how many they are.
fn round_candidates<T: Copy>(state: &Clustering<T>, proposals: &Vec<Option<Proposal<T>>>) -> (r: (
    Vec<T>,
    usize,
))
    ensures
        r.0@ == candidates(*state, proposals@),
        r.1 == candidate_count(*state, proposals@),
        r.0@.len() == r.1 * state.width(),
        state.clusters() <= r.1 <= 2 * state.clusters(),
{
    let k: usize = state.k();
    let dim: usize = state.dim();
    let mut found: Vec<T> = Vec::new();
    let mut count: usize = 0;
    let mut c: usize = 0;
    proof {
        use_type_invariant(state);
        lemma_round_step(*state, proposals@, 0);
        assert(0 * dim == 0) by (nonlinear_arith);
    }
    while c < k
        invariant
            c <= k,
            k == state.clusters(),
            dim == state.width(),
            state.wf(),
            found@ == candidates_upto(*state, proposals@, c as nat),
            count == c + splits_upto(*state, proposals@, c as nat),
            found@.len() == count * dim,
            count <= 2 * c,
        decreases k - c,
    {
        let proposal: Option<&Proposal<T>> = if c < proposals.len() {
            proposals[c].as_ref()
        } else {
            None
        };
        let kept = resolve(state, c, proposal);
        proof {
            lemma_round_step(*state, proposals@, c as nat);
            assert(match proposal {
                Some(p) => Some(*p),
                None => None,
            } == proposal_at(proposals@, c as int));
        }
        let grown: bool = kept.len() != dim;
        append_copy(&mut found, kept.as_slice());
        let len: usize = found.len();
        proof {
            if grown {
                assert(len == (count + 2) * dim) by (nonlinear_arith)
                    requires
                        len == count * dim + 2 * dim,
                ;
                assert(count + 2 <= len) by (nonlinear_arith)
                    requires
                        len == (count + 2) * dim,
                        dim >= 1,
                ;
                assert(dim != 2 * dim);
            } else {
                assert(len == (count + 1) * dim) by (nonlinear_arith)
                    requires
                        len == count * dim + dim,
                ;
                assert(count + 1 <= len) by (nonlinear_arith)
                    requires
                        len == (count + 1) * dim,
                        dim >= 1,
                ;
            }
        }
        if grown {
            count = count + 2;
        } else {
            count = count + 1;
        }
        c = c + 1;
    }
    (found, count)
}

/// Where a refinement stands.
#[derive(Clone, Copy, Debug, PartialEq, Eq)]
pub enum Phase {
    /// A round is open: every cluster is to try a split.
    Splitting,
    /// A round has grown the number of clusters: the whole data set is to be fitted
    /// again, starting from the candidates.
    Refitting,
    /// A round accepted no split. The centroids stand.
    Converged,
    /// The last round allowed is done. The centroids stand as they are.
    LimitReached,
}

/// What the caller reports to the driver.
#[derive(Debug)]
pub enum Event<T> {
    /// The round's split attempts: for each cluster what was proposed, if anything.
    Proposals(Vec<Option<Proposal<T>>>),
    /// The whole data set fitted again from the candidates.
    Refitted(Clustering<T>),
}

/// What the driver asks of the caller.
#[derive(Debug)]
pub enum Action<T> {
    /// Try to split the clusters. `tasks` holds for each cluster its points, or nothing
    /// where the cluster is too small to be split. The points of each task are to be
    /// fitted as `request` says, and both models, the one centroid and the two, scored on
    /// one scale of variance.
    Split { request: FitRequest<T>, tasks: Vec<Option<PointSet<T>>> },
    /// Fit the whole data set as the request says.
    Refit(FitRequest<T>),
    /// Nothing more: the refinement is over.
    Stop,
}

/// A refinement in progress: the points, the clustering state that is current, and how
/// many rounds are done of how many allowed.
#[derive(Debug)]
pub struct Refinement<T> {
    points: PointSet<T>,
    current: Clustering<T>,
    seed: Vec<T>,
    pending: usize,
    rounds: usize,
    limit: usize,
    phase: Phase,
}

impl<T> Refinement<T> {
    /// The points that are clustered. They never change.
    pub closed spec fn points(self) -> PointSet<T> {
        self.points
    }

    /// The clustering state that is current.
    pub closed spec fn current(self) -> Clustering<T> {
        self.current
    }

    /// While a refit is awaited: the candidates it is to start from.
    pub closed spec fn seed(self) -> Seq<T> {
        self.seed@
    }

    /// While a refit is awaited: the number of centroids it is to give.
    pub closed spec fn pending(self) -> nat {
        self.pending as nat
    }

    /// The number of rounds that are done: each ended with a refit.
    pub closed spec fn rounds(self) -> nat {
        self.rounds as nat
    }

    /// The number of rounds allowed.
    pub closed spec fn limit(self) -> nat {
        self.limit as nat
    }

    /// Where the refinement stands.
    pub closed spec fn phase(self) -> Phase {
        self.phase
    }

    /// The current state speaks of the points, no more rounds are done than allowed, a
    /// round is open or a refit awaited only while rounds are left, and an awaited refit
    /// is to give more centroids than there are.
    #[verifier::type_invariant]
    pub open spec fn wf(self) -> bool {
        &&& self.points().wf()
        &&& self.current().wf()
        &&& self.current().describes(self.points())
        &&& self.rounds() <= self.limit()
        &&& match self.phase() {
            Phase::Splitting => self.rounds() < self.limit() && self.seed().len() == 0,
            Phase::Refitting => {
                &&& self.rounds() < self.limit()
                &&& self.pending() > self.current().clusters()
                &&& self.seed().len() == self.pending() * self.current().width()
            },
            Phase::Converged => self.seed().len() == 0,
            Phase::LimitReached => self.rounds() == self.limit() && self.seed().len() == 0,
        }
    }

    /// Whether the refinement is over.
    pub open spec fn finished(self) -> bool {
        self.phase() is Converged || self.phase() is LimitReached
    }

    /// Whether `state` can take the place of the current one after the awaited refit: it
    /// has the number of centroids asked for and speaks of the same points.
    pub open spec fn answers(self, state: Clustering<T>) -> bool {
        &&& self.phase() is Refitting
        &&& state.clusters() == self.pending()
        &&& state.describes(self.points())
    }

    /// Whether `other` is this refinement in everything.
    pub open spec fn same_as(self, other: Refinement<T>) -> bool {
        &&& self.points() == other.points()
        &&& self.current() == other.current()
        &&& self.seed() == other.seed()
        &&& self.pending() == other.pending()
        &&& self.rounds() == other.rounds()
        &&& self.limit() == other.limit()
        &&& self.phase() == other.phase()
    }

    /// Whether `next` is what this refinement becomes on `event`.
    ///
    /// While a round is open, proposals close it: if they leave the number of centroids
    /// as it is, the refinement has converged and the current state stands; if not, a
    /// refit from the candidates is awaited. While a refit is awaited, a state that
    /// answers it becomes current and the round is done: the next round opens, unless
    /// that was the last one allowed. Any other event changes nothing.
    pub open spec fn follows(self, event: Event<T>, next: Refinement<T>) -> bool {
        match event {
            Event::Proposals(proposals) if self.phase() is Splitting => {
                let found = candidates(self.current(), proposals@);
                &&& next.points() == self.points()
                &&& next.current() == self.current()
                &&& next.rounds() == self.rounds()
                &&& next.limit() == self.limit()
                &&& if candidate_count(self.current(), proposals@) == self.current().clusters() {
                    &&& next.phase() is Converged
                    &&& next.seed() == Seq::<T>::empty()
                    &&& next.pending() == self.pending()
                } else {
                    &&& next.phase() is Refitting
                    &&& next.seed() == found
                    &&& next.pending() == candidate_count(self.current(), proposals@)
                }
            },
            Event::Refitted(state) if self.answers(state) => {
                &&& next.points() == self.points()
                &&& next.current() == state
                &&& next.rounds() == self.rounds() + 1
                &&& next.limit() == self.limit()
                &&& next.seed() == Seq::<T>::empty()
                &&& next.pending() == self.pending()
                &&& next.phase() == if self.rounds() + 1 == self.limit() {
                    Phase::LimitReached
                } else {
                    Phase::Splitting
                }
            },
            _ => next.same_as(self),
        }
    }

    /// Whether `action` is what this refinement asks for.
    pub open spec fn asks(self, action: Action<T>) -> bool {
        match self.phase() {
            Phase::Splitting => {
                &&& action matches Action::Split { request, tasks }
                &&& request.is_split()
                &&& tasks@.len() == self.current().clusters()
                &&& forall|c: int|
                    0 <= c < tasks@.len() ==> is_task(
                        #[trigger] tasks@[c],
                        self.points(),
                        self.current(),
                        c,
                    )
            },
            Phase::Refitting => {
                &&& action matches Action::Refit(request)
                &&& request.is_refit(self.pending(), self.seed())
            },
            Phase::Converged | Phase::LimitReached => action is Stop,
        }
    }

    /// Where the refinement stands.
    pub fn phase_now(&self) -> (r: Phase)
        ensures
            r == self.phase(),
    {
        self.phase
    }

    /// The number of rounds that are done.
    pub fn rounds_done(&self) -> (r: usize)
        ensures
            r == self.rounds(),
            r <= self.limit(),
    {
        proof {
            use_type_invariant(self);
        }
        self.rounds
    }

    /// The points that are clustered.
    pub fn data(&self) -> (r: &PointSet<T>)
        ensures
            *r == self.points(),
    {
        &self.points
    }

    /// The clustering state that is current.
    pub fn state(&self) -> (r: &Clustering<T>)
        ensures
            *r == self.current(),
            r.describes(self.points()),
    {
        proof {
            use_type_invariant(self);
        }
        &self.current
    }
}

/// The steps that a refinement can still take: two for every round that is left, one
/// less while a refit is awaited, none once it is over.
pub open spec fn steps_left<T>(r: Refinement<T>) -> nat {
    match r.phase() {
        Phase::Splitting => (2 * (r.limit() - r.rounds())) as nat,
        Phase::Refitting => (2 * (r.limit() - r.rounds()) - 1) as nat,
        Phase::Converged | Phase::LimitReached => 0,
    }
}

/// Whether `event` is what the refinement waits for.
pub open spec fn awaited<T>(r: Refinement<T>, event: Event<T>) -> bool {
    match event {
        Event::Proposals(_) => r.phase() is Splitting,
        Event::Refitted(state) => r.answers(state),
    }
}

/// A step keeps a refinement well formed.
pub proof fn lemma_step_keeps_wf<T>(before: Refinement<T>, event: Event<T>, after: Refinement<T>)
    requires
        before.wf(),
        before.follows(event, after),
        event matches Event::Refitted(state) ==> state.wf(),
        event matches Event::Proposals(proposals) ==> forall|c: int|
            0 <= c < proposals@.len() ==> (#[trigger] proposals@[c] matches Some(p)
                ==> p.split.wf()),
    ensures
        after.wf(),
{
    match event {
        Event::Proposals(proposals) => {
            if before.phase() is Splitting {
                lemma_candidates_len(before.current(), proposals@, before.current().clusters());
            }
        },
        Event::Refitted(state) => {},
    }
}

/// Every awaited event brings the end nearer, and an unawaited one changes nothing: a
/// refinement of `limit` rounds is over after at most `2 * limit` awaited events.
pub proof fn lemma_step_progress<T>(before: Refinement<T>, event: Event<T>, after: Refinement<T>)
    requires
        before.wf(),
        before.follows(event, after),
    ensures
        steps_left(before) <= 2 * before.limit(),
        awaited(before, event) ==> steps_left(after) < steps_left(before),
        !awaited(before, event) ==> after.same_as(before),
        steps_left(before) == 0 <==> before.finished(),
{
}

/// Convergence is a fixed point. When a round leaves the number of centroids as it
/// was, the current state stands, its centroids are the round's candidates, the same
/// attempts on the state that results give that number again, and nothing that is
/// reported afterwards changes the refinement.
pub proof fn lemma_converged_is_stable<T>(
    before: Refinement<T>,
    proposals: Vec<Option<Proposal<T>>>,
    after: Refinement<T>,
    later: Event<T>,
    last: Refinement<T>,
)
    requires
        before.wf(),
        before.phase() is Splitting,
        before.follows(Event::Proposals(proposals), after),
        candidate_count(before.current(), proposals@) == before.current().clusters(),
        after.follows(later, last),
    ensures
        after.phase() is Converged,
        after.current() == before.current(),
        candidates(before.current(), proposals@) == before.current().centers(),
        candidate_count(after.current(), proposals@) == after.current().clusters(),
        last.same_as(after),
{
    let state = before.current();
    lemma_no_split_keeps_centroids(state, proposals@, state.clusters());
    assert(state.centers().subrange(0, (state.clusters() * state.width()) as int)
        =~= state.centers());
}

impl<T: Copy> Refinement<T> {
    /// Begins a refinement of `state`, a clustering of `points`, over at most `limit`
    /// rounds.
    ///
    /// There is none where the state does not speak of these points. With no round
    /// allowed the refinement is over at once.
    pub fn start(points: PointSet<T>, state: Clustering<T>, limit: usize) -> (r: Option<
        Refinement<T>,
    >)
        ensures
            r is Some <==> state.describes(points),
            r matches Some(begun) ==> {
                &&& begun.wf()
                &&& begun.points() == points
                &&& begun.current() == state
                &&& begun.rounds() == 0
                &&& begun.limit() == limit
                &&& begun.seed() == Seq::<T>::empty()
                &&& begun.phase() == if limit == 0 {
                    Phase::LimitReached
                } else {
                    Phase::Splitting
                }
            },
    {
        if !state.fits(&points) {
            return None;
        }
        proof {
            use_type_invariant(&points);
            use_type_invariant(&state);
        }
        let phase = if limit == 0 {
            Phase::LimitReached
        } else {
            Phase::Splitting
        };
        Some(
            Refinement {
                points,
                current: state,
                seed: Vec::new(),
                pending: 0,
                rounds: 0,
                limit,
                phase,
            },
        )
    }

    /// What is to be done next.
    pub fn action(&self) -> (r: Action<T>)
        ensures
            self.asks(r),
    {
        proof {
            use_type_invariant(self);
        }
        match self.phase {
            Phase::Splitting => {
                let k: usize = self.current.k();
                let mut tasks: Vec<Option<PointSet<T>>> = Vec::new();
                let mut c: usize = 0;
                while c < k
                    invariant
                        c <= k,
                        k == self.current.clusters(),
                        self.current.describes(self.points),
                        tasks@.len() == c,
                        forall|j: int|
                            0 <= j < c ==> is_task(
                                #[trigger] tasks@[j],
                                self.points,
                                self.current,
                                j,
                            ),
                    decreases k - c,
                {
                    let task = split_task(&self.points, &self.current, c);
                    tasks.push(task);
                    c = c + 1;
                }
                Action::Split { request: FitRequest::split(), tasks }
            },
            Phase::Refitting => {
                let mut seed: Vec<T> = Vec::new();
                append_copy(&mut seed, self.seed.as_slice());
                assert(seed@ =~= self.seed@);
                Action::Refit(FitRequest::refit(self.pending, seed))
            },
            Phase::Converged => Action::Stop,
            Phase::LimitReached => Action::Stop,
        }
    }

    /// Takes what the caller reports and moves on.
    pub fn step(self, event: Event<T>) -> (r: Refinement<T>)
        ensures
            self.follows(event, r),
            r.wf(),
    {
        proof {
            use_type_invariant(&self);
        }
        match event {
            Event::Proposals(proposals) => {
                match self.phase {
                    Phase::Splitting => {
                        let (found, count) = round_candidates(&self.current, &proposals);
                        if count == self.current.k() {
                            Refinement {
                                points: self.points,
                                current: self.current,
                                seed: Vec::new(),
                                pending: self.pending,
                                rounds: self.rounds,
                                limit: self.limit,
                                phase: Phase::Converged,
                            }
                        } else {
                            Refinement {
                                points: self.points,
                                current: self.current,
                                seed: found,
                                pending: count,
                                rounds: self.rounds,
                                limit: self.limit,
                                phase: Phase::Refitting,
                            }
                        }
                    },
                    _ => self,
                }
            },
            Event::Refitted(state) => {
                match self.phase {
                    Phase::Refitting => {
                        if state.k() == self.pending && state.fits(&self.points) {
                            proof {
                                use_type_invariant(&state);
                            }
                            let rounds: usize = self.rounds + 1;
                            let phase = if rounds == self.limit {
                                Phase::LimitReached
                            } else {
                                Phase::Splitting
                            };
                            Refinement {
                                points: self.points,
                                current: state,
                                seed: Vec::new(),
                                pending: self.pending,
                                rounds,
                                limit: self.limit,
                                phase,
                            }
                        } else {
                            self
                        }
                    },
                    _ => self,
                }
            },
        }
    }

}

/// The centroids that a refinement ends with, once it is over: those of the state that
/// is then current, unchanged.
pub fn final_centroids<T: Copy>(refinement: &Refinement<T>) -> (r: Option<Vec<T>>)
    ensures
        r is Some <==> refinement.finished(),
        r matches Some(centroids) ==> centroids@ == refinement.current().centers(),
{
    match refinement.phase_now() {
        Phase::Converged | Phase::LimitReached => {
            let mut centroids: Vec<T> = Vec::new();
            append_copy(&mut centroids, refinement.state().centroids());
            assert(centroids@ =~= refinement.current().centers());
            Some(centroids)
        },
        _ => None,
    }
}

} // verus!
