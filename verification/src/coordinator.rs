//! The coordinator: it keeps the last report of every worker, elects the
//! first worker that found a fee as the only winner, and says when the
//! cancellation signal has to be raised and when the search is over.

use vstd::prelude::*;
use crate::field::FieldElement;
use crate::worker::{
    accepts, nth_fee, step, Problem, SearchInput, SearchWorker, WorkerState, WorkerView,
};

verus! {

/// Why a search ended without a fee.
#[derive(Clone, Copy, Debug, PartialEq, Eq, Structural)]
pub enum SearchError {
    /// Every worker has stopped and none of them found a fee.
    NoWinner,
}

/// The fee that won a search. It is made when the search concludes, and the
/// submission takes it over.
#[derive(Debug, PartialEq, Eq)]
pub struct WinningResult {
    pub fee: FieldElement,
}

/// What the caller has to do after a report.
#[derive(Clone, Copy, Debug, PartialEq, Eq, Structural)]
pub enum CoordinatorAction {
    /// Nothing: go on waiting for reports.
    Wait,
    /// Raise the cancellation signal, so that the other workers stop.
    RaiseCancellation,
}

/// A coordinator, as the values it stands for.
pub struct CoordinatorView {
    /// The last report of each worker; `Running` until it has reported.
    pub states: Seq<WorkerState>,
    /// The fee of the first worker that reported `Found`.
    pub winner: Option<nat>,
}

/// Whether a report is taken: the worker exists, has not reported a stop
/// before, and reports one now.
pub open spec fn takes(c: CoordinatorView, worker: int, state: WorkerState) -> bool {
    0 <= worker < c.states.len() && c.states[worker] == WorkerState::Running && state
        != WorkerState::Running
}

/// The coordinator after a report. A report that is not taken changes
/// nothing; one that is taken is kept, and the first `Found` among them
/// fixes the winner for good.
pub open spec fn report(
    c: CoordinatorView,
    worker: int,
    state: WorkerState,
    fee: nat,
) -> CoordinatorView {
    if takes(c, worker, state) {
        CoordinatorView {
            states: c.states.update(worker, state),
            winner: if state == WorkerState::Found && c.winner is None {
                Some(fee)
            } else {
                c.winner
            },
        }
    } else {
        c
    }
}

/// What a report asks of the caller: the report that elects the winner and
/// every report of an error raise the signal.
pub open spec fn action_for(
    c: CoordinatorView,
    worker: int,
    state: WorkerState,
) -> CoordinatorAction {
    if takes(c, worker, state) && (state == WorkerState::Error || (state == WorkerState::Found
        && c.winner is None)) {
        CoordinatorAction::RaiseCancellation
    } else {
        CoordinatorAction::Wait
    }
}

/// The reports after every worker that has not reported is written off as
/// failed.
pub open spec fn written_off(states: Seq<WorkerState>) -> Seq<WorkerState> {
    Seq::new(
        states.len(),
        |i: int|
            if states[i] == WorkerState::Running {
                WorkerState::Error
            } else {
                states[i]
            },
    )
}

/// No worker is running any more.
pub open spec fn all_stopped(states: Seq<WorkerState>) -> bool {
    forall|i: int| 0 <= i < states.len() ==> #[trigger] states[i] != WorkerState::Running
}

/// Some worker has reported `Found`.
pub open spec fn some_found(states: Seq<WorkerState>) -> bool {
    exists|i: int| 0 <= i < states.len() && #[trigger] states[i] == WorkerState::Found
}

/// There is a winner exactly when some worker has reported `Found`.
pub open spec fn consistent(c: CoordinatorView) -> bool {
    c.winner is Some <==> some_found(c.states)
}

/// A report keeps the number of workers, keeps a winner that is already
/// there, and keeps the coordinator consistent.
pub proof fn lemma_report_keeps_winner(
    c: CoordinatorView,
    worker: int,
    state: WorkerState,
    fee: nat,
)
    requires
        consistent(c),
    ensures
        report(c, worker, state, fee).states.len() == c.states.len(),
        c.winner is Some ==> report(c, worker, state, fee).winner == c.winner,
        consistent(report(c, worker, state, fee)),
{
    let after = report(c, worker, state, fee);
    if takes(c, worker, state) {
        if some_found(c.states) {
            let i = choose|i: int| 0 <= i < c.states.len() && c.states[i] == WorkerState::Found;
            assert(after.states[i] == WorkerState::Found);
        }
        if state == WorkerState::Found {
            assert(after.states[worker] == WorkerState::Found);
        }
        if some_found(after.states) {
            let i = choose|i: int|
                0 <= i < after.states.len() && after.states[i] == WorkerState::Found;
            if i != worker {
                assert(c.states[i] == WorkerState::Found);
            }
        }
    }
}

/// Keeps the reports of the workers of one search and elects the winner.
#[derive(Debug)]
pub struct Coordinator {
    states: Vec<WorkerState>,
    winner: Option<FieldElement>,
}

impl View for Coordinator {
    type V = CoordinatorView;

    closed spec fn view(&self) -> CoordinatorView {
        CoordinatorView {
            states: self.states@,
            winner: match self.winner {
                Some(fee) => Some(fee@),
                None => None,
            },
        }
    }
}

impl Coordinator {
    #[verifier::type_invariant]
    spec fn winner_is_a_finder(self) -> bool {
        consistent(self@)
    }

    /// A coordinator for `worker_count` workers, all of them running.
    pub fn new(worker_count: usize) -> (r: Self)
        ensures
            r@.states.len() == worker_count,
            forall|i: int| 0 <= i < worker_count ==> r@.states[i] == WorkerState::Running,
            r@.winner is None,
    {
        let mut states: Vec<WorkerState> = Vec::new();
        let mut i: usize = 0;
        while i < worker_count
            invariant
                i <= worker_count,
                states@.len() == i,
                forall|j: int| 0 <= j < i ==> states@[j] == WorkerState::Running,
            decreases worker_count - i,
        {
            states.push(WorkerState::Running);
            i += 1;
        }
        Coordinator { states, winner: None }
    }

    /// The number of workers.
    pub fn worker_count(&self) -> (r: usize)
        ensures
            r == self@.states.len(),
    {
        self.states.len()
    }

    /// The fee of the winner, once there is one.
    pub fn winner(&self) -> (r: Option<FieldElement>)
        ensures
            r is Some <==> self@.winner is Some,
            r matches Some(fee) ==> self@.winner == Some(fee@),
            consistent(self@),
    {
        proof {
            use_type_invariant(self);
        }
        self.winner
    }

    /// Takes the report of one worker: the state it is in and the fee
    /// candidate it stands at.
    pub fn report(&mut self, worker: usize, state: WorkerState, fee: FieldElement) -> (action:
        CoordinatorAction)
        ensures
            final(self)@ == report(old(self)@, worker as int, state, fee@),
            action == action_for(old(self)@, worker as int, state),
            consistent(final(self)@),
    {
        proof {
            use_type_invariant(&*self);
            lemma_report_keeps_winner(self@, worker as int, state, fee@);
        }
        if worker >= self.states.len() || state == WorkerState::Running {
            return CoordinatorAction::Wait;
        }
        if self.states[worker] != WorkerState::Running {
            return CoordinatorAction::Wait;
        }
        let elects = state == WorkerState::Found && self.winner.is_none();
        let states = update_state(&self.states, worker, state);
        let winner = if elects {
            Some(fee)
        } else {
            self.winner
        };
        *self = Coordinator { states, winner };
        if elects || state == WorkerState::Error {
            CoordinatorAction::RaiseCancellation
        } else {
            CoordinatorAction::Wait
        }
    }

    /// Writes off every worker that has not reported, as having failed
    /// without a word: each of them is taken to have stopped in `Error`. The
    /// reports that are in, and the winner, stay as they are. The signal has
    /// to be raised if any worker was written off.
    pub fn fail_running(&mut self) -> (action: CoordinatorAction)
        ensures
            final(self)@.states == written_off(old(self)@.states),
            final(self)@.winner == old(self)@.winner,
            all_stopped(final(self)@.states),
            consistent(final(self)@),
            action == (if all_stopped(old(self)@.states) {
                CoordinatorAction::Wait
            } else {
                CoordinatorAction::RaiseCancellation
            }),
    {
        proof {
            use_type_invariant(&*self);
        }
        let ghost before = self.states@;
        let mut states: Vec<WorkerState> = Vec::new();
        let mut any = false;
        let mut i: usize = 0;
        while i < self.states.len()
            invariant
                i <= self.states@.len(),
                before == self.states@,
                states@ == written_off(before).take(i as int),
                any <==> exists|j: int| 0 <= j < i && before[j] == WorkerState::Running,
            decreases self.states.len() - i,
        {
            if self.states[i] == WorkerState::Running {
                any = true;
                states.push(WorkerState::Error);
            } else {
                states.push(self.states[i]);
            }
            proof {
                assert(states@ =~= written_off(before).take(i + 1));
            }
            i += 1;
        }
        proof {
            let after = written_off(before);
            assert(states@ =~= after);
            if some_found(before) {
                let j = choose|j: int| 0 <= j < before.len() && before[j] == WorkerState::Found;
                assert(after[j] == WorkerState::Found);
            }
            if some_found(after) {
                let j = choose|j: int| 0 <= j < after.len() && after[j] == WorkerState::Found;
                assert(before[j] == WorkerState::Found);
            }
            assert(all_stopped(after));
            if any {
                let j = choose|j: int| 0 <= j < before.len() && before[j] == WorkerState::Running;
                assert(!all_stopped(before));
            }
        }
        let winner = self.winner;
        *self = Coordinator { states, winner };
        if any {
            CoordinatorAction::RaiseCancellation
        } else {
            CoordinatorAction::Wait
        }
    }

    /// Whether every worker has stopped.
    pub fn all_stopped(&self) -> (r: bool)
        ensures
            r == all_stopped(self@.states),
    {
        let mut i: usize = 0;
        while i < self.states.len()
            invariant
                i <= self.states.len(),
                forall|j: int| 0 <= j < i ==> #[trigger] self.states@[j] != WorkerState::Running,
            decreases self.states.len() - i,
        {
            if self.states[i] == WorkerState::Running {
                return false;
            }
            i += 1;
        }
        true
    }

    /// How the search ended, once every worker has stopped: with the fee of
    /// the winner, or with `NoWinner` when no worker found one. `None` as
    /// long as a worker is still running.
    pub fn conclude(&self) -> (r: Option<Result<WinningResult, SearchError>>)
        ensures
            r is None <==> !all_stopped(self@.states),
            r matches Some(Ok(won)) ==> self@.winner == Some(won.fee@) && some_found(
                self@.states,
            ),
            r matches Some(Err(e)) ==> self@.winner is None && !some_found(self@.states),
    {
        proof {
            use_type_invariant(self);
        }
        if !self.all_stopped() {
            return None;
        }
        match self.winner {
            Some(fee) => Some(Ok(WinningResult { fee })),
            None => Some(Err(SearchError::NoWinner)),
        }
    }
}

/// A copy of `states` with the state of one worker replaced.
fn update_state(states: &Vec<WorkerState>, worker: usize, state: WorkerState) -> (r: Vec<
    WorkerState,
>)
    requires
        worker < states@.len(),
    ensures
        r@ == states@.update(worker as int, state),
{
    let mut out: Vec<WorkerState> = Vec::new();
    let mut i: usize = 0;
    while i < states.len()
        invariant
            i <= states.len(),
            worker < states@.len(),
            out@ == states@.update(worker as int, state).take(i as int),
        decreases states.len() - i,
    {
        if i == worker {
            out.push(state);
        } else {
            out.push(states[i]);
        }
        proof {
            assert(out@ =~= states@.update(worker as int, state).take(i + 1));
        }
        i += 1;
    }
    proof {
        assert(out@ =~= states@.update(worker as int, state));
    }
    out
}

/// The distance between the starting offsets of two neighbouring workers.
pub const WORKER_STRIDE: u64 = 65536;

/// The starting offset of worker `index`: the base fee plus `index` strides.
pub open spec fn start_fee(base_fee: u64, index: nat) -> nat {
    base_fee as nat + WORKER_STRIDE as nat * index
}

/// The starting offset of worker `index`.
pub fn worker_start_fee(base_fee: u64, index: usize) -> (r: FieldElement)
    ensures
        r@ == start_fee(base_fee, index as nat),
{
    let stride: u128 = WORKER_STRIDE as u128;
    let offset: u128 = stride * (index as u128);
    FieldElement::from_u128(base_fee as u128 + offset)
}

/// Whether the candidate that worker `i` tries in round `round` is accepted.
pub open spec fn hit(p: Problem, base_fee: u64, round: nat, i: nat) -> bool {
    accepts(p, nth_fee(start_fee(base_fee, i), round))
}

/// Round-robin order: earlier rounds first, and within a round the workers
/// by index.
pub open spec fn earlier(round: nat, i: nat, other_round: nat, other: nat) -> bool {
    round < other_round || (round == other_round && i < other)
}

/// Worker `i` has a hit in round `round`, within the attempt limit, and no
/// worker has one earlier in round-robin order.
pub open spec fn earliest_hit(
    p: Problem,
    base_fee: u64,
    count: nat,
    limit: nat,
    round: nat,
    i: nat,
) -> bool {
    &&& 1 <= round <= limit
    &&& i < count
    &&& hit(p, base_fee, round, i)
    &&& forall|r: nat, j: nat|
        1 <= r && j < count && earlier(r, j, round, i) ==> !#[trigger] hit(p, base_fee, r, j)
}

/// No worker has a hit within the attempt limit.
pub open spec fn no_hit(p: Problem, base_fee: u64, count: nat, limit: nat) -> bool {
    forall|r: nat, j: nat| 1 <= r <= limit && j < count ==> !#[trigger] hit(p, base_fee, r, j)
}

/// There is at most one earliest hit: the winner of a round-robin search is
/// a function of its inputs.
pub proof fn lemma_earliest_hit_unique(
    p: Problem,
    base_fee: u64,
    count: nat,
    limit: nat,
    round: nat,
    i: nat,
    other_round: nat,
    other: nat,
)
    requires
        earliest_hit(p, base_fee, count, limit, round, i),
        earliest_hit(p, base_fee, count, limit, other_round, other),
    ensures
        round == other_round,
        i == other,
{
    if earlier(round, i, other_round, other) {
        assert(!hit(p, base_fee, round, i));
    }
    if earlier(other_round, other, round, i) {
        assert(!hit(p, base_fee, other_round, other));
    }
}

/// An earliest hit and the absence of any hit exclude each other.
pub proof fn lemma_hit_excludes_no_hit(
    p: Problem,
    base_fee: u64,
    count: nat,
    limit: nat,
    round: nat,
    i: nat,
)
    requires
        earliest_hit(p, base_fee, count, limit, round, i),
    ensures
        !no_hit(p, base_fee, count, limit),
{
    assert(hit(p, base_fee, round, i));
}

/// Worker `j` when it is still running after `round` rounds.
pub open spec fn in_round(p: Problem, base_fee: u64, j: nat, limit: nat, round: nat) -> WorkerView {
    WorkerView {
        problem: p,
        candidate: nth_fee(start_fee(base_fee, j), round),
        attempts: round,
        limit,
        state: WorkerState::Running,
    }
}

/// Worker `j` as it stops when worker `i` wins in round `round`: the winner
/// stands at the fee it found; the workers before it have tried their
/// candidate of that round, the workers after it have not, and all of them
/// were cancelled.
pub open spec fn after_win(
    p: Problem,
    base_fee: u64,
    limit: nat,
    j: nat,
    i: nat,
    round: nat,
) -> WorkerView {
    if j < i {
        WorkerView { state: WorkerState::Cancelled, ..in_round(p, base_fee, j, limit, round) }
    } else if j == i {
        WorkerView {
            candidate: nth_fee(start_fee(base_fee, j), round),
            state: WorkerState::Found,
            ..in_round(p, base_fee, j, limit, (round - 1) as nat)
        }
    } else {
        WorkerView {
            state: WorkerState::Cancelled,
            ..in_round(p, base_fee, j, limit, (round - 1) as nat)
        }
    }
}

/// Worker `j` as it stops when the attempts are used up without a hit: every
/// worker has tried `limit` candidates; the first one ends in error, and the
/// others are cancelled.
pub open spec fn after_exhaustion(p: Problem, base_fee: u64, limit: nat, j: nat) -> WorkerView {
    WorkerView {
        state: if j == 0 {
            WorkerState::Error
        } else {
            WorkerState::Cancelled
        },
        ..in_round(p, base_fee, j, limit, limit)
    }
}

/// The workers of a search that worker `i` won in round `round` with `fee`:
/// the hit is the earliest in round-robin order, `fee` is the candidate of
/// that hit, and every worker has stopped where [`after_win`] says.
pub open spec fn won_by(
    p: Problem,
    base_fee: u64,
    limit: nat,
    workers: Seq<SearchWorker>,
    fee: nat,
    round: nat,
    i: nat,
) -> bool {
    &&& earliest_hit(p, base_fee, workers.len(), limit, round, i)
    &&& fee == nth_fee(start_fee(base_fee, i), round)
    &&& forall|j: int|
        0 <= j < workers.len() ==> (#[trigger] workers[j])@ == after_win(
            p,
            base_fee,
            limit,
            j as nat,
            i,
            round,
        )
}

/// The workers of a search that no worker won: no worker has a hit within
/// the attempt limit, and every worker has stopped where
/// [`after_exhaustion`] says.
pub open spec fn lost(p: Problem, base_fee: u64, limit: nat, workers: Seq<SearchWorker>) -> bool {
    &&& no_hit(p, base_fee, workers.len(), limit)
    &&& forall|j: int|
        0 <= j < workers.len() ==> (#[trigger] workers[j])@ == after_exhaustion(
            p,
            base_fee,
            limit,
            j as nat,
        )
}

/// A round-robin search has one outcome: two searches over the same inputs
/// that both found a fee found the same fee, and left every worker in the
/// same place.
pub proof fn lemma_search_has_one_outcome(
    p: Problem,
    base_fee: u64,
    limit: nat,
    workers: Seq<SearchWorker>,
    fee: nat,
    round: nat,
    i: nat,
    other_workers: Seq<SearchWorker>,
    other_fee: nat,
    other_round: nat,
    other: nat,
)
    requires
        workers.len() == other_workers.len(),
        won_by(p, base_fee, limit, workers, fee, round, i),
        won_by(p, base_fee, limit, other_workers, other_fee, other_round, other),
    ensures
        fee == other_fee,
        forall|j: int| 0 <= j < workers.len() ==> workers[j]@ == other_workers[j]@,
{
    lemma_earliest_hit_unique(p, base_fee, workers.len(), limit, round, i, other_round, other);
}

/// A search that found a fee did not end without a winner: over the same
/// inputs, [`won_by`] and [`lost`] exclude each other.
pub proof fn lemma_won_excludes_lost(
    p: Problem,
    base_fee: u64,
    limit: nat,
    workers: Seq<SearchWorker>,
    fee: nat,
    round: nat,
    i: nat,
    other_workers: Seq<SearchWorker>,
)
    requires
        workers.len() == other_workers.len(),
        won_by(p, base_fee, limit, workers, fee, round, i),
    ensures
        !lost(p, base_fee, limit, other_workers),
{
    lemma_hit_excludes_no_hit(p, base_fee, workers.len(), limit, round, i);
}

/// How a search ended, and the workers as they stopped.
#[derive(Debug)]
pub struct SearchReport {
    /// The winning fee, or why there is none.
    pub outcome: Result<WinningResult, SearchError>,
    /// The workers, by index, each in the state it stopped in.
    pub workers: Vec<SearchWorker>,
}

/// The rejected attempts of the first `n` workers, added up.
pub open spec fn attempts_sum(workers: Seq<SearchWorker>, n: nat) -> nat
    decreases n,
{
    if n == 0 {
        0
    } else {
        attempts_sum(workers, (n - 1) as nat) + workers[n - 1]@.attempts
    }
}

/// How many candidates the workers have rejected between them: each worker
/// counts for itself, and the counts are added up when the workers report.
pub fn total_attempts(workers: &[SearchWorker]) -> (total: u128)
    ensures
        total == attempts_sum(workers@, workers@.len()),
{
    let mut total: u128 = 0;
    let mut i: usize = 0;
    while i < workers.len()
        invariant
            i <= workers.len(),
            total == attempts_sum(workers@, i as nat),
            total <= i * 0xffff_ffff_ffff_ffff,
        decreases workers.len() - i,
    {
        let attempts = workers[i].attempts();
        total = total + attempts as u128;
        i += 1;
    }
    total
}

/// The workers of a search, each at its starting offset.
fn spawn_workers(input: &SearchInput, base_fee: u64, worker_count: usize, attempt_limit: u64) -> (r:
    Vec<SearchWorker>)
    ensures
        r@.len() == worker_count,
        forall|j: int|
            0 <= j < worker_count ==> (#[trigger] r@[j])@ == in_round(
                input@,
                base_fee,
                j as nat,
                attempt_limit as nat,
                0,
            ),
{
    let mut workers: Vec<SearchWorker> = Vec::new();
    let mut i: usize = 0;
    while i < worker_count
        invariant
            i <= worker_count,
            workers@.len() == i,
            forall|j: int|
                0 <= j < i ==> (#[trigger] workers@[j])@ == in_round(
                    input@,
                    base_fee,
                    j as nat,
                    attempt_limit as nat,
                    0,
                ),
        decreases worker_count - i,
    {
        workers.push(SearchWorker::new(*input, worker_start_fee(base_fee, i), attempt_limit));
        i += 1;
    }
    workers
}

/// Lets every worker try its next candidate, in index order, and stops at
/// the first worker that does not go on. Returns the index of that worker.
fn run_round(
    workers: &mut Vec<SearchWorker>,
    input: &SearchInput,
    base_fee: u64,
    attempt_limit: u64,
    round: u64,
) -> (stopped: Option<usize>)
    requires
        forall|j: int|
            0 <= j < old(workers)@.len() ==> (#[trigger] old(workers)@[j])@ == in_round(
                input@,
                base_fee,
                j as nat,
                attempt_limit as nat,
                round as nat,
            ),
    ensures
        final(workers)@.len() == old(workers)@.len(),
        stopped is None && final(workers)@.len() > 0 ==> round < attempt_limit,
        stopped is None ==> forall|j: int|
            0 <= j < final(workers)@.len() ==> (#[trigger] final(workers)@[j])@ == in_round(
                input@,
                base_fee,
                j as nat,
                attempt_limit as nat,
                (round + 1) as nat,
            ) && !hit(input@, base_fee, (round + 1) as nat, j as nat),
        stopped matches Some(i) ==> {
            &&& i < final(workers)@.len()
            &&& final(workers)@[i as int]@ == step(
                in_round(input@, base_fee, i as nat, attempt_limit as nat, round as nat),
                false,
            )
            &&& final(workers)@[i as int]@.state != WorkerState::Running
            &&& i > 0 ==> round < attempt_limit
            &&& forall|j: int|
                0 <= j < i ==> (#[trigger] final(workers)@[j])@ == in_round(
                    input@,
                    base_fee,
                    j as nat,
                    attempt_limit as nat,
                    (round + 1) as nat,
                ) && !hit(input@, base_fee, (round + 1) as nat, j as nat)
            &&& forall|j: int|
                i < j < final(workers)@.len() ==> (#[trigger] final(workers)@[j])@ == in_round(
                    input@,
                    base_fee,
                    j as nat,
                    attempt_limit as nat,
                    round as nat,
                )
        },
{
    let count = workers.len();
    let mut i: usize = 0;
    while i < count
        invariant
            i <= count,
            workers@.len() == count,
            old(workers)@.len() == count,
            i > 0 ==> round < attempt_limit,
            forall|j: int|
                0 <= j < i ==> (#[trigger] workers@[j])@ == in_round(
                    input@,
                    base_fee,
                    j as nat,
                    attempt_limit as nat,
                    (round + 1) as nat,
                ) && !hit(input@, base_fee, (round + 1) as nat, j as nat),
            forall|j: int|
                i <= j < count ==> (#[trigger] workers@[j])@ == in_round(
                    input@,
                    base_fee,
                    j as nat,
                    attempt_limit as nat,
                    round as nat,
                ),
        decreases count - i,
    {
        let mut worker = workers[i];
        let state = worker.step(false);
        workers.set(i, worker);
        if state != WorkerState::Running {
            return Some(i);
        }
        i += 1;
    }
    None
}

/// Shows every worker the raised signal and hands the coordinator what each
/// of them answers.
fn wind_down(workers: &mut Vec<SearchWorker>, coordinator: &mut Coordinator)
    requires
        old(coordinator)@.states.len() == old(workers)@.len(),
        forall|j: int|
            0 <= j < old(workers)@.len() ==> (#[trigger] old(workers)@[j])@.state == old(
                coordinator,
            )@.states[j],
    ensures
        final(workers)@.len() == old(workers)@.len(),
        forall|j: int|
            0 <= j < final(workers)@.len() ==> (#[trigger] final(workers)@[j])@ == step(
                old(workers)@[j]@,
                true,
            ),
        final(coordinator)@.winner == old(coordinator)@.winner,
        final(coordinator)@.states.len() == final(workers)@.len(),
        forall|j: int|
            0 <= j < final(workers)@.len() ==> final(coordinator)@.states[j] == (
            #[trigger] final(workers)@[j])@.state,
        all_stopped(final(coordinator)@.states),
{
    let count = workers.len();
    let mut i: usize = 0;
    while i < count
        invariant
            i <= count,
            workers@.len() == count,
            old(workers)@.len() == count,
            coordinator@.states.len() == count,
            coordinator@.winner == old(coordinator)@.winner,
            forall|j: int|
                0 <= j < i ==> (#[trigger] workers@[j])@ == step(old(workers)@[j]@, true),
            forall|j: int| i <= j < count ==> (#[trigger] workers@[j]) == old(workers)@[j],
            forall|j: int|
                0 <= j < count ==> coordinator@.states[j] == (#[trigger] workers@[j])@.state,
            forall|j: int|
                0 <= j < i ==> (#[trigger] coordinator@.states[j]) != WorkerState::Running,
        decreases count - i,
    {
        let mut worker = workers[i];
        let state = worker.step(true);
        workers.set(i, worker);
        coordinator.report(i, state, worker.candidate());
        i += 1;
    }
}

impl Coordinator {
    /// Searches with `worker_count` workers that take turns: in every round each
    /// worker tries its next candidate, in index order. The first hit wins; the
    /// signal is then raised and every other worker stops as cancelled. If the
    /// attempt limit is used up without a hit, the search ends with `NoWinner`.
    ///
    /// Every worker has stopped when the report is made.
    pub fn search(input: &SearchInput, base_fee: u64, worker_count: usize, attempt_limit: u64) -> (report:
        SearchReport)
        ensures
            report.workers@.len() == worker_count,
            forall|j: int|
                0 <= j < worker_count ==> (#[trigger] report.workers@[j])@.state
                    != WorkerState::Running,
            report.outcome matches Ok(won) ==> exists|round: nat, i: nat|
                won_by(
                    input@,
                    base_fee,
                    attempt_limit as nat,
                    report.workers@,
                    won.fee@,
                    round,
                    i,
                ),
            report.outcome matches Err(e) ==> lost(
                input@,
                base_fee,
                attempt_limit as nat,
                report.workers@,
            ),
    {
        let mut workers = spawn_workers(input, base_fee, worker_count, attempt_limit);
        let mut coordinator = Coordinator::new(worker_count);
        let mut round: u64 = 0;
        let mut stopped: Option<usize> = None;
        if worker_count > 0 {
            while stopped.is_none()
                invariant
                    workers@.len() == worker_count,
                    worker_count > 0,
                    round <= attempt_limit,
                    forall|r: nat, j: nat|
                        1 <= r <= round && j < worker_count ==> !#[trigger] hit(input@, base_fee, r, j),
                    stopped is None ==> forall|j: int|
                        0 <= j < worker_count ==> (#[trigger] workers@[j])@ == in_round(
                            input@,
                            base_fee,
                            j as nat,
                            attempt_limit as nat,
                            round as nat,
                        ),
                    stopped matches Some(i) ==> {
                        &&& i < worker_count
                        &&& workers@[i as int]@ == step(
                            in_round(input@, base_fee, i as nat, attempt_limit as nat, round as nat),
                            false,
                        )
                        &&& workers@[i as int]@.state != WorkerState::Running
                        &&& i > 0 ==> round < attempt_limit
                        &&& forall|j: int|
                            0 <= j < i ==> (#[trigger] workers@[j])@ == in_round(
                                input@,
                                base_fee,
                                j as nat,
                                attempt_limit as nat,
                                (round + 1) as nat,
                            ) && !hit(input@, base_fee, (round + 1) as nat, j as nat)
                        &&& forall|j: int|
                            i < j < worker_count ==> (#[trigger] workers@[j])@ == in_round(
                                input@,
                                base_fee,
                                j as nat,
                                attempt_limit as nat,
                                round as nat,
                            )
                    },
                decreases attempt_limit - round + (if stopped is None { 1int } else { 0int }),
            {
                stopped = run_round(&mut workers, input, base_fee, attempt_limit, round);
                if stopped.is_none() {
                    proof {
                        assert(workers@[0]@ == in_round(
                            input@,
                            base_fee,
                            0,
                            attempt_limit as nat,
                            (round + 1) as nat,
                        ));
                        assert forall|r: nat, j: nat|
                            1 <= r <= round + 1 && j < worker_count implies !#[trigger] hit(
                            input@,
                            base_fee,
                            r,
                            j,
                        ) by {
                            if r == round + 1 {
                                assert(workers@[j as int]@ == in_round(
                                    input@,
                                    base_fee,
                                    j,
                                    attempt_limit as nat,
                                    (round + 1) as nat,
                                ));
                            }
                        }
                    }
                    round = round + 1;
                }
            }
        }
        let ghost frozen = workers@;
        match stopped {
            Some(i) => {
                let winner = workers[i];
                coordinator.report(i, winner.state(), winner.candidate());
            },
            None => {},
        }
        wind_down(&mut workers, &mut coordinator);
        let outcome = match coordinator.conclude() {
            Some(outcome) => outcome,
            // Every worker has stopped, so the coordinator has concluded.
            None => Err(SearchError::NoWinner),
        };
        proof {
            let p = input@;
            let limit = attempt_limit as nat;
            match stopped {
                Some(i) => {
                    let before = in_round(p, base_fee, i as nat, limit, round as nat);
                    assert(frozen[i as int]@ == step(before, false));
                    if frozen[i as int]@.state == WorkerState::Found {
                        let won = (round + 1) as nat;
                        assert(hit(p, base_fee, won, i as nat));
                        assert forall|j: int| 0 <= j < worker_count implies (#[trigger] workers@[j])@
                            == after_win(p, base_fee, limit, j as nat, i as nat, won) by {
                            assert(workers@[j]@ == step(frozen[j]@, true));
                            if j < i {
                                assert(frozen[j]@ == in_round(p, base_fee, j as nat, limit, won));
                            } else if j > i {
                                assert(frozen[j]@ == in_round(p, base_fee, j as nat, limit, round as nat));
                            }
                        }
                        assert forall|r: nat, j: nat|
                            1 <= r && j < worker_count && earlier(r, j, won, i as nat) implies !#[trigger] hit(
                            p,
                            base_fee,
                            r,
                            j,
                        ) by {
                            if r == won {
                                assert(frozen[j as int]@ == in_round(p, base_fee, j, limit, won));
                            }
                        }
                        assert(won_by(p, base_fee, limit, workers@, outcome->Ok_0.fee@, won, i as nat));
                    } else {
                        assert(frozen[i as int]@.state == WorkerState::Error);
                        assert(round == attempt_limit);
                        assert(i == 0);
                        assert forall|j: int| 0 <= j < worker_count implies (#[trigger] workers@[j])@
                            == after_exhaustion(p, base_fee, limit, j as nat) by {
                            assert(workers@[j]@ == step(frozen[j]@, true));
                            if j > i {
                                assert(frozen[j]@ == in_round(p, base_fee, j as nat, limit, round as nat));
                            }
                        }
                        assert(!some_found(coordinator@.states));
                    }
                },
                None => {
                    assert(!some_found(coordinator@.states));
                },
            }
        }
        SearchReport { outcome, workers }
    }
}

} // verus!
