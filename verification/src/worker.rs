//! The search worker: a state machine that walks the fee candidates from its
//! own starting offset until the transaction hash falls inside the window.

use vstd::prelude::*;
use crate::call::{call_hash, encoding_of, Call};
use crate::field::{prime, FieldElement};
use crate::hasher::hash_of;
use crate::signal::CancellationSignal;
use crate::transaction::{transaction_digest, transaction_hash};
use crate::window::AcceptanceWindow;

verus! {

/// Where a worker stands. `Running` is the only state that a worker leaves.
#[derive(Clone, Copy, Debug, PartialEq, Eq, Structural)]
pub enum WorkerState {
    /// Still walking the candidates.
    Running,
    /// The current candidate is a fee whose transaction hash is accepted.
    Found,
    /// Stopped because the cancellation signal was seen raised.
    Cancelled,
    /// Stopped because the attempt limit was used up without a hit.
    Error,
}

/// What a search is about: the fixed fields of the transaction and the
/// bounds of the acceptance window, as integers.
pub struct Problem {
    pub sender_address: nat,
    pub call_hash: nat,
    pub chain_id: nat,
    pub nonce: nat,
    pub lower: nat,
    pub upper: nat,
}

/// Whether the transaction with fee `fee` is accepted: its hash lies in the
/// window, both ends included.
pub open spec fn accepts(p: Problem, fee: nat) -> bool {
    p.lower <= transaction_digest(p.sender_address, p.call_hash, fee, p.chain_id, p.nonce)
        <= p.upper
}

/// The candidate that follows `fee`: one more, wrapping at the modulus.
pub open spec fn next_fee(fee: nat) -> nat {
    (fee + 1) % prime()
}

/// The `k`-th candidate after `start`.
pub open spec fn nth_fee(start: nat, k: nat) -> nat
    decreases k,
{
    if k == 0 {
        start
    } else {
        next_fee(nth_fee(start, (k - 1) as nat))
    }
}

/// The candidates walk the field in steps of one: the `k`-th candidate after
/// `start` is `start + k`, wrapped at the modulus.
pub proof fn lemma_nth_fee(start: nat, k: nat)
    requires
        start < prime(),
    ensures
        nth_fee(start, k) == (start + k) % prime(),
    decreases k,
{
    if k > 0 {
        lemma_nth_fee(start, (k - 1) as nat);
    }
}

/// A worker, as the integers it stands for.
pub struct WorkerView {
    pub problem: Problem,
    /// The fee candidate that was tried last, or the starting offset.
    pub candidate: nat,
    /// How many candidates were tried and rejected.
    pub attempts: nat,
    /// How many rejected candidates the worker puts up with.
    pub limit: nat,
    pub state: WorkerState,
}

/// One transition of the worker, given whether it saw the signal raised.
///
/// A worker that is not running stays as it is. A running worker that sees
/// the signal raised is cancelled. One that has used up its attempts ends in
/// error. Otherwise it moves to the next candidate, and either has found a
/// fee or counts one more rejected attempt.
pub open spec fn step(w: WorkerView, cancelled: bool) -> WorkerView {
    if w.state != WorkerState::Running {
        w
    } else if cancelled {
        WorkerView { state: WorkerState::Cancelled, ..w }
    } else if w.attempts >= w.limit {
        WorkerView { state: WorkerState::Error, ..w }
    } else if accepts(w.problem, next_fee(w.candidate)) {
        WorkerView { candidate: next_fee(w.candidate), state: WorkerState::Found, ..w }
    } else {
        WorkerView { candidate: next_fee(w.candidate), attempts: w.attempts + 1, ..w }
    }
}

/// What holds of a worker that started running as `start` and now stands as
/// `now`, whatever it was shown of the signal on the way: it has rejected,
/// one after the other, as many candidates as its counter has grown by; it
/// stands at the last of them, or in `Found` at the one after them, which is
/// then accepted; and it is in `Error` only with its attempts used up.
pub open spec fn run_of(start: WorkerView, now: WorkerView) -> bool {
    let tried = (now.attempts - start.attempts) as nat;
    &&& now.problem == start.problem
    &&& now.limit == start.limit
    &&& start.attempts <= now.attempts <= now.limit
    &&& forall|i: nat|
        1 <= i <= tried ==> !accepts(start.problem, #[trigger] nth_fee(start.candidate, i))
    &&& now.state == WorkerState::Found ==> {
        &&& now.candidate == nth_fee(start.candidate, tried + 1)
        &&& accepts(start.problem, now.candidate)
        &&& now.attempts < now.limit
    }
    &&& now.state != WorkerState::Found ==> now.candidate == nth_fee(start.candidate, tried)
    &&& now.state == WorkerState::Error ==> now.attempts == now.limit
}

/// A worker that starts running within its limit has made a run of no
/// candidate yet.
pub proof fn lemma_run_starts(start: WorkerView)
    requires
        start.state == WorkerState::Running,
        start.attempts <= start.limit,
    ensures
        run_of(start, start),
{
}

/// Every transition continues the run.
pub proof fn lemma_step_continues_run(start: WorkerView, now: WorkerView, cancelled: bool)
    requires
        run_of(start, now),
    ensures
        run_of(start, step(now, cancelled)),
{
    let next = step(now, cancelled);
    let tried = (now.attempts - start.attempts) as nat;
    if now.state == WorkerState::Running && !cancelled && now.attempts < now.limit {
        assert(nth_fee(start.candidate, tried + 1) == next_fee(nth_fee(start.candidate, tried)));
    }
}

/// A run that nothing interrupts has one end: two workers that made the
/// same start and have both stopped, in `Found` or in `Error`, stand at the
/// same candidate with the same count, in the same state.
pub proof fn lemma_run_has_one_end(start: WorkerView, a: WorkerView, b: WorkerView)
    requires
        run_of(start, a),
        run_of(start, b),
        a.state == WorkerState::Found || a.state == WorkerState::Error,
        b.state == WorkerState::Found || b.state == WorkerState::Error,
    ensures
        a == b,
{
    let tried_a = (a.attempts - start.attempts) as nat;
    let tried_b = (b.attempts - start.attempts) as nat;
    if a.state == WorkerState::Found && tried_a < tried_b {
        assert(!accepts(start.problem, nth_fee(start.candidate, tried_a + 1)));
    }
    if b.state == WorkerState::Found && tried_b < tried_a {
        assert(!accepts(start.problem, nth_fee(start.candidate, tried_b + 1)));
    }
}

/// The fixed inputs of a search: the fields of the transaction that do not
/// change while the fee is searched, and the window its hash must fall in.
#[derive(Clone, Copy, Debug, PartialEq, Eq)]
pub struct SearchInput {
    pub call_hash: FieldElement,
    pub sender_address: FieldElement,
    pub chain_id: FieldElement,
    pub nonce: FieldElement,
    pub window: AcceptanceWindow,
}

impl View for SearchInput {
    type V = Problem;

    open spec fn view(&self) -> Problem {
        Problem {
            sender_address: self.sender_address@,
            call_hash: self.call_hash@,
            chain_id: self.chain_id@,
            nonce: self.nonce@,
            lower: self.window.lower(),
            upper: self.window.upper(),
        }
    }
}

impl SearchInput {
    /// The inputs of the search for the fee of a transaction that makes
    /// `calls`.
    pub fn for_calls(
        calls: &[Call],
        sender_address: FieldElement,
        chain_id: FieldElement,
        nonce: FieldElement,
        window: AcceptanceWindow,
    ) -> (r: Self)
        ensures
            r@ == (Problem {
                sender_address: sender_address@,
                call_hash: hash_of(encoding_of(calls@)),
                chain_id: chain_id@,
                nonce: nonce@,
                lower: window.lower(),
                upper: window.upper(),
            }),
    {
        SearchInput { call_hash: call_hash(calls), sender_address, chain_id, nonce, window }
    }
}

/// The state that a worker alone owns: the fee candidate it stands at and
/// the number of candidates it has rejected.
#[derive(Clone, Copy, Debug, PartialEq, Eq)]
pub struct SearchTask {
    pub candidate: FieldElement,
    pub attempts: u64,
}

/// One search worker.
#[derive(Clone, Copy, Debug, PartialEq, Eq)]
pub struct SearchWorker {
    input: SearchInput,
    task: SearchTask,
    attempt_limit: u64,
    state: WorkerState,
}

impl View for SearchWorker {
    type V = WorkerView;

    closed spec fn view(&self) -> WorkerView {
        WorkerView {
            problem: self.input@,
            candidate: self.task.candidate@,
            attempts: self.task.attempts as nat,
            limit: self.attempt_limit as nat,
            state: self.state,
        }
    }
}

impl SearchWorker {
    #[verifier::type_invariant]
    spec fn within_limit(self) -> bool {
        self.task.attempts <= self.attempt_limit
    }

    /// A running worker that starts just after `start_fee` and gives up
    /// after `attempt_limit` rejected candidates.
    pub fn new(input: SearchInput, start_fee: FieldElement, attempt_limit: u64) -> (r: Self)
        ensures
            r@ == (WorkerView {
                problem: input@,
                candidate: start_fee@,
                attempts: 0,
                limit: attempt_limit as nat,
                state: WorkerState::Running,
            }),
    {
        SearchWorker {
            input,
            task: SearchTask { candidate: start_fee, attempts: 0 },
            attempt_limit,
            state: WorkerState::Running,
        }
    }

    /// Where the worker stands.
    pub fn state(&self) -> (r: WorkerState)
        ensures
            r == self@.state,
    {
        self.state
    }

    /// The candidate and the attempt counter.
    pub fn task(&self) -> (r: SearchTask)
        ensures
            r.candidate@ == self@.candidate,
            r.attempts == self@.attempts,
            self@.attempts <= self@.limit,
    {
        proof {
            use_type_invariant(self);
        }
        self.task
    }

    /// The fee candidate that was tried last; in `Found`, the winning fee.
    pub fn candidate(&self) -> (r: FieldElement)
        ensures
            r@ == self@.candidate,
    {
        self.task.candidate
    }

    /// How many candidates were tried and rejected.
    pub fn attempts(&self) -> (r: u64)
        ensures
            r == self@.attempts,
            self@.attempts <= self@.limit,
    {
        proof {
            use_type_invariant(self);
        }
        self.task.attempts
    }

    /// How many rejected candidates the worker puts up with.
    pub fn attempt_limit(&self) -> (r: u64)
        ensures
            r == self@.limit,
    {
        self.attempt_limit
    }

    /// Makes one transition, given whether the signal was seen raised.
    pub fn step(&mut self, cancelled: bool) -> (state: WorkerState)
        ensures
            final(self)@ == step(old(self)@, cancelled),
            state == final(self)@.state,
            final(self)@.attempts <= final(self)@.limit,
    {
        proof {
            use_type_invariant(&*self);
        }
        if self.state != WorkerState::Running {
            return self.state;
        }
        if cancelled {
            self.state = WorkerState::Cancelled;
            return self.state;
        }
        if self.task.attempts >= self.attempt_limit {
            self.state = WorkerState::Error;
            return self.state;
        }
        let fee = self.task.candidate.increment();
        let digest = transaction_hash(
            &self.input.sender_address,
            &self.input.call_hash,
            &fee,
            &self.input.chain_id,
            &self.input.nonce,
        );
        self.task.candidate = fee;
        if self.input.window.contains(&digest) {
            self.state = WorkerState::Found;
        } else {
            self.task.attempts = self.task.attempts + 1;
        }
        self.state
    }
}

/// Runs a worker until it stops, looking at the signal before each
/// candidate. A worker that stops in `Found` or in `Error` raises the signal,
/// so that the others do not go on for nothing.
///
/// The signal is shared, so the run may be cut short at any candidate. What
/// holds whatever was seen of it: the worker has stopped, and it has made a
/// run from where it started. In particular, a fee that it has found is the
/// first accepted candidate after its start. A worker whose holder already
/// knows the signal raised is cancelled before it tries a candidate, and
/// however a running worker stops, its holder knows the signal raised
/// afterwards: it has seen it so, or it has raised it.
pub fn mine_worker(worker: &mut SearchWorker, signal: &mut CancellationSignal) -> (state:
    WorkerState)
    ensures
        state == final(worker)@.state,
        state != WorkerState::Running,
        old(worker)@.state == WorkerState::Running ==> run_of(old(worker)@, final(worker)@),
        old(worker)@.state != WorkerState::Running ==> final(worker)@ == old(worker)@,
        old(worker)@.state == WorkerState::Running && old(signal).known_raised()
            ==> final(worker)@ == step(old(worker)@, true),
        old(worker)@.state == WorkerState::Running ==> final(signal).known_raised(),
        old(signal).known_raised() ==> final(signal).known_raised(),
{
    let ghost start = worker@;
    let ghost mut first = true;
    proof {
        use_type_invariant(&*worker);
        if start.state == WorkerState::Running {
            lemma_run_starts(start);
        }
    }
    loop
        invariant
            start == old(worker)@,
            start.state == WorkerState::Running ==> run_of(start, worker@),
            start.state != WorkerState::Running ==> worker@ == start,
            first ==> worker@ == start,
            !first ==> worker@.state == WorkerState::Running,
            old(signal).known_raised() ==> signal.known_raised(),
            old(signal).known_raised() ==> first,
            worker@.attempts <= worker@.limit,
        decreases worker@.limit - worker@.attempts + (if first { 1int } else { 0int }),
    {
        let cancelled = signal.is_raised();
        proof {
            if start.state == WorkerState::Running {
                lemma_step_continues_run(start, worker@, cancelled);
            }
        }
        let state = worker.step(cancelled);
        if state != WorkerState::Running {
            if state == WorkerState::Found || state == WorkerState::Error {
                signal.raise();
            }
            return state;
        }
        proof {
            first = false;
        }
    }
}

/// Runs a worker that nothing interrupts until it stops: in `Found` at the
/// first accepted candidate after its start, or in `Error` when its attempts
/// are used up without one.
pub fn search_alone(worker: &mut SearchWorker) -> (state: WorkerState)
    ensures
        state == final(worker)@.state,
        old(worker)@.state == WorkerState::Running ==> run_of(old(worker)@, final(worker)@) && (
        state == WorkerState::Found || state == WorkerState::Error),
        old(worker)@.state != WorkerState::Running ==> final(worker)@ == old(worker)@,
{
    let ghost start = worker@;
    proof {
        use_type_invariant(&*worker);
        if start.state == WorkerState::Running {
            lemma_run_starts(start);
        }
    }
    loop
        invariant
            start == old(worker)@,
            start.state == WorkerState::Running ==> run_of(start, worker@) && worker@.state
                != WorkerState::Cancelled,
            start.state != WorkerState::Running ==> worker@ == start,
            worker@.attempts <= worker@.limit,
        decreases worker@.limit - worker@.attempts,
    {
        proof {
            if start.state == WorkerState::Running {
                lemma_step_continues_run(start, worker@, false);
            }
        }
        let state = worker.step(false);
        if state != WorkerState::Running {
            return state;
        }
    }
}

} // verus!
