//! Submission: the transaction that carries the winning fee, and the
//! single-shot protocol under which it is sent.

use vstd::prelude::*;
use crate::call::{call_hash, encoding_of, Call};
use crate::coordinator::WinningResult;
use crate::field::FieldElement;
use crate::hasher::hash_of;
use crate::transaction::{transaction_digest, transaction_hash};
use crate::worker::{accepts, Problem, SearchInput};

verus! {

/// The transaction that is submitted: the calls, the winning fee, and the
/// sequence number that was fetched before the search.
#[derive(Debug)]
pub struct Transaction {
    pub sender_address: FieldElement,
    pub calls: Vec<Call>,
    pub max_fee: FieldElement,
    pub nonce: FieldElement,
    pub chain_id: FieldElement,
}

impl Transaction {
    /// The canonical hash of the transaction, as the remote validator
    /// recomputes it.
    pub open spec fn digest(self) -> nat {
        transaction_digest(
            self.sender_address@,
            hash_of(encoding_of(self.calls@)),
            self.max_fee@,
            self.chain_id@,
            self.nonce@,
        )
    }

    /// Computes the canonical hash of the transaction.
    pub fn hash(&self) -> (r: FieldElement)
        ensures
            r@ == self.digest(),
    {
        let calls_digest = call_hash(self.calls.as_slice());
        transaction_hash(
            &self.sender_address,
            &calls_digest,
            &self.max_fee,
            &self.chain_id,
            &self.nonce,
        )
    }
}

/// The transaction that a search over `problem` was about, with `fee` as
/// its fee, hashes to what the search tested: a fee that the search accepted
/// gives a transaction whose hash lies in the window.
pub proof fn lemma_found_fee_is_accepted(transaction: Transaction, problem: Problem)
    requires
        transaction.sender_address@ == problem.sender_address,
        transaction.chain_id@ == problem.chain_id,
        transaction.nonce@ == problem.nonce,
        hash_of(encoding_of(transaction.calls@)) == problem.call_hash,
        accepts(problem, transaction.max_fee@),
    ensures
        problem.lower <= transaction.digest() <= problem.upper,
{
}

/// Builds the transaction that carries the fee which won a search over
/// `input`. The winning result is used up.
pub fn build_transaction(calls: Vec<Call>, input: &SearchInput, won: WinningResult) -> (r:
    Transaction)
    ensures
        r.calls == calls,
        r.sender_address == input.sender_address,
        r.chain_id == input.chain_id,
        r.nonce == input.nonce,
        r.max_fee == won.fee,
{
    Transaction {
        sender_address: input.sender_address,
        calls,
        max_fee: won.fee,
        nonce: input.nonce,
        chain_id: input.chain_id,
    }
}

/// Which part of a submission failed.
#[derive(Clone, Copy, Debug, PartialEq, Eq, Structural)]
pub enum FailureKind {
    /// The transaction could not be signed.
    Signing,
    /// The ledger could not be reached, or did not answer.
    Network,
    /// The remote validator turned the transaction down.
    Rejected,
}

/// What the ledger client reports of a failed send.
#[derive(Debug, PartialEq, Eq)]
pub struct LedgerFailure {
    pub kind: FailureKind,
    pub message: String,
}

impl Clone for LedgerFailure {
    fn clone(&self) -> (r: Self)
        ensures
            r == *self,
    {
        LedgerFailure { kind: self.kind, message: self.message.clone() }
    }
}

/// A submission that failed, with the cause that the ledger client gave.
#[derive(Debug, PartialEq, Eq)]
pub struct SubmissionError {
    pub cause: LedgerFailure,
}

impl Clone for SubmissionError {
    fn clone(&self) -> (r: Self)
        ensures
            r == *self,
    {
        SubmissionError { cause: self.cause.clone() }
    }
}

/// A transaction that the ledger took.
#[derive(Clone, Copy, Debug, PartialEq, Eq)]
pub struct TransactionHandle {
    pub transaction_hash: FieldElement,
}

/// Where a submission stands.
#[derive(Clone, Copy, Debug, PartialEq, Eq, Structural)]
pub enum SubmitterState {
    /// The transaction has not been handed to the ledger client.
    Ready,
    /// The transaction is with the ledger client; its answer is awaited.
    Sending,
    /// The answer is in. Nothing is sent again.
    Done,
}

/// Sends one transaction once: after the send has begun, no second send
/// begins, whether the first one succeeds or fails.
#[derive(Debug)]
pub struct Submitter {
    transaction: Transaction,
    state: SubmitterState,
}

impl Submitter {
    /// The transaction that this submitter sends.
    pub closed spec fn subject(self) -> Transaction {
        self.transaction
    }

    /// Where the submission stands.
    pub closed spec fn phase(self) -> SubmitterState {
        self.state
    }

    /// A submitter that has not yet sent `transaction`.
    pub fn new(transaction: Transaction) -> (r: Self)
        ensures
            r.subject() == transaction,
            r.phase() == SubmitterState::Ready,
    {
        Submitter { transaction, state: SubmitterState::Ready }
    }

    /// The transaction that this submitter sends.
    pub fn transaction(&self) -> (r: &Transaction)
        ensures
            *r == self.subject(),
    {
        &self.transaction
    }

    /// Where the submission stands.
    pub fn state(&self) -> (r: SubmitterState)
        ensures
            r == self.phase(),
    {
        self.state
    }

    /// Asks leave to send. The answer is `true` once, for the first call:
    /// the caller then hands the transaction to the ledger client and brings
    /// the answer to [`Submitter::complete`].
    pub fn begin(&mut self) -> (send: bool)
        ensures
            send == (old(self).phase() == SubmitterState::Ready),
            final(self).phase() == (if send {
                SubmitterState::Sending
            } else {
                old(self).phase()
            }),
            final(self).subject() == old(self).subject(),
    {
        if self.state == SubmitterState::Ready {
            self.state = SubmitterState::Sending;
            true
        } else {
            false
        }
    }

    /// Takes the answer of the ledger client to the one send. A failure
    /// comes back as a [`SubmissionError`] with the cause as it was given;
    /// nothing is sent again. An answer that no send awaits is dropped.
    pub fn complete(&mut self, response: Result<FieldElement, LedgerFailure>) -> (r: Option<
        Result<TransactionHandle, SubmissionError>,
    >)
        ensures
            r is Some <==> old(self).phase() == SubmitterState::Sending,
            r is Some ==> final(self).phase() == SubmitterState::Done,
            r is None ==> final(self).phase() == old(self).phase(),
            final(self).subject() == old(self).subject(),
            r matches Some(Ok(handle)) ==> response == Ok::<FieldElement, LedgerFailure>(
                handle.transaction_hash,
            ),
            r matches Some(Err(error)) ==> response == Err::<FieldElement, LedgerFailure>(
                error.cause,
            ),
    {
        if self.state != SubmitterState::Sending {
            return None;
        }
        self.state = SubmitterState::Done;
        match response {
            Ok(transaction_hash) => Some(Ok(TransactionHandle { transaction_hash })),
            Err(cause) => Some(Err(SubmissionError { cause })),
        }
    }
}

} // verus!
