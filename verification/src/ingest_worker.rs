//! What the ingest workers decide between the steps the application performs: whether a
//! task runs, whether a failed attempt is retried, and what the interface is told.
use vstd::prelude::*;
use crate::ingest_job::{FileState, COPY_ATTEMPTS, VERIFY_ATTEMPTS};
use crate::manifest::Entry;
use crate::text::{owned, str_eq};

verus! {

/// Identifies a card within a session.
pub type CardId = u64;

/// What a worker tells the interface.
#[derive(Debug)]
pub enum IngestMsg {
    /// A file moved into a new state that is not final.
    Stage { card: CardId, index: usize, state: FileState },
    Done { card: CardId, index: usize, entry: Box<Entry> },
    Failed { card: CardId, index: usize, error: String },
}

/// What follows one attempt at a step that may be retried.
#[derive(Debug)]
pub enum AttemptNext<T> {
    /// It worked.
    Succeeded(T),
    /// The card was cancelled meanwhile: stop quietly.
    Cancelled,
    /// Try again after a pause.
    Retry,
    /// Out of attempts: this is the error to report.
    GaveUp(String),
}

pub open spec fn after_attempt_spec<T>(attempt: nat, max: nat, result: Result<T, String>, cancelled: bool) -> AttemptNext<T> {
    match result {
        Ok(v) => AttemptNext::Succeeded(v),
        Err(e) => if cancelled {
            AttemptNext::Cancelled
        } else if attempt < max {
            AttemptNext::Retry
        } else {
            AttemptNext::GaveUp(e)
        },
    }
}

/// After attempt number `attempt` (counting from one) of at most `max`: a success ends
/// the step; a failure stops it when the card was cancelled, is retried while attempts are
/// left, and is reported once they are not.
pub fn after_attempt<T>(attempt: usize, max: usize, result: Result<T, String>, cancelled: bool) -> (r: AttemptNext<T>)
    ensures
        r == after_attempt_spec(attempt as nat, max as nat, result, cancelled),
{
    match result {
        Ok(v) => AttemptNext::Succeeded(v),
        Err(e) => {
            if cancelled {
                AttemptNext::Cancelled
            } else if attempt < max {
                AttemptNext::Retry
            } else {
                AttemptNext::GaveUp(e)
            }
        },
    }
}

/// A copy attempt: at most three.
pub fn after_copy_attempt(attempt: usize, result: Result<String, String>, cancelled: bool) -> (r: AttemptNext<String>)
    ensures
        r == after_attempt_spec(attempt as nat, COPY_ATTEMPTS as nat, result, cancelled),
{
    after_attempt(attempt, COPY_ATTEMPTS, result, cancelled)
}

/// A verify attempt: at most two.
pub fn after_verify_attempt(attempt: usize, result: Result<Entry, String>, cancelled: bool) -> (r: AttemptNext<Entry>)
    ensures
        r == after_attempt_spec(attempt as nat, VERIFY_ATTEMPTS as nat, result, cancelled),
{
    after_attempt(attempt, VERIFY_ATTEMPTS, result, cancelled)
}

/// A file whose timestamps merely shifted is confirmed by hashing the source: it needs no
/// copy when that hash is the one the manifest recorded.
pub fn recheck_confirms(recorded: &str, source_hash: Option<&str>) -> (r: bool)
    ensures
        r == match source_hash {
            Some(h) => h@ == recorded@,
            None => false,
        },
{
    match source_hash {
        Some(h) => str_eq(h, recorded),
        None => false,
    }
}

/// What a copy worker does once its copy step has ended.
#[derive(Debug, PartialEq, Eq)]
pub enum CopyOutcome {
    /// Queue the file for verification with the source's hash.
    Verify(String),
    /// Tell the interface the file failed.
    Report(String),
    /// Say nothing: the card was cancelled.
    Quiet,
}

pub fn after_copy(result: Result<String, String>, cancelled: bool) -> (r: CopyOutcome)
    ensures
        match result {
            Ok(h) => r == CopyOutcome::Verify(h),
            Err(e) => if cancelled {
                r == CopyOutcome::Quiet
            } else {
                r == CopyOutcome::Report(e)
            },
        },
{
    match result {
        Ok(h) => CopyOutcome::Verify(h),
        Err(e) => {
            if cancelled {
                CopyOutcome::Quiet
            } else {
                CopyOutcome::Report(e)
            }
        },
    }
}

/// The error a copy step ends with once the card is cancelled.
pub fn cancelled_error() -> (r: String)
    ensures
        r@ == "cancelled"@,
{
    owned("cancelled")
}

/// A task taken from the queue is only started when its card is still running; starting
/// it marks the file as copying (or, for verification, verifying).
pub fn starting_state(cancelled: bool, verifying: bool) -> (r: Option<FileState>)
    ensures
        cancelled ==> r is None,
        !cancelled && verifying ==> r == Some(FileState::Verifying),
        !cancelled && !verifying ==> r == Some(FileState::Copying),
{
    if cancelled {
        None
    } else if verifying {
        Some(FileState::Verifying)
    } else {
        Some(FileState::Copying)
    }
}

/// An attempt that fails once its card is cancelled is neither retried nor reported.
pub proof fn law_cancelled_cards_fail_silently<T>(attempt: nat, max: nat, result: Result<T, String>)
    ensures
        !(after_attempt_spec(attempt, max, result, true) is GaveUp),
        !(after_attempt_spec(attempt, max, result, true) is Retry),
{
}

/// A failure is retried only while attempts are left, so a step runs at most `max` times;
/// the last failure is the one reported.
pub proof fn law_attempts_are_bounded<T>(attempt: nat, max: nat, e: String)
    requires
        attempt >= max,
    ensures
        after_attempt_spec::<T>(attempt, max, Err(e), false) == AttemptNext::<T>::GaveUp(e),
{
}

} // verus!
