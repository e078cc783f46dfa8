//! The delivery worker's decisions. One iteration takes a task from the
//! queue, and either resolves it at once or hands it out to be sent; the
//! caller sends, reports back, and sleeps as `next_poll_delay` says.
use vstd::prelude::*;
use crate::model::{
    delete_spec, dequeue_spec, issue_spec, reclaim_spec, release_spec, ClaimView, IssueView,
    StoreView,
};
use crate::store::{Claim, NewsletterIssue, Store, StoreError};
use crate::subscriber_email::{email_is_valid, SubscriberEmail};

verus! {

/// How one iteration of the worker ended.
#[derive(Debug, Clone, Copy, PartialEq, Eq, Structural)]
pub enum ExecutionOutcome {
    TaskCompleted,
    EmptyQueue,
}

/// A locked task whose issue is to be sent to `email`.
pub struct PendingDelivery {
    claim: Claim,
    pub email: String,
    pub issue: NewsletterIssue,
}

pub struct PendingView {
    pub claim: ClaimView,
    pub email: Seq<char>,
    pub issue: IssueView,
}

impl View for PendingDelivery {
    type V = PendingView;

    closed spec fn view(&self) -> PendingView {
        PendingView { claim: self.claim@, email: self.email@, issue: self.issue@ }
    }
}

/// The first half of an iteration: done already, or a send to make. A
/// skipped task counts as completed.
pub enum TaskStep {
    /// Nothing to send: the queue was empty, or the task was resolved.
    Finished(ExecutionOutcome),
    /// The task's stored address is malformed: it was deleted unsent, and
    /// the address is handed back to be reported.
    Skipped(String),
    /// Send the issue, then call `complete_delivery`.
    Deliver(PendingDelivery),
}

pub enum TaskStepView {
    Finished(ExecutionOutcome),
    Skipped(Seq<char>),
    Deliver(PendingView),
}

/// What `try_execute_task` returned, as the model sees it.
pub open spec fn step_view(r: Result<TaskStep, StoreError>) -> Result<TaskStepView, StoreError> {
    match r {
        Ok(TaskStep::Finished(o)) => Ok(TaskStepView::Finished(o)),
        Ok(TaskStep::Skipped(email)) => Ok(TaskStepView::Skipped(email@)),
        Ok(TaskStep::Deliver(p)) => Ok(TaskStepView::Deliver(p@)),
        Err(e) => Err(e),
    }
}

/// Seconds after which a claim is taken to belong to a worker that died.
pub const STALE_CLAIM_SECS: u64 = 300;

/// The first half of an iteration on store `s` at time `now`. Stale claims
/// are released first. A task whose stored address is malformed is deleted
/// without a send, for it will never become valid.
pub open spec fn execute_spec(s: StoreView, now: u64) -> (StoreView, Result<TaskStepView, StoreError>) {
    let (s1, d) = dequeue_spec(reclaim_spec(s, now, STALE_CLAIM_SECS), now);
    match d {
        Err(e) => (s1, Err(e)),
        Ok(None) => (s1, Ok(TaskStepView::Finished(ExecutionOutcome::EmptyQueue))),
        Ok(Some(c)) => if !email_is_valid(c.email) {
            let (s2, r) = delete_spec(s1, c);
            match r {
                Ok(()) => (s2, Ok(TaskStepView::Skipped(c.email))),
                Err(e) => (s2, Err(e)),
            }
        } else {
            match issue_spec(s1, c.issue_id) {
                Ok(issue) => (
                    s1,
                    Ok(TaskStepView::Deliver(PendingView { claim: c, email: c.email, issue })),
                ),
                Err(e) => (release_spec(s1, c), Err(e)),
            }
        },
    }
}

/// At time `now`, in seconds, takes one task from the queue, after taking
/// back the tasks of workers that died. A task with a malformed address is
/// deleted at once and its address handed back; otherwise the task stays
/// locked and is handed out with its issue's content.
pub fn try_execute_task(store: &mut Store, now: u64) -> (r: Result<TaskStep, StoreError>)
    requires
        old(store).wf(),
    ensures
        final(store).wf(),
        (final(store)@, step_view(r)) == execute_spec(old(store)@, now),
{
    store.reclaim_stale_claims(now, STALE_CLAIM_SECS);
    let claim = match store.dequeue_task(now) {
        Err(e) => {
            return Err(e);
        },
        Ok(None) => {
            return Ok(TaskStep::Finished(ExecutionOutcome::EmptyQueue));
        },
        Ok(Some(claim)) => claim,
    };
    let email = match SubscriberEmail::parse(claim.email().clone()) {
        Ok(email) => email.into_string(),
        Err(_) => {
            let address = claim.email().clone();
            return match store.delete_task(claim) {
                Ok(()) => Ok(TaskStep::Skipped(address)),
                Err(e) => Err(e),
            };
        },
    };
    match store.get_issue(claim.issue_id()) {
        Ok(issue) => Ok(TaskStep::Deliver(PendingDelivery { claim, email, issue })),
        Err(e) => {
            store.release_task(claim);
            Err(e)
        },
    }
}

/// The second half of an iteration: the task is deleted and committed
/// whatever became of the send, so a failed send is not tried again.
pub fn complete_delivery(store: &mut Store, pending: PendingDelivery) -> (r: Result<
    ExecutionOutcome,
    StoreError,
>)
    requires
        old(store).wf(),
    ensures
        final(store).wf(),
        final(store)@ == delete_spec(old(store)@, pending@.claim).0,
        r == match delete_spec(old(store)@, pending@.claim).1 {
            Ok(()) => Ok(ExecutionOutcome::TaskCompleted),
            Err(e) => Err::<ExecutionOutcome, StoreError>(e),
        },
{
    let PendingDelivery { claim, email: _, issue: _ } = pending;
    match store.delete_task(claim) {
        Ok(()) => Ok(ExecutionOutcome::TaskCompleted),
        Err(e) => Err(e),
    }
}

/// Seconds to wait after an empty queue.
pub const EMPTY_QUEUE_DELAY_SECS: u64 = 10;

/// Seconds to wait after a failed iteration.
pub const ERROR_DELAY_SECS: u64 = 1;

/// How long the worker waits before its next iteration: a long pause on an
/// empty queue, a short one after an error, none after a task.
pub fn next_poll_delay(outcome: &Result<ExecutionOutcome, StoreError>) -> (secs: u64)
    ensures
        secs == match outcome {
            Ok(ExecutionOutcome::EmptyQueue) => EMPTY_QUEUE_DELAY_SECS,
            Ok(ExecutionOutcome::TaskCompleted) => 0,
            Err(_) => ERROR_DELAY_SECS,
        },
{
    match outcome {
        Ok(ExecutionOutcome::EmptyQueue) => EMPTY_QUEUE_DELAY_SECS,
        Ok(ExecutionOutcome::TaskCompleted) => 0,
        Err(_) => ERROR_DELAY_SECS,
    }
}

} // verus!
