//! The durable store: idempotency rows, newsletter issues and the delivery
//! queue. Every operation is one transaction; each refines the function of
//! the same name in `model`.
use vstd::prelude::*;
use vstd::string::StringExecFns;
use crate::http::{HttpResponse, ResponseView};
use crate::idempotency::IdempotencyKey;
use crate::model::{
    abort_spec, begin_spec, commit_spec, delete_spec, dequeue_spec, has_issue, has_row, has_task,
    has_unclaimed, is_first_unclaimed, is_stale, issue_index, issue_spec, lemma_abort_wf,
    lemma_begin_wf, lemma_commit_wf, lemma_delete_wf, lemma_dequeue_wf, lemma_first_unclaimed,
    lemma_reclaim_wf, lemma_release_wf, lemma_task_index, reclaim_row, reclaim_spec, release_spec,
    row_index, row_matches, scope_tasks, scope_wf, task_index, task_key, wf, ActionView, ClaimView,
    IdempotencyRowView, IssueView, ScopeView, StoreView, TaskRowView,
};

verus! {

/// Why a store operation failed. Each of these leaves no durable effect
/// behind, so the request may be retried.
#[derive(Debug, Clone, Copy, PartialEq, Eq, Structural)]
pub enum StoreError {
    /// No transaction identifier is left to hand out.
    TransactionIdsExhausted,
    /// The scope or claim no longer holds the row it was opened on.
    StaleHandle,
    /// An issue with the same identifier is already stored.
    DuplicateIssue,
    /// No issue has the identifier asked for.
    IssueNotFound,
}

/// Seconds after which a placeholder whose request has not finished is
/// taken to be abandoned, and a new attempt with the same key may take it
/// over.
pub const STALE_PLACEHOLDER_SECS: u64 = 60;

/// The content of a newsletter issue, keyed by its identifier.
#[derive(Debug, Clone)]
pub struct NewsletterIssue {
    pub issue_id: u128,
    pub title: String,
    pub text_content: String,
    pub html_content: String,
}

impl View for NewsletterIssue {
    type V = IssueView;

    open spec fn view(&self) -> IssueView {
        IssueView {
            issue_id: self.issue_id,
            title: self.title@,
            text_content: self.text_content@,
            html_content: self.html_content@,
        }
    }
}

impl NewsletterIssue {
    /// A copy of the issue.
    pub fn duplicate(&self) -> (r: NewsletterIssue)
        ensures
            r@ == self@,
    {
        NewsletterIssue {
            issue_id: self.issue_id,
            title: self.title.clone(),
            text_content: self.text_content.clone(),
            html_content: self.html_content.clone(),
        }
    }
}

struct IdempotencyRow {
    caller: u128,
    key: String,
    holder: u64,
    started_at: u64,
    response: Option<HttpResponse>,
}

impl View for IdempotencyRow {
    type V = IdempotencyRowView;

    closed spec fn view(&self) -> IdempotencyRowView {
        IdempotencyRowView {
            caller: self.caller,
            key: self.key@,
            holder: self.holder,
            started_at: self.started_at,
            response: match self.response {
                Some(r) => Some(r@),
                None => None,
            },
        }
    }
}

struct QueuedTask {
    issue_id: u128,
    email: String,
    claim: Option<u64>,
    claimed_at: u64,
}

impl View for QueuedTask {
    type V = TaskRowView;

    closed spec fn view(&self) -> TaskRowView {
        TaskRowView {
            issue_id: self.issue_id,
            email: self.email@,
            claim: self.claim,
            claimed_at: self.claimed_at,
        }
    }
}

/// Exclusive access to an open publish transaction, handed out by
/// `Store::try_processing`. It is consumed by `Store::save_response`, which
/// commits, or by `Store::abort`, which rolls back.
#[must_use]
pub struct Scope {
    txn: u64,
    caller: u128,
    key: String,
    issue: Option<NewsletterIssue>,
    deliveries: Vec<String>,
}

/// The texts of a sequence of strings.
pub open spec fn strings_view(v: Seq<String>) -> Seq<Seq<char>> {
    v.map_values(|s: String| s@)
}

impl View for Scope {
    type V = ScopeView;

    closed spec fn view(&self) -> ScopeView {
        ScopeView {
            txn: self.txn,
            caller: self.caller,
            key: self.key@,
            issue: match self.issue {
                Some(i) => Some(i@),
                None => None,
            },
            deliveries: strings_view(self.deliveries@),
        }
    }
}

impl Scope {
    pub open spec fn wf(&self) -> bool {
        scope_wf(self@)
    }

    /// Writes the issue in this transaction, in place of any written before.
    pub fn insert_issue(&mut self, issue: NewsletterIssue)
        requires
            old(self).wf(),
            old(self)@.deliveries.len() == 0,
        ensures
            final(self).wf(),
            final(self)@ == (ScopeView { issue: Some(issue@), ..old(self)@ }),
    {
        self.issue = Some(issue);
    }

    /// Queues a delivery of this transaction's issue to `email`, unless one
    /// to that address is already queued in it.
    pub fn enqueue_delivery(&mut self, email: String)
        requires
            old(self).wf(),
            old(self)@.issue is Some,
        ensures
            final(self).wf(),
            final(self)@ == (ScopeView {
                deliveries: if old(self)@.deliveries.contains(email@) {
                    old(self)@.deliveries
                } else {
                    old(self)@.deliveries.push(email@)
                },
                ..old(self)@
            }),
    {
        let mut i: usize = 0;
        while i < self.deliveries.len()
            invariant
                self.wf(),
                i <= self.deliveries.len(),
                forall|k: int| 0 <= k < i ==> (#[trigger] self.deliveries@[k])@ != email@,
            decreases self.deliveries.len() - i,
        {
            if self.deliveries[i] == email {
                proof {
                    assert(self@.deliveries[i as int] == email@);
                }
                return;
            }
            i = i + 1;
        }
        proof {
            assert forall|k: int| 0 <= k < self@.deliveries.len() implies self@.deliveries[k]
                != email@ by {
                assert(self.deliveries@[k]@ != email@);
            }
        }
        let ghost before = self@;
        self.deliveries.push(email);
        proof {
            assert(strings_view(self.deliveries@) =~= before.deliveries.push(email@));
        }
    }
}

/// A delivery task as callers see it: send issue `issue_id` to `email`.
#[derive(Debug, Clone, PartialEq, Eq)]
pub struct DeliveryTask {
    pub issue_id: u128,
    pub email: String,
}

/// A task row locked by a worker, handed out by `Store::dequeue_task`. It
/// is consumed by `Store::delete_task` or `Store::release_task`.
#[must_use]
pub struct Claim {
    txn: u64,
    issue_id: u128,
    email: String,
}

impl View for Claim {
    type V = ClaimView;

    closed spec fn view(&self) -> ClaimView {
        ClaimView { txn: self.txn, issue_id: self.issue_id, email: self.email@ }
    }
}

impl Claim {
    /// The issue to deliver.
    pub fn issue_id(&self) -> (r: u128)
        ensures
            r == self@.issue_id,
    {
        self.issue_id
    }

    /// The address to deliver to.
    pub fn email(&self) -> (r: &String)
        ensures
            r@ == self@.email,
    {
        &self.email
    }
}

/// What `Store::try_processing` tells the request to do next.
pub enum NextAction {
    /// No earlier attempt: do the work inside this scope, then save the response.
    StartProcessing(Scope),
    /// The request was already served: return this response again.
    ReturnSavedResponse(HttpResponse),
    /// Another attempt holds the key: wait for it to finish and ask again.
    WaitForInFlight,
}

/// What `Store::try_processing` returned, as the model sees it.
pub open spec fn action_view(r: Result<NextAction, StoreError>) -> Result<ActionView, StoreError> {
    match r {
        Ok(NextAction::StartProcessing(scope)) => Ok(ActionView::Start(scope@)),
        Ok(NextAction::ReturnSavedResponse(resp)) => Ok(ActionView::Replay(resp@)),
        Ok(NextAction::WaitForInFlight) => Ok(ActionView::Wait),
        Err(e) => Err(e),
    }
}

/// What `Store::dequeue_task` returned, as the model sees it.
pub open spec fn claim_result_view(r: Result<Option<Claim>, StoreError>) -> Result<
    Option<ClaimView>,
    StoreError,
> {
    match r {
        Ok(Some(c)) => Ok(Some(c@)),
        Ok(None) => Ok(None),
        Err(e) => Err(e),
    }
}

/// What `Store::save_response` returned, as the model sees it.
pub open spec fn response_result_view(r: Result<HttpResponse, StoreError>) -> Result<
    ResponseView,
    StoreError,
> {
    match r {
        Ok(resp) => Ok(resp@),
        Err(e) => Err(e),
    }
}

/// What `Store::get_issue` returned, as the model sees it.
pub open spec fn issue_result_view(r: Result<NewsletterIssue, StoreError>) -> Result<
    IssueView,
    StoreError,
> {
    match r {
        Ok(i) => Ok(i@),
        Err(e) => Err(e),
    }
}

/// The shared durable store.
pub struct Store {
    idempotency: Vec<IdempotencyRow>,
    issues: Vec<NewsletterIssue>,
    queue: Vec<QueuedTask>,
    next_txn: u64,
    retired: Ghost<Set<(u128, Seq<char>)>>,
}

impl View for Store {
    type V = StoreView;

    closed spec fn view(&self) -> StoreView {
        StoreView {
            idempotency: self.idempotency@.map_values(|r: IdempotencyRow| r@),
            issues: self.issues@.map_values(|i: NewsletterIssue| i@),
            queue: self.queue@.map_values(|t: QueuedTask| t@),
            next_txn: self.next_txn,
            retired: self.retired@,
        }
    }
}

impl Store {
    pub open spec fn wf(&self) -> bool {
        wf(self@)
    }

    /// An empty store.
    pub fn new() -> (s: Store)
        ensures
            s.wf(),
            s@ == (StoreView {
                idempotency: seq![],
                issues: seq![],
                queue: seq![],
                next_txn: 0,
                retired: Set::empty(),
            }),
    {
        let s = Store {
            idempotency: Vec::new(),
            issues: Vec::new(),
            queue: Vec::new(),
            next_txn: 0,
            retired: Ghost(Set::empty()),
        };
        assert(s@.idempotency =~= seq![]);
        assert(s@.issues =~= seq![]);
        assert(s@.queue =~= seq![]);
        s
    }

    fn find_row(&self, caller: u128, key: &String) -> (r: Option<usize>)
        requires
            self.wf(),
        ensures
            match r {
                Some(i) => has_row(self@.idempotency, caller, key@) && i == row_index(
                    self@.idempotency,
                    caller,
                    key@,
                ),
                None => !has_row(self@.idempotency, caller, key@),
            },
    {
        let mut i: usize = 0;
        while i < self.idempotency.len()
            invariant
                self.wf(),
                i <= self.idempotency.len(),
                forall|k: int|
                    0 <= k < i ==> !row_matches(#[trigger] self@.idempotency[k], caller, key@),
            decreases self.idempotency.len() - i,
        {
            if self.idempotency[i].caller == caller && self.idempotency[i].key == *key {
                proof {
                    let rows = self@.idempotency;
                    assert(row_matches(rows[i as int], caller, key@));
                    let j = row_index(rows, caller, key@);
                    if j < i {
                        assert(!row_matches(rows[j], rows[i as int].caller, rows[i as int].key));
                    } else if j > i {
                        assert(!row_matches(rows[i as int], rows[j].caller, rows[j].key));
                    }
                }
                return Some(i);
            }
            i = i + 1;
        }
        None
    }

    fn find_issue(&self, issue_id: u128) -> (r: Option<usize>)
        requires
            self.wf(),
        ensures
            match r {
                Some(i) => has_issue(self@.issues, issue_id) && i == issue_index(self@.issues, issue_id),
                None => !has_issue(self@.issues, issue_id),
            },
    {
        let mut i: usize = 0;
        while i < self.issues.len()
            invariant
                self.wf(),
                i <= self.issues.len(),
                forall|k: int| 0 <= k < i ==> (#[trigger] self@.issues[k]).issue_id != issue_id,
            decreases self.issues.len() - i,
        {
            if self.issues[i].issue_id == issue_id {
                proof {
                    let issues = self@.issues;
                    assert(issues[i as int].issue_id == issue_id);
                    let j = issue_index(issues, issue_id);
                    if j < i {
                        assert(issues[j].issue_id != issues[i as int].issue_id);
                    } else if j > i {
                        assert(issues[i as int].issue_id != issues[j].issue_id);
                    }
                }
                return Some(i);
            }
            i = i + 1;
        }
        None
    }

    fn find_task(&self, issue_id: u128, email: &String) -> (r: Option<usize>)
        requires
            self.wf(),
        ensures
            match r {
                Some(i) => has_task(self@.queue, (issue_id, email@)) && i == task_index(
                    self@.queue,
                    (issue_id, email@),
                ),
                None => !has_task(self@.queue, (issue_id, email@)),
            },
    {
        let mut i: usize = 0;
        while i < self.queue.len()
            invariant
                self.wf(),
                i <= self.queue.len(),
                forall|k: int| 0 <= k < i ==> task_key(#[trigger] self@.queue[k]) != (issue_id, email@),
            decreases self.queue.len() - i,
        {
            if self.queue[i].issue_id == issue_id && self.queue[i].email == *email {
                proof {
                    lemma_task_index(self@.queue, (issue_id, email@), i as int);
                }
                return Some(i);
            }
            i = i + 1;
        }
        None
    }

    /// Starts the idempotency protocol for `key` on behalf of `caller` at
    /// time `now`, in seconds: opens a transaction that holds a fresh
    /// placeholder (or takes over an abandoned one), or replays the saved
    /// response, or asks the caller to wait for an attempt in flight.
    pub fn try_processing(&mut self, key: &IdempotencyKey, caller: u128, now: u64) -> (r: Result<
        NextAction,
        StoreError,
    >)
        requires
            old(self).wf(),
        ensures
            final(self).wf(),
            (final(self)@, action_view(r)) == begin_spec(old(self)@, caller, key@, now),
            r matches Ok(NextAction::StartProcessing(scope)) ==> scope.wf(),
    {
        proof {
            lemma_begin_wf(self@, caller, key@, now);
        }
        let k = String::from_str(key.as_ref());
        match self.find_row(caller, &k) {
            Some(i) => {
                if let Some(resp) = &self.idempotency[i].response {
                    return Ok(NextAction::ReturnSavedResponse(resp.duplicate()));
                }
                let started_at = self.idempotency[i].started_at;
                if !(started_at <= now && now - started_at >= STALE_PLACEHOLDER_SECS) {
                    return Ok(NextAction::WaitForInFlight);
                }
                if self.next_txn == u64::MAX {
                    return Err(StoreError::TransactionIdsExhausted);
                }
                let txn = self.next_txn;
                let ghost before = self@;
                let row = IdempotencyRow { caller, key: k.clone(), holder: txn, started_at: now, response: None };
                self.idempotency.set(i, row);
                self.next_txn = txn + 1;
                let scope = Scope { txn, caller, key: k, issue: None, deliveries: Vec::new() };
                proof {
                    assert(self@.idempotency =~= before.idempotency.update(
                        i as int,
                        IdempotencyRowView { holder: txn, started_at: now, ..before.idempotency[i as int] },
                    ));
                    assert(strings_view(scope.deliveries@) =~= seq![]);
                }
                Ok(NextAction::StartProcessing(scope))
            },
            None => {
                if self.next_txn == u64::MAX {
                    return Err(StoreError::TransactionIdsExhausted);
                }
                let txn = self.next_txn;
                let scope_key = k.clone();
                let ghost before = self@;
                let row = IdempotencyRow { caller, key: k, holder: txn, started_at: now, response: None };
                self.idempotency.push(row);
                self.next_txn = txn + 1;
                let scope = Scope {
                    txn,
                    caller,
                    key: scope_key,
                    issue: None,
                    deliveries: Vec::new(),
                };
                proof {
                    assert(self@.idempotency =~= before.idempotency.push(row@));
                    assert(strings_view(scope.deliveries@) =~= seq![]);
                }
                Ok(NextAction::StartProcessing(scope))
            },
        }
    }

    /// Saves `response` for the scope's key and commits the scope's writes
    /// with it, as one unit. If the commit cannot be made, the placeholder
    /// is released or left as it was, as `commit_spec` says.
    pub fn save_response(&mut self, scope: Scope, response: HttpResponse) -> (r: Result<
        HttpResponse,
        StoreError,
    >)
        requires
            old(self).wf(),
            scope.wf(),
        ensures
            final(self).wf(),
            (final(self)@, response_result_view(r)) == commit_spec(
                old(self)@,
                scope@,
                response@,
            ),
    {
        proof {
            lemma_commit_wf(self@, scope@, response@);
        }
        let ghost sv = scope@;
        let ghost before = self@;
        let Scope { txn, caller, key, issue, deliveries } = scope;
        let i = match self.find_row(caller, &key) {
            Some(i) => i,
            None => {
                return Err(StoreError::StaleHandle);
            },
        };
        if self.idempotency[i].holder != txn || self.idempotency[i].response.is_some() {
            return Err(StoreError::StaleHandle);
        }
        match issue {
            Some(iss) => {
                if self.find_issue(iss.issue_id).is_some() {
                    self.idempotency.remove(i);
                    proof {
                        assert(self@.idempotency =~= before.idempotency.remove(i as int));
                    }
                    return Err(StoreError::DuplicateIssue);
                }
                let ghost tasks = scope_tasks(sv);
                let mut j: usize = 0;
                while j < deliveries.len()
                    invariant
                        j <= deliveries.len(),
                        tasks.len() == deliveries.len(),
                        forall|k: int|
                            0 <= k < tasks.len() ==> #[trigger] tasks[k] == (TaskRowView {
                                issue_id: iss.issue_id,
                                email: deliveries@[k]@,
                                claim: None,
                                claimed_at: 0,
                            }),
                        self@ == (StoreView { queue: before.queue + tasks.subrange(0, j as int), ..before }),
                    decreases deliveries.len() - j,
                {
                    let ghost prev = self@;
                    let t = QueuedTask {
                        issue_id: iss.issue_id,
                        email: deliveries[j].clone(),
                        claim: None,
                        claimed_at: 0,
                    };
                    self.queue.push(t);
                    j = j + 1;
                    proof {
                        assert(self@.queue =~= prev.queue.push(t@));
                        assert(before.queue + tasks.subrange(0, j as int) =~= (before.queue
                            + tasks.subrange(0, j - 1)).push(tasks[j - 1]));
                    }
                }
                proof {
                    assert(tasks.subrange(0, j as int) =~= tasks);
                }
                let ghost mid = self@;
                self.issues.push(iss);
                proof {
                    assert(self@.issues =~= mid.issues.push(sv.issue->0));
                }
            },
            None => {
                proof {
                    assert(scope_tasks(sv) =~= seq![]);
                    assert(before.queue + scope_tasks(sv) =~= before.queue);
                }
            },
        }
        let ghost mid = self@;
        let row = IdempotencyRow {
            caller,
            key,
            holder: txn,
            started_at: self.idempotency[i].started_at,
            response: Some(response.duplicate()),
        };
        self.idempotency.set(i, row);
        proof {
            assert(self@.idempotency =~= mid.idempotency.update(
                i as int,
                IdempotencyRowView { response: Some(response@), ..before.idempotency[i as int] },
            ));
        }
        Ok(response)
    }

    /// Rolls the scope's transaction back: its placeholder goes, so a later
    /// attempt with the same key starts afresh.
    pub fn abort(&mut self, scope: Scope)
        requires
            old(self).wf(),
        ensures
            final(self).wf(),
            final(self)@ == abort_spec(old(self)@, scope@),
    {
        proof {
            lemma_abort_wf(self@, scope@);
        }
        let ghost before = self@;
        if let Some(i) = self.find_row(scope.caller, &scope.key) {
            if self.idempotency[i].holder == scope.txn && self.idempotency[i].response.is_none() {
                self.idempotency.remove(i);
                proof {
                    assert(self@.idempotency =~= before.idempotency.remove(i as int));
                }
            }
        }
    }

    /// At time `now`, in seconds, locks one pending task that no other
    /// worker holds and hands it out; `None` when every task is taken or the
    /// queue is empty.
    pub fn dequeue_task(&mut self, now: u64) -> (r: Result<Option<Claim>, StoreError>)
        requires
            old(self).wf(),
        ensures
            final(self).wf(),
            (final(self)@, claim_result_view(r)) == dequeue_spec(old(self)@, now),
    {
        proof {
            lemma_dequeue_wf(self@, now);
        }
        let ghost before = self@;
        let mut i: usize = 0;
        while i < self.queue.len()
            invariant
                self.wf(),
                self@ == before,
                before == old(self)@,
                i <= self.queue.len(),
                forall|k: int| 0 <= k < i ==> (#[trigger] self@.queue[k]).claim is Some,
            decreases self.queue.len() - i,
        {
            if self.queue[i].claim.is_none() {
                proof {
                    assert(is_first_unclaimed(self@.queue, i as int));
                    assert(self@.queue[i as int].claim is None);
                    assert(has_unclaimed(self@.queue));
                    lemma_first_unclaimed(self@.queue);
                }
                if self.next_txn == u64::MAX {
                    return Err(StoreError::TransactionIdsExhausted);
                }
                let txn = self.next_txn;
                let issue_id = self.queue[i].issue_id;
                let email = self.queue[i].email.clone();
                let row = QueuedTask {
                    issue_id,
                    email: email.clone(),
                    claim: Some(txn),
                    claimed_at: now,
                };
                self.queue.set(i, row);
                self.next_txn = txn + 1;
                proof {
                    assert(self@.queue =~= before.queue.update(
                        i as int,
                        TaskRowView { claim: Some(txn), claimed_at: now, ..before.queue[i as int] },
                    ));
                }
                return Ok(Some(Claim { txn, issue_id, email }));
            }
            i = i + 1;
        }
        Ok(None)
    }

    /// Deletes the claimed task and commits: the task is done for good.
    pub fn delete_task(&mut self, claim: Claim) -> (r: Result<(), StoreError>)
        requires
            old(self).wf(),
        ensures
            final(self).wf(),
            (final(self)@, r) == delete_spec(old(self)@, claim@),
    {
        proof {
            lemma_delete_wf(self@, claim@);
        }
        let ghost before = self@;
        match self.find_task(claim.issue_id, &claim.email) {
            Some(i) => {
                if self.queue[i].claim == Some(claim.txn) {
                    self.queue.remove(i);
                    self.retired = Ghost(self.retired@.insert((claim.issue_id, claim.email@)));
                    proof {
                        assert(self@.queue =~= before.queue.remove(i as int));
                    }
                    Ok(())
                } else {
                    Err(StoreError::StaleHandle)
                }
            },
            None => Err(StoreError::StaleHandle),
        }
    }

    /// Rolls the worker's transaction back: the task is pending again and
    /// another worker may take it.
    pub fn release_task(&mut self, claim: Claim)
        requires
            old(self).wf(),
        ensures
            final(self).wf(),
            final(self)@ == release_spec(old(self)@, claim@),
    {
        proof {
            lemma_release_wf(self@, claim@);
        }
        let ghost before = self@;
        if let Some(i) = self.find_task(claim.issue_id, &claim.email) {
            if self.queue[i].claim == Some(claim.txn) {
                let row = QueuedTask {
                    issue_id: claim.issue_id,
                    email: claim.email,
                    claim: None,
                    claimed_at: self.queue[i].claimed_at,
                };
                self.queue.set(i, row);
                proof {
                    assert(self@.queue =~= before.queue.update(
                        i as int,
                        TaskRowView { claim: None, ..before.queue[i as int] },
                    ));
                }
            }
        }
    }

    /// At time `now`, releases every claim held for `timeout` seconds or
    /// more, so that a task whose worker died is taken up again.
    pub fn reclaim_stale_claims(&mut self, now: u64, timeout: u64)
        requires
            old(self).wf(),
        ensures
            final(self).wf(),
            final(self)@ == reclaim_spec(old(self)@, now, timeout),
    {
        proof {
            lemma_reclaim_wf(self@, now, timeout);
        }
        let ghost before = self@;
        let mut i: usize = 0;
        while i < self.queue.len()
            invariant
                i <= self.queue.len(),
                self.queue@.len() == before.queue.len(),
                self@ == (StoreView { queue: self@.queue, ..before }),
                forall|k: int|
                    0 <= k < i ==> #[trigger] self@.queue[k] == reclaim_row(before.queue[k], now, timeout),
                forall|k: int| i <= k < self.queue@.len() ==> #[trigger] self@.queue[k] == before.queue[k],
            decreases self.queue.len() - i,
        {
            let stale = match self.queue[i].claim {
                Some(_) => self.queue[i].claimed_at <= now && now - self.queue[i].claimed_at >= timeout,
                None => false,
            };
            proof {
                assert(self@.queue[i as int] == before.queue[i as int]);
                assert(stale == is_stale(before.queue[i as int], now, timeout));
            }
            if stale {
                let ghost prev = self@;
                let row = QueuedTask {
                    issue_id: self.queue[i].issue_id,
                    email: self.queue[i].email.clone(),
                    claim: None,
                    claimed_at: self.queue[i].claimed_at,
                };
                self.queue.set(i, row);
                proof {
                    let fresh = reclaim_row(before.queue[i as int], now, timeout);
                    assert(self@.queue =~= prev.queue.update(i as int, fresh));
                }
            }
            i = i + 1;
        }
        proof {
            assert(self@.queue =~= reclaim_spec(before, now, timeout).queue);
        }
    }

    /// The content of issue `issue_id`.
    pub fn get_issue(&self, issue_id: u128) -> (r: Result<NewsletterIssue, StoreError>)
        requires
            self.wf(),
        ensures
            issue_result_view(r) == issue_spec(self@, issue_id),
    {
        match self.find_issue(issue_id) {
            Some(i) => Ok(self.issues[i].duplicate()),
            None => Err(StoreError::IssueNotFound),
        }
    }

    /// Number of pending delivery tasks, locked or not.
    pub fn queue_len(&self) -> (n: usize)
        ensures
            n == self@.queue.len(),
    {
        self.queue.len()
    }

    /// Number of stored issues.
    pub fn issue_count(&self) -> (n: usize)
        ensures
            n == self@.issues.len(),
    {
        self.issues.len()
    }

    /// The pending delivery tasks, in queue order.
    pub fn queued_tasks(&self) -> (r: Vec<DeliveryTask>)
        ensures
            r@.len() == self@.queue.len(),
            forall|i: int|
                0 <= i < r@.len() ==> (#[trigger] r@[i]).issue_id == self@.queue[i].issue_id
                    && r@[i].email@ == self@.queue[i].email,
    {
        let mut r: Vec<DeliveryTask> = Vec::new();
        let mut i: usize = 0;
        while i < self.queue.len()
            invariant
                i <= self.queue.len(),
                r@.len() == i,
                forall|k: int|
                    0 <= k < i ==> (#[trigger] r@[k]).issue_id == self@.queue[k].issue_id
                        && r@[k].email@ == self@.queue[k].email,
            decreases self.queue.len() - i,
        {
            r.push(DeliveryTask { issue_id: self.queue[i].issue_id, email: self.queue[i].email.clone() });
            i = i + 1;
        }
        r
    }
}

} // verus!
