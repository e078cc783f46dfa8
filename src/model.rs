//! The durable store as mathematics: its state, its well-formedness, and
//! each operation as a function from a state to the next state and a result.
use vstd::prelude::*;
use crate::http::ResponseView;
use crate::store::{StoreError, STALE_PLACEHOLDER_SECS};

verus! {

/// A newsletter issue: identifier, title, and the two bodies.
pub struct IssueView {
    pub issue_id: u128,
    pub title: Seq<char>,
    pub text_content: Seq<char>,
    pub html_content: Seq<char>,
}

/// One idempotency row. `response` is `None` while the request that holds
/// the placeholder (transaction `holder`, started at `started_at` seconds)
/// is still in flight.
pub struct IdempotencyRowView {
    pub caller: u128,
    pub key: Seq<char>,
    pub holder: u64,
    pub started_at: u64,
    pub response: Option<ResponseView>,
}

/// One pending delivery: send issue `issue_id` to `email`. `claim` names the
/// worker transaction that holds the row, if any, and `claimed_at` when it
/// took the row, in seconds.
pub struct TaskRowView {
    pub issue_id: u128,
    pub email: Seq<char>,
    pub claim: Option<u64>,
    pub claimed_at: u64,
}

/// The whole store. `retired` holds, as ghost state, every task that was
/// ever deleted.
pub struct StoreView {
    pub idempotency: Seq<IdempotencyRowView>,
    pub issues: Seq<IssueView>,
    pub queue: Seq<TaskRowView>,
    pub next_txn: u64,
    pub retired: Set<(u128, Seq<char>)>,
}

/// An open publish transaction: the placeholder it holds, and the writes
/// that it will commit together with the saved response.
pub struct ScopeView {
    pub txn: u64,
    pub caller: u128,
    pub key: Seq<char>,
    pub issue: Option<IssueView>,
    pub deliveries: Seq<Seq<char>>,
}

/// A task row locked by a worker transaction.
pub struct ClaimView {
    pub txn: u64,
    pub issue_id: u128,
    pub email: Seq<char>,
}

/// What the start of the idempotency protocol tells the caller to do.
pub enum ActionView {
    Start(ScopeView),
    Replay(ResponseView),
    Wait,
}

/// The row belongs to `caller` and `key`.
pub open spec fn row_matches(row: IdempotencyRowView, caller: u128, key: Seq<char>) -> bool {
    row.caller == caller && row.key == key
}

/// Some row belongs to `caller` and `key`.
pub open spec fn has_row(rows: Seq<IdempotencyRowView>, caller: u128, key: Seq<char>) -> bool {
    exists|i: int| 0 <= i < rows.len() && #[trigger] row_matches(rows[i], caller, key)
}

/// The index of the row for `caller` and `key`, when there is one.
pub open spec fn row_index(rows: Seq<IdempotencyRowView>, caller: u128, key: Seq<char>) -> int {
    choose|i: int| 0 <= i < rows.len() && #[trigger] row_matches(rows[i], caller, key)
}

/// An issue with identifier `id` is stored.
pub open spec fn has_issue(issues: Seq<IssueView>, id: u128) -> bool {
    exists|i: int| 0 <= i < issues.len() && #[trigger] issues[i].issue_id == id
}

/// The index of the issue with identifier `id`, when there is one.
pub open spec fn issue_index(issues: Seq<IssueView>, id: u128) -> int {
    choose|i: int| 0 <= i < issues.len() && #[trigger] issues[i].issue_id == id
}

/// A task row is identified by its issue and its address.
pub open spec fn task_key(t: TaskRowView) -> (u128, Seq<char>) {
    (t.issue_id, t.email)
}

/// A queued row has the identity `key`.
pub open spec fn has_task(queue: Seq<TaskRowView>, key: (u128, Seq<char>)) -> bool {
    exists|i: int| 0 <= i < queue.len() && #[trigger] task_key(queue[i]) == key
}

/// The index of the row with identity `key`, when there is one.
pub open spec fn task_index(queue: Seq<TaskRowView>, key: (u128, Seq<char>)) -> int {
    choose|i: int| 0 <= i < queue.len() && #[trigger] task_key(queue[i]) == key
}

/// Index `i` is the first row of the queue that no worker holds.
pub open spec fn is_first_unclaimed(queue: Seq<TaskRowView>, i: int) -> bool {
    &&& 0 <= i < queue.len()
    &&& queue[i].claim is None
    &&& forall|j: int| 0 <= j < i ==> (#[trigger] queue[j]).claim is Some
}

/// Some queued row is held by no worker.
pub open spec fn has_unclaimed(queue: Seq<TaskRowView>) -> bool {
    exists|i: int| 0 <= i < queue.len() && (#[trigger] queue[i]).claim is None
}

/// The index of the first row that no worker holds, when there is one.
pub open spec fn first_unclaimed(queue: Seq<TaskRowView>) -> int {
    choose|i: int| #[trigger] is_first_unclaimed(queue, i)
}

/// The identity of the row a claim holds.
pub open spec fn claim_key(c: ClaimView) -> (u128, Seq<char>) {
    (c.issue_id, c.email)
}

/// The store's invariant: keys are unique in each table, every queued task
/// refers to a stored issue, and no deleted task is queued again.
pub open spec fn wf(s: StoreView) -> bool {
    &&& forall|i: int, j: int|
        0 <= i < j < s.idempotency.len() ==> !row_matches(
            #[trigger] s.idempotency[i],
            s.idempotency[j].caller,
            #[trigger] s.idempotency[j].key,
        )
    &&& forall|i: int, j: int|
        0 <= i < j < s.issues.len() ==> (#[trigger] s.issues[i]).issue_id != (
        #[trigger] s.issues[j]).issue_id
    &&& forall|i: int, j: int|
        0 <= i < j < s.queue.len() ==> task_key(#[trigger] s.queue[i]) != task_key(
            #[trigger] s.queue[j],
        )
    &&& forall|i: int| 0 <= i < s.queue.len() ==> has_issue(s.issues, (#[trigger] s.queue[i]).issue_id)
    &&& forall|i: int| 0 <= i < s.queue.len() ==> !s.retired.contains(task_key(#[trigger] s.queue[i]))
    &&& forall|k: (u128, Seq<char>)| #[trigger] s.retired.contains(k) ==> has_issue(s.issues, k.0)
}

/// A placeholder held for `STALE_PLACEHOLDER_SECS` or more at time `now`:
/// the request that took it is taken to have been abandoned.
pub open spec fn placeholder_is_stale(row: IdempotencyRowView, now: u64) -> bool {
    row.response is None && row.started_at <= now && now - row.started_at >= STALE_PLACEHOLDER_SECS
}

/// Start of the idempotency protocol for `(caller, key)` at time `now`. An
/// abandoned placeholder is taken over by the new attempt.
pub open spec fn begin_spec(s: StoreView, caller: u128, key: Seq<char>, now: u64) -> (
    StoreView,
    Result<ActionView, StoreError>,
) {
    let scope = ScopeView { txn: s.next_txn, caller, key, issue: None, deliveries: seq![] };
    if has_row(s.idempotency, caller, key) {
        let i = row_index(s.idempotency, caller, key);
        let row = s.idempotency[i];
        match row.response {
            Some(r) => (s, Ok(ActionView::Replay(r))),
            None => if !placeholder_is_stale(row, now) {
                (s, Ok(ActionView::Wait))
            } else if s.next_txn == u64::MAX {
                (s, Err(StoreError::TransactionIdsExhausted))
            } else {
                (
                    StoreView {
                        idempotency: s.idempotency.update(
                            i,
                            IdempotencyRowView { holder: s.next_txn, started_at: now, ..row },
                        ),
                        next_txn: (s.next_txn + 1) as u64,
                        ..s
                    },
                    Ok(ActionView::Start(scope)),
                )
            },
        }
    } else if s.next_txn == u64::MAX {
        (s, Err(StoreError::TransactionIdsExhausted))
    } else {
        let row = IdempotencyRowView {
            caller,
            key,
            holder: s.next_txn,
            started_at: now,
            response: None,
        };
        (
            StoreView {
                idempotency: s.idempotency.push(row),
                next_txn: (s.next_txn + 1) as u64,
                ..s
            },
            Ok(ActionView::Start(scope)),
        )
    }
}

/// The scope still holds its placeholder in `s`.
pub open spec fn holds_placeholder(s: StoreView, scope: ScopeView) -> bool {
    &&& has_row(s.idempotency, scope.caller, scope.key)
    &&& s.idempotency[row_index(s.idempotency, scope.caller, scope.key)].holder == scope.txn
    &&& s.idempotency[row_index(s.idempotency, scope.caller, scope.key)].response is None
}

/// The delivery rows that a scope's commit adds to the queue.
pub open spec fn scope_tasks(scope: ScopeView) -> Seq<TaskRowView> {
    match scope.issue {
        Some(issue) => Seq::new(
            scope.deliveries.len(),
            |k: int|
                TaskRowView {
                    issue_id: issue.issue_id,
                    email: scope.deliveries[k],
                    claim: None,
                    claimed_at: 0,
                },
        ),
        None => seq![],
    }
}

/// Commit of a publish transaction: the response is saved into the
/// placeholder, and the issue and its deliveries are written, all at once.
pub open spec fn commit_spec(s: StoreView, scope: ScopeView, response: ResponseView) -> (
    StoreView,
    Result<ResponseView, StoreError>,
) {
    if !holds_placeholder(s, scope) {
        (s, Err(StoreError::StaleHandle))
    } else {
        let i = row_index(s.idempotency, scope.caller, scope.key);
        match scope.issue {
            Some(issue) if has_issue(s.issues, issue.issue_id) => (
                StoreView { idempotency: s.idempotency.remove(i), ..s },
                Err(StoreError::DuplicateIssue),
            ),
            _ => {
                let row = IdempotencyRowView { response: Some(response), ..s.idempotency[i] };
                let issues = match scope.issue {
                    Some(issue) => s.issues.push(issue),
                    None => s.issues,
                };
                (
                    StoreView {
                        idempotency: s.idempotency.update(i, row),
                        issues,
                        queue: s.queue + scope_tasks(scope),
                        ..s
                    },
                    Ok(response),
                )
            },
        }
    }
}

/// Rollback of a publish transaction: its placeholder goes, nothing else changes.
pub open spec fn abort_spec(s: StoreView, scope: ScopeView) -> StoreView {
    if holds_placeholder(s, scope) {
        StoreView {
            idempotency: s.idempotency.remove(row_index(s.idempotency, scope.caller, scope.key)),
            ..s
        }
    } else {
        s
    }
}

/// At time `now`, lock one row that no other worker holds, or report that
/// there is none.
pub open spec fn dequeue_spec(s: StoreView, now: u64) -> (
    StoreView,
    Result<Option<ClaimView>, StoreError>,
) {
    if !has_unclaimed(s.queue) {
        (s, Ok(None))
    } else if s.next_txn == u64::MAX {
        (s, Err(StoreError::TransactionIdsExhausted))
    } else {
        let i = first_unclaimed(s.queue);
        let t = s.queue[i];
        (
            StoreView {
                queue: s.queue.update(i, TaskRowView { claim: Some(s.next_txn), claimed_at: now, ..t }),
                next_txn: (s.next_txn + 1) as u64,
                ..s
            },
            Ok(Some(ClaimView { txn: s.next_txn, issue_id: t.issue_id, email: t.email })),
        )
    }
}

/// The claim still holds its row in `s`.
pub open spec fn holds_task(s: StoreView, c: ClaimView) -> bool {
    has_task(s.queue, claim_key(c)) && s.queue[task_index(s.queue, claim_key(c))].claim == Some(
        c.txn,
    )
}

/// Delete a claimed task and commit: the task is done for good.
pub open spec fn delete_spec(s: StoreView, c: ClaimView) -> (StoreView, Result<(), StoreError>) {
    if holds_task(s, c) {
        (
            StoreView {
                queue: s.queue.remove(task_index(s.queue, claim_key(c))),
                retired: s.retired.insert(claim_key(c)),
                ..s
            },
            Ok(()),
        )
    } else {
        (s, Err(StoreError::StaleHandle))
    }
}

/// Roll back a worker transaction: its row is pending again.
pub open spec fn release_spec(s: StoreView, c: ClaimView) -> StoreView {
    if holds_task(s, c) {
        let i = task_index(s.queue, claim_key(c));
        StoreView { queue: s.queue.update(i, TaskRowView { claim: None, ..s.queue[i] }), ..s }
    } else {
        s
    }
}

/// The row has been held for `timeout` seconds or more at time `now`.
pub open spec fn is_stale(t: TaskRowView, now: u64, timeout: u64) -> bool {
    t.claim is Some && t.claimed_at <= now && now - t.claimed_at >= timeout
}

/// The row, released if its claim is stale.
pub open spec fn reclaim_row(t: TaskRowView, now: u64, timeout: u64) -> TaskRowView {
    if is_stale(t, now, timeout) {
        TaskRowView { claim: None, ..t }
    } else {
        t
    }
}

/// Release every claim held for `timeout` seconds or more: the worker that
/// took it is taken to have died, and the task is pending again.
pub open spec fn reclaim_spec(s: StoreView, now: u64, timeout: u64) -> StoreView {
    StoreView {
        queue: Seq::new(s.queue.len(), |i: int| reclaim_row(s.queue[i], now, timeout)),
        ..s
    }
}

/// Look an issue up by its identifier.
pub open spec fn issue_spec(s: StoreView, id: u128) -> Result<IssueView, StoreError> {
    if has_issue(s.issues, id) {
        Ok(s.issues[issue_index(s.issues, id)])
    } else {
        Err(StoreError::IssueNotFound)
    }
}

/// The pending writes of a scope are consistent: deliveries are distinct
/// and belong to an issue.
pub open spec fn scope_wf(s: ScopeView) -> bool {
    &&& forall|i: int, j: int|
        0 <= i < j < s.deliveries.len() ==> #[trigger] s.deliveries[i] != #[trigger] s.deliveries[j]
    &&& s.deliveries.len() > 0 ==> s.issue is Some
}

/// Starting the protocol keeps the store well formed.
pub proof fn lemma_begin_wf(s: StoreView, caller: u128, key: Seq<char>, now: u64)
    requires
        wf(s),
    ensures
        wf(begin_spec(s, caller, key, now).0),
{
    let t = begin_spec(s, caller, key, now).0;
    if has_row(s.idempotency, caller, key) {
        let i = row_index(s.idempotency, caller, key);
        assert forall|a: int, b: int| 0 <= a < b < t.idempotency.len() implies !row_matches(
            #[trigger] t.idempotency[a],
            t.idempotency[b].caller,
            #[trigger] t.idempotency[b].key,
        ) by {
            assert(!row_matches(s.idempotency[a], s.idempotency[b].caller, s.idempotency[b].key));
        }
    } else if s.next_txn != u64::MAX {
        assert forall|i: int, j: int| 0 <= i < j < t.idempotency.len() implies !row_matches(
            #[trigger] t.idempotency[i],
            t.idempotency[j].caller,
            #[trigger] t.idempotency[j].key,
        ) by {
            if j == s.idempotency.len() {
                assert(!row_matches(s.idempotency[i], caller, key));
            } else {
                assert(!row_matches(s.idempotency[i], s.idempotency[j].caller, s.idempotency[j].key));
            }
        }
    }
}

/// Storing another issue keeps the stored ones.
pub proof fn lemma_has_issue_push(issues: Seq<IssueView>, issue: IssueView, id: u128)
    requires
        has_issue(issues, id),
    ensures
        has_issue(issues.push(issue), id),
{
    let i = choose|i: int| 0 <= i < issues.len() && #[trigger] issues[i].issue_id == id;
    assert(issues.push(issue)[i].issue_id == id);
}

/// Committing a consistent scope keeps the store well formed.
pub proof fn lemma_commit_wf(s: StoreView, scope: ScopeView, response: ResponseView)
    requires
        wf(s),
        scope_wf(scope),
    ensures
        wf(commit_spec(s, scope, response).0),
{
    if holds_placeholder(s, scope) {
        let i = row_index(s.idempotency, scope.caller, scope.key);
        let t = commit_spec(s, scope, response).0;
        match scope.issue {
            Some(issue) => {
                if has_issue(s.issues, issue.issue_id) {
                    lemma_remove_row_wf(s, i);
                } else {
                    lemma_commit_issue_wf(s, scope, issue, response);
                }
            },
            None => {
                assert(scope_tasks(scope) =~= seq![]);
                assert(t.queue =~= s.queue);
                assert forall|a: int, b: int| 0 <= a < b < t.idempotency.len() implies !row_matches(
                    #[trigger] t.idempotency[a],
                    t.idempotency[b].caller,
                    #[trigger] t.idempotency[b].key,
                ) by {
                    assert(!row_matches(s.idempotency[a], s.idempotency[b].caller, s.idempotency[b].key));
                }
            },
        }
    }
}

/// Dropping an idempotency row keeps the store well formed.
proof fn lemma_remove_row_wf(s: StoreView, i: int)
    requires
        wf(s),
        0 <= i < s.idempotency.len(),
    ensures
        wf(StoreView { idempotency: s.idempotency.remove(i), ..s }),
{
    let t = StoreView { idempotency: s.idempotency.remove(i), ..s };
    assert forall|a: int, b: int| 0 <= a < b < t.idempotency.len() implies !row_matches(
        #[trigger] t.idempotency[a],
        t.idempotency[b].caller,
        #[trigger] t.idempotency[b].key,
    ) by {
        let a0 = if a < i { a } else { a + 1 };
        let b0 = if b < i { b } else { b + 1 };
        assert(t.idempotency[a] == s.idempotency[a0]);
        assert(t.idempotency[b] == s.idempotency[b0]);
        assert(!row_matches(s.idempotency[a0], s.idempotency[b0].caller, s.idempotency[b0].key));
    }
}

/// A commit that writes a new issue and its deliveries keeps the store well formed.
proof fn lemma_commit_issue_wf(s: StoreView, scope: ScopeView, issue: IssueView, response: ResponseView)
    requires
        wf(s),
        scope_wf(scope),
        holds_placeholder(s, scope),
        scope.issue == Some(issue),
        !has_issue(s.issues, issue.issue_id),
    ensures
        wf(commit_spec(s, scope, response).0),
{
    let i = row_index(s.idempotency, scope.caller, scope.key);
    let t = commit_spec(s, scope, response).0;
    let tasks = scope_tasks(scope);
    let n = s.queue.len();
    assert(t.issues == s.issues.push(issue));
    assert(t.queue == s.queue + tasks);
    assert forall|a: int, b: int| 0 <= a < b < t.idempotency.len() implies !row_matches(
        #[trigger] t.idempotency[a],
        t.idempotency[b].caller,
        #[trigger] t.idempotency[b].key,
    ) by {
        assert(!row_matches(s.idempotency[a], s.idempotency[b].caller, s.idempotency[b].key));
    }
    assert forall|a: int, b: int| 0 <= a < b < t.issues.len() implies (#[trigger] t.issues[a]).issue_id
        != (#[trigger] t.issues[b]).issue_id by {
        if b == s.issues.len() {
            assert(s.issues[a].issue_id != issue.issue_id);
        }
    }
    assert forall|a: int| 0 <= a < t.queue.len() implies has_issue(t.issues, (#[trigger] t.queue[a]).issue_id) by {
        if a < n {
            assert(t.queue[a] == s.queue[a]);
            assert(has_issue(s.issues, s.queue[a].issue_id));
            lemma_has_issue_push(s.issues, issue, s.queue[a].issue_id);
        } else {
            assert(t.queue[a].issue_id == issue.issue_id);
            assert(t.issues[s.issues.len() as int].issue_id == issue.issue_id);
        }
    }
    assert forall|a: int, b: int| 0 <= a < b < t.queue.len() implies task_key(#[trigger] t.queue[a])
        != task_key(#[trigger] t.queue[b]) by {
        if b < n {
            assert(task_key(s.queue[a]) != task_key(s.queue[b]));
        } else if a < n {
            assert(has_issue(s.issues, s.queue[a].issue_id));
            assert(t.queue[b].issue_id == issue.issue_id);
        } else {
            assert(scope.deliveries[a - n] != scope.deliveries[b - n]);
        }
    }
    assert forall|a: int| 0 <= a < t.queue.len() implies !t.retired.contains(task_key(#[trigger] t.queue[a])) by {
        if a < n {
            assert(t.queue[a] == s.queue[a]);
        } else {
            if t.retired.contains(task_key(t.queue[a])) {
                assert(has_issue(s.issues, issue.issue_id));
            }
        }
    }
    assert forall|k: (u128, Seq<char>)| #[trigger] t.retired.contains(k) implies has_issue(t.issues, k.0) by {
        lemma_has_issue_push(s.issues, issue, k.0);
    }
}

/// A rollback keeps the store well formed.
pub proof fn lemma_abort_wf(s: StoreView, scope: ScopeView)
    requires
        wf(s),
    ensures
        wf(abort_spec(s, scope)),
{
    if holds_placeholder(s, scope) {
        lemma_remove_row_wf(s, row_index(s.idempotency, scope.caller, scope.key));
    }
}

/// Changing only the claims of rows keeps the store well formed.
proof fn lemma_same_keys_wf(s: StoreView, t: StoreView)
    requires
        wf(s),
        t.idempotency == s.idempotency,
        t.issues == s.issues,
        t.retired == s.retired,
        t.queue.len() == s.queue.len(),
        forall|a: int| 0 <= a < t.queue.len() ==> task_key(#[trigger] t.queue[a]) == task_key(s.queue[a]),
    ensures
        wf(t),
{
    assert forall|a: int, b: int| 0 <= a < b < t.queue.len() implies task_key(#[trigger] t.queue[a])
        != task_key(#[trigger] t.queue[b]) by {
        assert(task_key(t.queue[a]) == task_key(s.queue[a]));
        assert(task_key(t.queue[b]) == task_key(s.queue[b]));
    }
    assert forall|a: int| 0 <= a < t.queue.len() implies has_issue(t.issues, (#[trigger] t.queue[a]).issue_id) by {
        assert(task_key(t.queue[a]) == task_key(s.queue[a]));
    }
    assert forall|a: int| 0 <= a < t.queue.len() implies !t.retired.contains(task_key(#[trigger] t.queue[a])) by {
        assert(task_key(t.queue[a]) == task_key(s.queue[a]));
    }
}

/// A dequeue keeps the store well formed.
pub proof fn lemma_dequeue_wf(s: StoreView, now: u64)
    requires
        wf(s),
    ensures
        wf(dequeue_spec(s, now).0),
{
    if has_unclaimed(s.queue) && s.next_txn != u64::MAX {
        lemma_first_unclaimed(s.queue);
        let i = first_unclaimed(s.queue);
        let t = dequeue_spec(s, now).0;
        assert forall|a: int| 0 <= a < t.queue.len() implies task_key(#[trigger] t.queue[a]) == task_key(
            s.queue[a],
        ) by {}
        lemma_same_keys_wf(s, t);
    }
}

/// When a row is free, the first free row exists and is unique.
pub proof fn lemma_first_unclaimed(queue: Seq<TaskRowView>)
    requires
        has_unclaimed(queue),
    ensures
        is_first_unclaimed(queue, first_unclaimed(queue)),
        forall|i: int| #[trigger] is_first_unclaimed(queue, i) ==> i == first_unclaimed(queue),
{
    let w = choose|i: int| 0 <= i < queue.len() && (#[trigger] queue[i]).claim is None;
    lemma_least_unclaimed(queue, w);
    let f = first_unclaimed(queue);
    assert forall|i: int| #[trigger] is_first_unclaimed(queue, i) implies i == f by {
        if i < f {
            assert(queue[i].claim is Some);
        } else if i > f {
            assert(queue[f].claim is Some);
        }
    }
}

/// Below a free row `w` there is a first free row.
proof fn lemma_least_unclaimed(queue: Seq<TaskRowView>, w: int)
    requires
        0 <= w < queue.len(),
        queue[w].claim is None,
    ensures
        exists|i: int| #[trigger] is_first_unclaimed(queue, i),
    decreases w,
{
    if forall|j: int| 0 <= j < w ==> (#[trigger] queue[j]).claim is Some {
        assert(is_first_unclaimed(queue, w));
    } else {
        let v = choose|j: int| 0 <= j < w && (#[trigger] queue[j]).claim is None;
        lemma_least_unclaimed(queue, v);
    }
}

/// The row at `task_index` is the only one with that key.
pub proof fn lemma_task_index(queue: Seq<TaskRowView>, key: (u128, Seq<char>), i: int)
    requires
        forall|a: int, b: int|
            0 <= a < b < queue.len() ==> task_key(#[trigger] queue[a]) != task_key(#[trigger] queue[b]),
        0 <= i < queue.len(),
        task_key(queue[i]) == key,
    ensures
        has_task(queue, key),
        task_index(queue, key) == i,
{
    let j = task_index(queue, key);
    if j < i {
        assert(task_key(queue[j]) != task_key(queue[i]));
    } else if j > i {
        assert(task_key(queue[i]) != task_key(queue[j]));
    }
}

/// Deleting a task keeps the store well formed.
pub proof fn lemma_delete_wf(s: StoreView, c: ClaimView)
    requires
        wf(s),
    ensures
        wf(delete_spec(s, c).0),
{
    if holds_task(s, c) {
        let i = task_index(s.queue, claim_key(c));
        let t = delete_spec(s, c).0;
        assert forall|a: int| 0 <= a < t.queue.len() implies #[trigger] t.queue[a] == s.queue[if a < i {
            a
        } else {
            a + 1
        }] by {}
        assert forall|a: int, b: int| 0 <= a < b < t.queue.len() implies task_key(#[trigger] t.queue[a])
            != task_key(#[trigger] t.queue[b]) by {
            let a0 = if a < i { a } else { a + 1 };
            let b0 = if b < i { b } else { b + 1 };
            assert(t.queue[a] == s.queue[a0]);
            assert(t.queue[b] == s.queue[b0]);
            assert(task_key(s.queue[a0]) != task_key(s.queue[b0]));
        }
        assert forall|a: int| 0 <= a < t.queue.len() implies has_issue(t.issues, (#[trigger] t.queue[a]).issue_id) by {
            let a0 = if a < i { a } else { a + 1 };
            assert(t.queue[a] == s.queue[a0]);
        }
        assert forall|a: int| 0 <= a < t.queue.len() implies !t.retired.contains(task_key(#[trigger] t.queue[a])) by {
            let a0 = if a < i { a } else { a + 1 };
            assert(t.queue[a] == s.queue[a0]);
            if a0 < i {
                assert(task_key(s.queue[a0]) != task_key(s.queue[i]));
            } else {
                assert(task_key(s.queue[i]) != task_key(s.queue[a0]));
            }
        }
        assert forall|k: (u128, Seq<char>)| #[trigger] t.retired.contains(k) implies has_issue(t.issues, k.0) by {
            if k == claim_key(c) {
                assert(has_issue(s.issues, s.queue[i].issue_id));
            }
        }
    }
}

/// Releasing a claim keeps the store well formed.
pub proof fn lemma_release_wf(s: StoreView, c: ClaimView)
    requires
        wf(s),
    ensures
        wf(release_spec(s, c)),
{
    if holds_task(s, c) {
        let t = release_spec(s, c);
        assert forall|a: int| 0 <= a < t.queue.len() implies task_key(#[trigger] t.queue[a]) == task_key(
            s.queue[a],
        ) by {}
        lemma_same_keys_wf(s, t);
    }
}

/// Taking back stale claims keeps the store well formed.
pub proof fn lemma_reclaim_wf(s: StoreView, now: u64, timeout: u64)
    requires
        wf(s),
    ensures
        wf(reclaim_spec(s, now, timeout)),
{
    let t = reclaim_spec(s, now, timeout);
    assert forall|a: int| 0 <= a < t.queue.len() implies task_key(#[trigger] t.queue[a]) == task_key(
        s.queue[a],
    ) by {}
    lemma_same_keys_wf(s, t);
}

} // verus!
