//! Properties of the publish protocol and the delivery queue, proved over
//! the model that every store operation refines.
use vstd::prelude::*;
use crate::idempotency::key_is_valid;
use crate::model::{
    abort_spec, begin_spec, claim_key, commit_spec, delete_spec, dequeue_spec, first_unclaimed,
    has_issue, has_row, has_unclaimed, lemma_begin_wf, lemma_first_unclaimed,
    reclaim_spec, release_spec, row_index, row_matches, scope_tasks, task_key, wf, ActionView,
    ClaimView, IdempotencyRowView, IssueView, ScopeView, StoreView, TaskRowView,
};
use crate::publish::{
    fan_out, malformed, publish_skipped, publish_spec, success_response, violations, FormView,
    PublishErrorView, PublishOutcomeView,
};
use crate::http::ResponseView;
use crate::store::{StoreError, STALE_PLACEHOLDER_SECS};
use crate::subscriber_email::email_is_valid;
use crate::worker::{execute_spec, TaskStepView, STALE_CLAIM_SECS};

verus! {

/// The row at index `i` is the only one for its caller and key.
proof fn lemma_row_index(s: StoreView, caller: u128, key: Seq<char>, i: int)
    requires
        wf(s),
        0 <= i < s.idempotency.len(),
        row_matches(s.idempotency[i], caller, key),
    ensures
        has_row(s.idempotency, caller, key),
        row_index(s.idempotency, caller, key) == i,
{
    let rows = s.idempotency;
    let j = row_index(rows, caller, key);
    if j < i {
        assert(!row_matches(rows[j], rows[i].caller, rows[i].key));
    } else if j > i {
        assert(!row_matches(rows[i], rows[j].caller, rows[j].key));
    }
}

/// The issue a publish of `form` writes under `issue_id`.
pub open spec fn form_issue(form: FormView, issue_id: u128) -> IssueView {
    IssueView {
        issue_id,
        title: form.title,
        text_content: form.text_content,
        html_content: form.html_content,
    }
}

/// The scope of the request that started first, once it has done its work.
pub open spec fn first_scope(
    s: StoreView,
    caller: u128,
    form: FormView,
    subscribers: Seq<Seq<char>>,
    issue_id: u128,
) -> ScopeView {
    ScopeView {
        txn: s.next_txn,
        caller,
        key: form.idempotency_key,
        issue: Some(form_issue(form, issue_id)),
        deliveries: fan_out(subscribers),
    }
}

/// A well-formed publish form whose key is new to the store.
pub open spec fn fresh_request(s: StoreView, caller: u128, form: FormView, issue_id: u128) -> bool {
    &&& violations(form.title, form.html_content, form.text_content).len() == 0
    &&& key_is_valid(form.idempotency_key)
    &&& !has_row(s.idempotency, caller, form.idempotency_key)
    &&& s.next_txn < u64::MAX
    &&& !has_issue(s.issues, issue_id)
}

/// The response a publish sends back, as the model sees it.
pub open spec fn responds(r: ResponseView) -> Result<PublishOutcomeView, PublishErrorView> {
    Ok(PublishOutcomeView::Respond(r))
}

/// Two requests with the same caller, key and content converge. While the
/// first holds its placeholder, the second has no effect and is told to
/// wait, with nothing sent back; once the first commits, the second, asked
/// again, gets the very same response. The store then holds one new issue
/// and one set of delivery tasks, the same as after the first request alone.
pub proof fn lemma_concurrent_publishes_converge(
    s: StoreView,
    caller: u128,
    form: FormView,
    subscribers: Seq<Seq<char>>,
    first_id: u128,
    second_id: u128,
    first_now: u64,
    second_now: u64,
    retry_now: u64,
)
    requires
        wf(s),
        fresh_request(s, caller, form, first_id),
        second_now < first_now + STALE_PLACEHOLDER_SECS,
    ensures
        ({
            let (s1, started) = begin_spec(s, caller, form.idempotency_key, first_now);
            let work = first_scope(s, caller, form, subscribers, first_id);
            let (s2, first) = commit_spec(s1, work, success_response());
            &&& started == Ok::<ActionView, StoreError>(
                ActionView::Start(ScopeView { issue: None, deliveries: seq![], ..work }),
            )
            &&& publish_spec(s1, caller, form, subscribers, second_id, second_now) == (
                s1,
                Ok::<PublishOutcomeView, PublishErrorView>(PublishOutcomeView::Wait),
            )
            &&& first == Ok::<ResponseView, StoreError>(success_response())
            &&& publish_spec(s, caller, form, subscribers, first_id, first_now) == (
                s2,
                responds(success_response()),
            )
            &&& publish_spec(s2, caller, form, subscribers, second_id, retry_now) == (
                s2,
                responds(success_response()),
            )
            &&& s2.issues == s.issues.push(form_issue(form, first_id))
            &&& s2.queue == s.queue + scope_tasks(work)
        }),
{
    let key = form.idempotency_key;
    let (s1, started) = begin_spec(s, caller, key, first_now);
    lemma_begin_wf(s, caller, key, first_now);
    let last = s.idempotency.len() as int;
    assert(s1.idempotency[last] == IdempotencyRowView {
        caller,
        key,
        holder: s.next_txn,
        started_at: first_now,
        response: None,
    });
    lemma_row_index(s1, caller, key, last);
    let work = first_scope(s, caller, form, subscribers, first_id);
    let (s2, first) = commit_spec(s1, work, success_response());
    lemma_fan_out_distinct(subscribers);
    crate::model::lemma_commit_wf(s1, work, success_response());
    assert(s2.idempotency[last].response == Some(success_response()));
    assert(s2.idempotency[last].caller == caller && s2.idempotency[last].key == key);
    lemma_row_index(s2, caller, key, last);
}

/// A retry with a key whose request already committed returns the saved
/// response and changes nothing: no second issue, no new delivery task.
pub proof fn lemma_retry_replays_saved_response(
    s: StoreView,
    caller: u128,
    form: FormView,
    subscribers: Seq<Seq<char>>,
    issue_id: u128,
    now: u64,
)
    requires
        wf(s),
        violations(form.title, form.html_content, form.text_content).len() == 0,
        key_is_valid(form.idempotency_key),
        has_row(s.idempotency, caller, form.idempotency_key),
        s.idempotency[row_index(s.idempotency, caller, form.idempotency_key)].response is Some,
    ensures
        publish_spec(s, caller, form, subscribers, issue_id, now) == (
            s,
            responds(
                s.idempotency[row_index(
                    s.idempotency,
                    caller,
                    form.idempotency_key,
                )].response->0,
            ),
        ),
{
}

/// An abandoned placeholder blocks its key for a bounded time only: once
/// `STALE_PLACEHOLDER_SECS` have passed since it was taken, the next
/// attempt with that key takes it over and does the work itself.
pub proof fn lemma_abandoned_placeholder_is_taken_over(
    s: StoreView,
    caller: u128,
    key: Seq<char>,
    now: u64,
)
    requires
        wf(s),
        has_row(s.idempotency, caller, key),
        s.idempotency[row_index(s.idempotency, caller, key)].response is None,
        s.idempotency[row_index(s.idempotency, caller, key)].started_at + STALE_PLACEHOLDER_SECS
            <= now,
        s.next_txn < u64::MAX,
    ensures
        begin_spec(s, caller, key, now).1 matches Ok(ActionView::Start(scope)) && scope.txn
            == s.next_txn,
{
}

/// No address receives two deliveries of one issue.
pub proof fn lemma_fan_out_distinct(subscribers: Seq<Seq<char>>)
    ensures
        forall|i: int, j: int|
            0 <= i < j < fan_out(subscribers).len() ==> #[trigger] fan_out(subscribers)[i]
                != #[trigger] fan_out(subscribers)[j],
    decreases subscribers.len(),
{
    if subscribers.len() > 0 {
        let prev = fan_out(subscribers.drop_last());
        lemma_fan_out_distinct(subscribers.drop_last());
        let e = subscribers.last();
        if email_is_valid(e) && !prev.contains(e) {
            let f = prev.push(e);
            assert forall|i: int, j: int| 0 <= i < j < f.len() implies #[trigger] f[i] != #[trigger] f[j] by {
                if j == prev.len() {
                    assert(f[i] == prev[i]);
                } else {
                    assert(prev[i] != prev[j]);
                }
            }
        }
    }
}

/// Fan-out skips malformed addresses and nothing else: an address gets a
/// delivery exactly when it is listed and well formed.
pub proof fn lemma_fan_out_members(subscribers: Seq<Seq<char>>, e: Seq<char>)
    ensures
        fan_out(subscribers).contains(e) <==> (subscribers.contains(e) && email_is_valid(e)),
    decreases subscribers.len(),
{
    if subscribers.len() > 0 {
        let rest = subscribers.drop_last();
        lemma_fan_out_members(rest, e);
        let prev = fan_out(rest);
        let last = subscribers.last();
        if subscribers.contains(e) && email_is_valid(e) {
            let i = choose|i: int| 0 <= i < subscribers.len() && subscribers[i] == e;
            if i < rest.len() {
                assert(rest[i] == e);
            }
            if email_is_valid(last) && !prev.contains(last) {
                assert(prev.push(last)[prev.len() as int] == last);
                if prev.contains(e) {
                    let j = choose|j: int| 0 <= j < prev.len() && prev[j] == e;
                    assert(prev.push(last)[j] == e);
                }
            }
        }
        if fan_out(subscribers).contains(e) {
            if email_is_valid(last) && !prev.contains(last) {
                let j = choose|j: int| 0 <= j < prev.len() + 1 && prev.push(last)[j] == e;
                if j < prev.len() {
                    assert(prev[j] == e);
                    assert(rest.contains(e));
                    let k = choose|k: int| 0 <= k < rest.len() && rest[k] == e;
                    assert(subscribers[k] == e);
                } else {
                    assert(subscribers[subscribers.len() - 1] == e);
                }
            } else {
                assert(rest.contains(e));
                let k = choose|k: int| 0 <= k < rest.len() && rest[k] == e;
                assert(subscribers[k] == e);
            }
        }
    }
}

/// Distinct, well-formed addresses each get one delivery, in order.
proof fn lemma_fan_out_distinct_valid(subscribers: Seq<Seq<char>>)
    requires
        forall|i: int, j: int|
            0 <= i < j < subscribers.len() ==> #[trigger] subscribers[i] != #[trigger] subscribers[j],
        forall|i: int| 0 <= i < subscribers.len() ==> email_is_valid(#[trigger] subscribers[i]),
    ensures
        fan_out(subscribers) == subscribers,
    decreases subscribers.len(),
{
    if subscribers.len() > 0 {
        let prev = subscribers.drop_last();
        assert forall|i: int, j: int| 0 <= i < j < prev.len() implies #[trigger] prev[i]
            != #[trigger] prev[j] by {
            assert(subscribers[i] != subscribers[j]);
        }
        assert forall|i: int| 0 <= i < prev.len() implies email_is_valid(#[trigger] prev[i]) by {
            assert(email_is_valid(subscribers[i]));
        }
        lemma_fan_out_distinct_valid(prev);
        let e = subscribers.last();
        assert(email_is_valid(subscribers[subscribers.len() - 1]));
        if prev.contains(e) {
            let i = choose|i: int| 0 <= i < prev.len() && prev[i] == e;
            assert(subscribers[i] != subscribers[subscribers.len() - 1]);
        }
        assert(prev.push(e) =~= subscribers);
    }
}

/// A first publish to N distinct, well-formed subscriber addresses appends
/// exactly N delivery tasks, one per address, all for the new issue.
pub proof fn lemma_one_task_per_subscriber(
    s: StoreView,
    caller: u128,
    form: FormView,
    subscribers: Seq<Seq<char>>,
    issue_id: u128,
    now: u64,
)
    requires
        wf(s),
        fresh_request(s, caller, form, issue_id),
        forall|i: int, j: int|
            0 <= i < j < subscribers.len() ==> #[trigger] subscribers[i] != #[trigger] subscribers[j],
        forall|i: int| 0 <= i < subscribers.len() ==> email_is_valid(#[trigger] subscribers[i]),
    ensures
        ({
            let (t, r) = publish_spec(s, caller, form, subscribers, issue_id, now);
            &&& r == responds(success_response())
            &&& t.queue.len() == s.queue.len() + subscribers.len()
            &&& t.queue.subrange(0, s.queue.len() as int) == s.queue
            &&& forall|k: int|
                0 <= k < subscribers.len() ==> #[trigger] t.queue[s.queue.len() + k] == (TaskRowView {
                    issue_id,
                    email: subscribers[k],
                    claim: None,
                    claimed_at: 0,
                })
        }),
{
    lemma_concurrent_publishes_converge(s, caller, form, subscribers, issue_id, issue_id, now, now, now);
    lemma_fan_out_distinct_valid(subscribers);
    let (t, r) = publish_spec(s, caller, form, subscribers, issue_id, now);
    let work = first_scope(s, caller, form, subscribers, issue_id);
    assert(t.queue == s.queue + scope_tasks(work));
    assert(t.queue.subrange(0, s.queue.len() as int) =~= s.queue);
}

/// A first publish to one well-formed and one malformed address succeeds,
/// queues one task, for the well-formed address, and reports the malformed
/// one as skipped.
pub proof fn lemma_malformed_address_skipped(
    s: StoreView,
    caller: u128,
    form: FormView,
    good: Seq<char>,
    bad: Seq<char>,
    issue_id: u128,
    now: u64,
)
    requires
        wf(s),
        fresh_request(s, caller, form, issue_id),
        email_is_valid(good),
        !email_is_valid(bad),
    ensures
        ({
            let (t, r) = publish_spec(s, caller, form, seq![good, bad], issue_id, now);
            &&& r == responds(success_response())
            &&& t.queue == s.queue.push(
                TaskRowView { issue_id, email: good, claim: None, claimed_at: 0 },
            )
            &&& publish_skipped(s, caller, form, seq![good, bad], now) == seq![bad]
        }),
{
    let subs = seq![good, bad];
    assert(subs.drop_last() =~= seq![good]);
    let none = Seq::<Seq<char>>::empty();
    assert(seq![good].drop_last() =~= none);
    assert(seq![good].last() == good);
    assert(fan_out(none) == none);
    assert(!none.contains(good));
    assert(none.push(good) =~= seq![good]);
    assert(fan_out(seq![good]) =~= seq![good]);
    assert(fan_out(subs) =~= seq![good]);
    assert(malformed(none) == none);
    assert(malformed(seq![good]) =~= none);
    assert(subs.last() == bad);
    assert(none.push(bad) =~= seq![bad]);
    assert(malformed(subs) =~= seq![bad]);
    lemma_concurrent_publishes_converge(s, caller, form, subs, issue_id, issue_id, now, now, now);
    let work = first_scope(s, caller, form, subs, issue_id);
    assert(s.queue + scope_tasks(work) =~= s.queue.push(
        TaskRowView { issue_id, email: good, claim: None, claimed_at: 0 },
    ));
}

/// Two dequeues, one after the other with no commit between them, never
/// hand out the same row: the first holds its row locked, and the second
/// takes only rows that nobody holds.
pub proof fn lemma_dequeues_are_exclusive(s: StoreView, first_now: u64, second_now: u64)
    requires
        wf(s),
    ensures
        ({
            let (s1, first) = dequeue_spec(s, first_now);
            let (s2, second) = dequeue_spec(s1, second_now);
            first matches Ok(Some(c1)) ==> (second matches Ok(Some(c2)) ==> claim_key(c1)
                != claim_key(c2) && c1.txn != c2.txn)
        }),
{
    let (s1, first) = dequeue_spec(s, first_now);
    crate::model::lemma_dequeue_wf(s, first_now);
    let (s2, second) = dequeue_spec(s1, second_now);
    if let Ok(Some(c1)) = first {
        if let Ok(Some(c2)) = second {
            lemma_first_unclaimed(s.queue);
            lemma_first_unclaimed(s1.queue);
            let i = first_unclaimed(s.queue);
            let j = first_unclaimed(s1.queue);
            assert(s1.queue[i].claim is Some);
            assert(i != j);
            if i < j {
                assert(task_key(s1.queue[i]) != task_key(s1.queue[j]));
            } else {
                assert(task_key(s1.queue[j]) != task_key(s1.queue[i]));
            }
        }
    }
}

/// Two worker iterations never hand out the same task to be sent, as long
/// as the second starts before the first one's claim goes stale.
pub proof fn lemma_workers_take_distinct_tasks(s: StoreView, first_now: u64, second_now: u64)
    requires
        wf(s),
        second_now < first_now + STALE_CLAIM_SECS,
    ensures
        ({
            let (s1, first) = execute_spec(s, first_now);
            let (s2, second) = execute_spec(s1, second_now);
            first matches Ok(TaskStepView::Deliver(p1)) ==> (second matches Ok(
                TaskStepView::Deliver(p2),
            ) ==> claim_key(p1.claim) != claim_key(p2.claim))
        }),
{
    let r0 = reclaim_spec(s, first_now, STALE_CLAIM_SECS);
    crate::model::lemma_reclaim_wf(s, first_now, STALE_CLAIM_SECS);
    let (s1, first) = execute_spec(s, first_now);
    let (s2, second) = execute_spec(s1, second_now);
    if let Ok(TaskStepView::Deliver(p1)) = first {
        if let Ok(TaskStepView::Deliver(p2)) = second {
            crate::model::lemma_dequeue_wf(r0, first_now);
            assert(s1 == dequeue_spec(r0, first_now).0);
            lemma_first_unclaimed(r0.queue);
            let i = first_unclaimed(r0.queue);
            assert(s1.queue[i].claim is Some && s1.queue[i].claimed_at == first_now);
            let r1 = reclaim_spec(s1, second_now, STALE_CLAIM_SECS);
            crate::model::lemma_reclaim_wf(s1, second_now, STALE_CLAIM_SECS);
            assert(r1.queue[i] == s1.queue[i]);
            lemma_first_unclaimed(r1.queue);
            let j = first_unclaimed(r1.queue);
            assert(i != j);
            assert(task_key(r1.queue[j]) == task_key(s1.queue[j]));
            if i < j {
                assert(task_key(s1.queue[i]) != task_key(s1.queue[j]));
            } else {
                assert(task_key(s1.queue[j]) != task_key(s1.queue[i]));
            }
        }
    }
}

/// A task whose stored address is malformed is never sent: the worker
/// iteration that takes it deletes it for good and hands its address back
/// to be reported.
pub proof fn lemma_malformed_task_skipped(s: StoreView, now: u64)
    requires
        wf(s),
        has_unclaimed(reclaim_spec(s, now, STALE_CLAIM_SECS).queue),
        s.next_txn < u64::MAX,
        !email_is_valid(
            reclaim_spec(s, now, STALE_CLAIM_SECS).queue[first_unclaimed(
                reclaim_spec(s, now, STALE_CLAIM_SECS).queue,
            )].email,
        ),
    ensures
        ({
            let r0 = reclaim_spec(s, now, STALE_CLAIM_SECS);
            let i = first_unclaimed(r0.queue);
            let (t, r) = execute_spec(s, now);
            &&& r == Ok::<TaskStepView, StoreError>(TaskStepView::Skipped(r0.queue[i].email))
            &&& t.queue == r0.queue.remove(i)
            &&& t.retired.contains(task_key(r0.queue[i]))
        }),
{
    let r0 = reclaim_spec(s, now, STALE_CLAIM_SECS);
    crate::model::lemma_reclaim_wf(s, now, STALE_CLAIM_SECS);
    lemma_first_unclaimed(r0.queue);
    let i = first_unclaimed(r0.queue);
    let (s1, d) = dequeue_spec(r0, now);
    crate::model::lemma_dequeue_wf(r0, now);
    if let Ok(Some(c)) = d {
        crate::model::lemma_task_index(s1.queue, claim_key(c), i);
        assert(s1.queue.remove(i) =~= r0.queue.remove(i));
    }
}

/// Deleting a task retires it: it leaves the queue and joins the retired set.
pub proof fn lemma_delete_retires(s: StoreView, c: ClaimView)
    requires
        wf(s),
        delete_spec(s, c).1 is Ok,
    ensures
        delete_spec(s, c).0.retired.contains(claim_key(c)),
        forall|i: int|
            0 <= i < delete_spec(s, c).0.queue.len() ==> task_key(
                #[trigger] delete_spec(s, c).0.queue[i],
            ) != claim_key(c),
{
    crate::model::lemma_delete_wf(s, c);
}

/// No dequeue from a well-formed store hands out a retired task.
pub proof fn lemma_retired_task_never_dequeued(s: StoreView, k: (u128, Seq<char>), now: u64)
    requires
        wf(s),
        s.retired.contains(k),
    ensures
        dequeue_spec(s, now).1 matches Ok(Some(c)) ==> claim_key(c) != k,
{
    if has_unclaimed(s.queue) {
        lemma_first_unclaimed(s.queue);
        let i = first_unclaimed(s.queue);
        assert(!s.retired.contains(task_key(s.queue[i])));
    }
}

/// No operation forgets a retired task, so once deleted a task stays
/// retired, and by the law above no later dequeue returns it.
pub proof fn lemma_retired_only_grows(
    s: StoreView,
    caller: u128,
    key: Seq<char>,
    scope: ScopeView,
    response: ResponseView,
    c: ClaimView,
    form: FormView,
    subscribers: Seq<Seq<char>>,
    issue_id: u128,
    now: u64,
    timeout: u64,
)
    ensures
        s.retired.subset_of(begin_spec(s, caller, key, now).0.retired),
        s.retired.subset_of(commit_spec(s, scope, response).0.retired),
        s.retired.subset_of(abort_spec(s, scope).retired),
        s.retired.subset_of(dequeue_spec(s, now).0.retired),
        s.retired.subset_of(reclaim_spec(s, now, timeout).retired),
        s.retired.subset_of(delete_spec(s, c).0.retired),
        s.retired.subset_of(release_spec(s, c).retired),
        s.retired.subset_of(publish_spec(s, caller, form, subscribers, issue_id, now).0.retired),
        s.retired.subset_of(execute_spec(s, now).0.retired),
{
    let (s1, d) = dequeue_spec(reclaim_spec(s, now, STALE_CLAIM_SECS), now);
    if let Ok(Some(c1)) = d {
        assert(s.retired.subset_of(delete_spec(s1, c1).0.retired));
    }
}

} // verus!
