use zero2prod::publish::{publish_newsletter_issue, PublishOutcome};
use zero2prod::worker::{complete_delivery, next_poll_delay, try_execute_task, STALE_CLAIM_SECS};
use zero2prod::http::see_other;
use zero2prod::{
    ExecutionOutcome, FormData, IdempotencyKey, NewsletterIssue, NextAction, Store, StoreError,
    TaskStep,
};

fn served(r: Result<PublishOutcome, zero2prod::PublishError>) {
    assert!(matches!(r, Ok(PublishOutcome::Respond(_))));
}

fn publish(store: &mut Store, key: &str, subs: &[&str], issue_id: u128) {
    let form = FormData {
        title: "T".to_string(),
        html_content: "<p>H</p>".to_string(),
        text_content: "H".to_string(),
        idempotency_key: key.to_string(),
    };
    let subs: Vec<String> = subs.iter().map(|s| s.to_string()).collect();
    served(publish_newsletter_issue(store, 1, form, &subs, issue_id, 0, &mut Vec::new()));
}

#[test]
fn two_dequeues_never_take_the_same_row() {
    let mut store = Store::new();
    publish(&mut store, "k", &["a@example.com", "b@example.com"], 1);
    let c1 = store.dequeue_task(0).ok().unwrap().unwrap();
    let c2 = store.dequeue_task(0).ok().unwrap().unwrap();
    assert_ne!(c1.email(), c2.email());
    // both rows are held: a third dequeue gets nothing
    assert!(store.dequeue_task(0).ok().unwrap().is_none());
    store.delete_task(c1).ok().unwrap();
    store.delete_task(c2).ok().unwrap();
    assert_eq!(store.queue_len(), 0);
}

#[test]
fn deleted_task_is_never_dequeued_again() {
    let mut store = Store::new();
    publish(&mut store, "k", &["a@example.com"], 1);
    let c = store.dequeue_task(0).ok().unwrap().unwrap();
    assert_eq!(c.issue_id(), 1);
    store.delete_task(c).ok().unwrap();
    assert!(store.dequeue_task(0).ok().unwrap().is_none());
    // replaying the same publish does not bring it back
    publish(&mut store, "k", &["a@example.com"], 2);
    assert!(store.dequeue_task(0).ok().unwrap().is_none());
}

#[test]
fn released_task_is_pending_again() {
    let mut store = Store::new();
    publish(&mut store, "k", &["a@example.com"], 1);
    let c = store.dequeue_task(0).ok().unwrap().unwrap();
    assert!(store.dequeue_task(0).ok().unwrap().is_none());
    store.release_task(c);
    let again = store.dequeue_task(0).ok().unwrap().unwrap();
    assert_eq!(again.email(), "a@example.com");
}

#[test]
fn released_task_can_be_taken_and_deleted() {
    let mut store = Store::new();
    publish(&mut store, "k", &["a@example.com"], 1);
    let c = store.dequeue_task(0).ok().unwrap().unwrap();
    store.release_task(c);
    let c2 = store.dequeue_task(0).ok().unwrap().unwrap();
    store.delete_task(c2).ok().unwrap();
    assert_eq!(store.queue_len(), 0);
}

#[test]
fn empty_queue_reports_empty() {
    let mut store = Store::new();
    match try_execute_task(&mut store, 0).ok().unwrap() {
        TaskStep::Finished(o) => assert_eq!(o, ExecutionOutcome::EmptyQueue),
        TaskStep::Deliver(_) | TaskStep::Skipped(_) => panic!("nothing to deliver"),
    }
}

#[test]
fn poll_delays() {
    assert_eq!(next_poll_delay(&Ok(ExecutionOutcome::EmptyQueue)), 10);
    assert_eq!(next_poll_delay(&Err(StoreError::IssueNotFound)), 1);
    assert_eq!(next_poll_delay(&Err(StoreError::TransactionIdsExhausted)), 1);
    assert_eq!(next_poll_delay(&Ok(ExecutionOutcome::TaskCompleted)), 0);
}

#[test]
fn delivery_is_removed_whatever_the_send_outcome() {
    let mut store = Store::new();
    publish(&mut store, "k", &["a@example.com"], 1);
    let p = match try_execute_task(&mut store, 0).ok().unwrap() {
        TaskStep::Deliver(p) => p,
        TaskStep::Finished(_) | TaskStep::Skipped(_) => panic!("a delivery was expected"),
    };
    assert_eq!(p.email, "a@example.com");
    assert_eq!(p.issue.issue_id, 1);
    // the send failed; the task is still done
    let outcome = complete_delivery(&mut store, p);
    assert_eq!(outcome, Ok(ExecutionOutcome::TaskCompleted));
    assert_eq!(store.queue_len(), 0);
    assert_eq!(next_poll_delay(&outcome), 0);
}

#[test]
fn worker_loop_runs_until_queue_is_empty() {
    let mut store = Store::new();
    publish(&mut store, "k1", &["a@example.com", "b@example.com"], 1);
    publish(&mut store, "k2", &["a@example.com"], 2);
    let mut sends = 0;
    let mut delays = Vec::new();
    loop {
        let outcome = match try_execute_task(&mut store, 0) {
            Ok(TaskStep::Deliver(p)) => {
                sends += 1;
                complete_delivery(&mut store, p)
            }
            Ok(TaskStep::Finished(o)) => Ok(o),
            Ok(TaskStep::Skipped(_)) => Ok(ExecutionOutcome::TaskCompleted),
            Err(e) => Err(e),
        };
        delays.push(next_poll_delay(&outcome));
        if outcome == Ok(ExecutionOutcome::EmptyQueue) {
            break;
        }
    }
    assert_eq!(sends, 3);
    assert_eq!(delays, vec![0, 0, 0, 10]);
}

#[test]
fn stale_claim_is_taken_back() {
    let mut store = Store::new();
    publish(&mut store, "k", &["a@example.com"], 1);
    let dead = match try_execute_task(&mut store, 1000).ok().unwrap() {
        TaskStep::Deliver(p) => p,
        TaskStep::Finished(_) | TaskStep::Skipped(_) => panic!("a delivery was expected"),
    };
    // still held just before the timeout
    match try_execute_task(&mut store, 1000 + STALE_CLAIM_SECS - 1).ok().unwrap() {
        TaskStep::Finished(o) => assert_eq!(o, ExecutionOutcome::EmptyQueue),
        TaskStep::Deliver(_) | TaskStep::Skipped(_) => panic!("the task is still held"),
    }
    // taken back once the claim is stale
    let again = match try_execute_task(&mut store, 1000 + STALE_CLAIM_SECS).ok().unwrap() {
        TaskStep::Deliver(p) => p,
        TaskStep::Finished(_) | TaskStep::Skipped(_) => panic!("the stale task should be handed out again"),
    };
    assert_eq!(again.email, "a@example.com");
    // the first worker's claim no longer holds the row
    assert_eq!(complete_delivery(&mut store, dead), Err(StoreError::StaleHandle));
    assert_eq!(store.queue_len(), 1);
    assert_eq!(complete_delivery(&mut store, again), Ok(ExecutionOutcome::TaskCompleted));
    assert_eq!(store.queue_len(), 0);
}

#[test]
fn reclaim_leaves_fresh_claims_alone() {
    let mut store = Store::new();
    publish(&mut store, "k", &["a@example.com", "b@example.com"], 1);
    let _old = store.dequeue_task(10).ok().unwrap().unwrap();
    let _fresh = store.dequeue_task(20).ok().unwrap().unwrap();
    store.reclaim_stale_claims(25, 10);
    let retaken = store.dequeue_task(25).ok().unwrap().unwrap();
    assert_eq!(retaken.email(), "a@example.com");
    assert!(store.dequeue_task(25).ok().unwrap().is_none());
}

#[test]
fn malformed_stored_address_is_skipped_and_reported() {
    let mut store = Store::new();
    let key = IdempotencyKey::parse("k".to_string()).ok().unwrap();
    let mut scope = match store.try_processing(&key, 1, 0).ok().unwrap() {
        NextAction::StartProcessing(scope) => scope,
        _ => panic!("should start"),
    };
    scope.insert_issue(NewsletterIssue {
        issue_id: 4,
        title: "T".to_string(),
        text_content: "H".to_string(),
        html_content: "<p>H</p>".to_string(),
    });
    scope.enqueue_delivery("ursuladomain.com".to_string());
    store.save_response(scope, see_other("/admin/newsletters")).ok().unwrap();
    match try_execute_task(&mut store, 0).ok().unwrap() {
        TaskStep::Skipped(address) => assert_eq!(address, "ursuladomain.com"),
        _ => panic!("the malformed address should be skipped"),
    }
    assert_eq!(store.queue_len(), 0);
}
