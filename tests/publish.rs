use zero2prod::http::see_other;
use zero2prod::publish::{
    publish_newsletter, publish_newsletter_issue, success_message, validate_newsletter_issue,
    PublishOutcome,
};
use zero2prod::store::STALE_PLACEHOLDER_SECS;
use zero2prod::worker::{complete_delivery, try_execute_task};
use zero2prod::{
    FormData, HttpResponse, IdempotencyKey, NewsletterIssue, NextAction, PublishError, Store,
    StoreError, TaskStep,
};

fn served(r: Result<PublishOutcome, PublishError>) -> HttpResponse {
    match r {
        Ok(PublishOutcome::Respond(response)) => response,
        Ok(PublishOutcome::WaitForInFlight) => panic!("unexpected wait"),
        Err(e) => panic!("unexpected error {:?}", e),
    }
}

fn form(title: &str, html: &str, text: &str, key: &str) -> FormData {
    FormData {
        title: title.to_string(),
        html_content: html.to_string(),
        text_content: text.to_string(),
        idempotency_key: key.to_string(),
    }
}

fn newsletter_form(key: &str) -> FormData {
    form("Newsletter title", "<p>Newsletter body as HTML</p>", "Newsletter body as plain text", key)
}

fn addresses(list: &[&str]) -> Vec<String> {
    list.iter().map(|s| s.to_string()).collect()
}

fn is_redirect_to(r: &HttpResponse, location: &str) -> bool {
    r.status == 303
        && r.headers.len() == 1
        && r.headers[0].name == "Location"
        && r.headers[0].value == location
        && r.body.is_empty()
}

#[test]
fn end_to_end_publish_then_drain_the_queue() {
    let mut store = Store::new();
    let subs = addresses(&["ursula@example.com", "le.guin@example.com"]);
    let issue_id: u128 = 0x1234;
    let r = served(publish_newsletter_issue(&mut store, 7, form("T", "<p>H</p>", "H", "k1"), &subs, issue_id, 0, &mut Vec::new()));
    assert!(is_redirect_to(&r, "/admin/newsletters"));
    let tasks = store.queued_tasks();
    assert_eq!(tasks.len(), 2);
    assert!(tasks.iter().all(|t| t.issue_id == issue_id));

    let mut sent: Vec<(String, String, String, String)> = Vec::new();
    for _ in 0..2 {
        match try_execute_task(&mut store, 0).ok().unwrap() {
            TaskStep::Deliver(p) => {
                sent.push((
                    p.email.clone(),
                    p.issue.title.clone(),
                    p.issue.html_content.clone(),
                    p.issue.text_content.clone(),
                ));
                complete_delivery(&mut store, p).ok().unwrap();
            }
            TaskStep::Finished(_) | TaskStep::Skipped(_) => panic!("a task was expected"),
        }
    }
    assert_eq!(store.queue_len(), 0);
    assert_eq!(sent.len(), 2);
    for (_, title, html, text) in &sent {
        assert_eq!((title.as_str(), html.as_str(), text.as_str()), ("T", "<p>H</p>", "H"));
    }
    let mut to: Vec<String> = sent.iter().map(|s| s.0.clone()).collect();
    to.sort();
    assert_eq!(to, vec!["le.guin@example.com".to_string(), "ursula@example.com".to_string()]);
}

#[test]
fn repeated_publish_replays_byte_identical_response() {
    let mut store = Store::new();
    let subs = addresses(&["ursula@example.com", "le.guin@example.com"]);
    let first = served(publish_newsletter_issue(&mut store, 7, form("T", "<p>H</p>", "H", "k1"), &subs, 1, 0, &mut Vec::new()));
    while let TaskStep::Deliver(p) = try_execute_task(&mut store, 0).ok().unwrap() {
        complete_delivery(&mut store, p).ok().unwrap();
    }
    assert_eq!(store.queue_len(), 0);
    let second = served(publish_newsletter_issue(&mut store, 7, form("T", "<p>H</p>", "H", "k1"), &subs, 2, 0, &mut Vec::new()));
    assert_eq!(first, second);
    assert_eq!(store.queue_len(), 0);
    assert_eq!(store.issue_count(), 1);
}

#[test]
fn malformed_subscriber_address_is_skipped_at_fan_out() {
    let mut store = Store::new();
    let subs = addresses(&["ursula@example.com", "not-an-address"]);
    let mut skipped = Vec::new();
    let r = publish_newsletter_issue(&mut store, 7, newsletter_form("k8"), &subs, 5, 0, &mut skipped);
    assert!(is_redirect_to(&served(r), "/admin/newsletters"));
    assert_eq!(skipped, vec!["not-an-address".to_string()]);
    let tasks = store.queued_tasks();
    assert_eq!(tasks.len(), 1);
    assert_eq!(tasks[0].email, "ursula@example.com");
    // a replay does no fan-out, so it skips nothing
    let mut again = Vec::new();
    served(publish_newsletter_issue(&mut store, 7, newsletter_form("k8"), &subs, 6, 0, &mut again));
    assert!(again.is_empty());
}

#[test]
fn one_task_per_confirmed_subscriber() {
    let mut store = Store::new();
    let subs = addresses(&["a@example.com", "b@example.com", "c@example.com"]);
    served(publish_newsletter_issue(&mut store, 1, newsletter_form("n3"), &subs, 99, 0, &mut Vec::new()));
    let tasks = store.queued_tasks();
    assert_eq!(tasks.len(), 3);
    for (t, s) in tasks.iter().zip(subs.iter()) {
        assert_eq!(t.issue_id, 99);
        assert_eq!(&t.email, s);
    }
}

#[test]
fn repeated_address_gets_one_task() {
    let mut store = Store::new();
    let subs = addresses(&["a@example.com", "a@example.com"]);
    served(publish_newsletter_issue(&mut store, 1, newsletter_form("dup"), &subs, 3, 0, &mut Vec::new()));
    assert_eq!(store.queue_len(), 1);
}

#[test]
fn no_subscribers_still_saves_the_issue() {
    let mut store = Store::new();
    let r = publish_newsletter_issue(&mut store, 1, newsletter_form("none"), &Vec::new(), 3, 0, &mut Vec::new());
    assert!(matches!(r, Ok(PublishOutcome::Respond(_))));
    assert_eq!(store.issue_count(), 1);
    assert_eq!(store.queue_len(), 0);
}

#[test]
fn newsletter_creation_is_idempotent() {
    let mut store = Store::new();
    let subs = addresses(&["ursula_le_guin@gmail.com"]);
    let response = served(publish_newsletter(&mut store, 1, newsletter_form("a-key"), &subs, 0, &mut Vec::new()));
    assert!(is_redirect_to(&response, "/admin/newsletters"));
    assert_eq!(success_message(), "Newsletter sent successfully.");
    let response = served(publish_newsletter(&mut store, 1, newsletter_form("a-key"), &subs, 0, &mut Vec::new()));
    assert!(is_redirect_to(&response, "/admin/newsletters"));
    assert_eq!(store.issue_count(), 1);
    assert_eq!(store.queue_len(), 1);
}

#[test]
fn distinct_keys_create_distinct_issues() {
    let mut store = Store::new();
    let subs = addresses(&["ursula_le_guin@gmail.com"]);
    served(publish_newsletter(&mut store, 1, newsletter_form("first"), &subs, 0, &mut Vec::new()));
    served(publish_newsletter(&mut store, 1, newsletter_form("second"), &subs, 0, &mut Vec::new()));
    assert_eq!(store.issue_count(), 2);
    let tasks = store.queued_tasks();
    assert_eq!(tasks.len(), 2);
    assert_ne!(tasks[0].issue_id, tasks[1].issue_id);
}

#[test]
fn keys_are_scoped_per_caller() {
    let mut store = Store::new();
    let subs = addresses(&["ursula_le_guin@gmail.com"]);
    served(publish_newsletter_issue(&mut store, 1, newsletter_form("k"), &subs, 10, 0, &mut Vec::new()));
    served(publish_newsletter_issue(&mut store, 2, newsletter_form("k"), &subs, 11, 0, &mut Vec::new()));
    assert_eq!(store.issue_count(), 2);
}

#[test]
fn concurrent_form_submission_is_handled_gracefully() {
    let mut store = Store::new();
    let subs = addresses(&["ursula_le_guin@gmail.com"]);
    let key = IdempotencyKey::parse("same-key".to_string()).ok().unwrap();
    // the first request holds the placeholder
    let mut scope = match store.try_processing(&key, 1, 0).ok().unwrap() {
        NextAction::StartProcessing(scope) => scope,
        _ => panic!("the first request should start"),
    };
    // the second finds it in flight and changes nothing
    let waiting = publish_newsletter_issue(&mut store, 1, newsletter_form("same-key"), &subs, 2, 0, &mut Vec::new());
    assert!(matches!(waiting, Ok(PublishOutcome::WaitForInFlight)));
    assert_eq!(store.issue_count(), 0);
    // the first commits
    scope.insert_issue(NewsletterIssue {
        issue_id: 1,
        title: "Newsletter title".to_string(),
        text_content: "Newsletter body as plain text".to_string(),
        html_content: "<p>Newsletter body as HTML</p>".to_string(),
    });
    scope.enqueue_delivery("ursula_le_guin@gmail.com".to_string());
    let response1 = store.save_response(scope, see_other("/admin/newsletters")).ok().unwrap();
    // the second, asked again, gets the same response
    let response2 = served(publish_newsletter_issue(&mut store, 1, newsletter_form("same-key"), &subs, 2, 0, &mut Vec::new()));
    assert_eq!(response1.status, response2.status);
    assert_eq!(response1.body, response2.body);
    assert_eq!(response1, response2);
    assert_eq!(store.issue_count(), 1);
    assert_eq!(store.queue_len(), 1);
}

#[test]
fn transient_errors_do_not_cause_duplicate_deliveries_on_retries() {
    let mut store = Store::new();
    let subs = addresses(&["a@example.com", "b@example.com"]);
    served(publish_newsletter_issue(&mut store, 1, newsletter_form("earlier"), &subs, 42, 0, &mut Vec::new()));
    // the issue identifier clashes: the commit fails and nothing is written
    let failed = publish_newsletter_issue(&mut store, 1, newsletter_form("retry-me"), &subs, 42, 0, &mut Vec::new());
    match failed {
        Err(e) => {
            assert_eq!(e.status_code(), 500);
            assert!(matches!(e, PublishError::TransientStoreError(StoreError::DuplicateIssue)));
        }
        Ok(_) => panic!("the clash should fail"),
    }
    assert_eq!(store.queue_len(), 2);
    // the retry with the same key starts afresh and succeeds once
    let r = publish_newsletter_issue(&mut store, 1, newsletter_form("retry-me"), &subs, 43, 0, &mut Vec::new());
    assert_eq!(served(r).status, 303);
    assert_eq!(store.queue_len(), 4);
    assert_eq!(store.issue_count(), 2);
}

#[test]
fn aborted_scope_releases_the_key() {
    let mut store = Store::new();
    let key = IdempotencyKey::parse("k".to_string()).ok().unwrap();
    let scope = match store.try_processing(&key, 1, 0).ok().unwrap() {
        NextAction::StartProcessing(scope) => scope,
        _ => panic!("should start"),
    };
    store.abort(scope);
    assert!(matches!(store.try_processing(&key, 1, 0).ok().unwrap(), NextAction::StartProcessing(_)));
}

#[test]
fn stale_scope_cannot_commit() {
    let mut store = Store::new();
    let mut other = Store::new();
    let key = IdempotencyKey::parse("k".to_string()).ok().unwrap();
    let scope = match store.try_processing(&key, 1, 0).ok().unwrap() {
        NextAction::StartProcessing(scope) => scope,
        _ => panic!("should start"),
    };
    let r = other.save_response(scope, see_other("/x"));
    assert!(matches!(r, Err(StoreError::StaleHandle)));
}

#[test]
fn newsletters_fields_must_not_be_empty() {
    let cases = vec![
        (form("", "<p>Newsletter body as HTML</p>", "Newsletter body as plain text", "k"),
         vec!["Field title can't be empty"]),
        (form("Newsletter title", "", "Newsletter body as plain text", "k"),
         vec!["Field HTML content can't be empty"]),
        (form("Newsletter title", "<p>Newsletter body as HTML</p>", "", "k"),
         vec!["Field text content can't be empty"]),
        (form("", "", "", "k"),
         vec![
             "Field title can't be empty",
             "Field HTML content can't be empty",
             "Field text content can't be empty",
         ]),
    ];
    for (f, messages) in cases {
        assert_eq!(validate_newsletter_issue(&f).err().unwrap(), messages);
        let mut store = Store::new();
        match publish_newsletter_issue(&mut store, 1, f, &Vec::new(), 1, 0, &mut Vec::new()) {
            Err(PublishError::ValidationError(v)) => assert_eq!(v, messages),
            _ => panic!("validation should fail"),
        }
        assert_eq!(store.issue_count(), 0);
    }
}

#[test]
fn malformed_key_is_a_client_error() {
    let mut store = Store::new();
    let r = publish_newsletter_issue(&mut store, 1, newsletter_form(""), &Vec::new(), 1, 0, &mut Vec::new());
    match r {
        Err(e) => {
            assert_eq!(e.status_code(), 400);
            match e {
                PublishError::ValidationError(v) => {
                    assert_eq!(v, vec!["The idempotency key cannot be empty".to_string()])
                }
                _ => panic!("a validation error was expected"),
            }
        }
        Ok(_) => panic!("the key is empty"),
    }
}

#[test]
fn abandoned_placeholder_is_taken_over_after_timeout() {
    let mut store = Store::new();
    let subs = addresses(&["ursula_le_guin@gmail.com"]);
    let key = IdempotencyKey::parse("dropped".to_string()).ok().unwrap();
    let abandoned = match store.try_processing(&key, 1, 100).ok().unwrap() {
        NextAction::StartProcessing(scope) => scope,
        _ => panic!("the first request should start"),
    };
    // still in flight just before the timeout
    let early = publish_newsletter_issue(
        &mut store, 1, newsletter_form("dropped"), &subs, 2, 100 + STALE_PLACEHOLDER_SECS - 1,
        &mut Vec::new(),
    );
    assert!(matches!(early, Ok(PublishOutcome::WaitForInFlight)));
    // taken over once it is stale
    let r = served(publish_newsletter_issue(
        &mut store, 1, newsletter_form("dropped"), &subs, 2, 100 + STALE_PLACEHOLDER_SECS,
        &mut Vec::new(),
    ));
    assert!(is_redirect_to(&r, "/admin/newsletters"));
    assert_eq!(store.queue_len(), 1);
    // the abandoned scope can no longer commit
    let late = store.save_response(abandoned, see_other("/admin/newsletters"));
    assert!(matches!(late, Err(StoreError::StaleHandle)));
    assert_eq!(store.issue_count(), 1);
}
