//! The publish orchestrator: validates an issue, then, under idempotency
//! protection, writes it and fans it out to the delivery queue in one commit.
use vstd::prelude::*;
use vstd::string::StringExecFns;
use crate::errors::{STATUS_BAD_REQUEST, STATUS_INTERNAL_SERVER_ERROR};
use crate::http::{see_other, see_other_view, HttpResponse, ResponseView};
use crate::idempotency::{key_error, key_is_valid, IdempotencyKey};
use crate::model::{begin_spec, commit_spec, ActionView, IssueView, ScopeView, StoreView};
use crate::store::{strings_view, NewsletterIssue, NextAction, Store, StoreError};
use crate::subscriber_email::{email_is_valid, SubscriberEmail};

verus! {

/// The publish form: the issue's content and the request's idempotency key.
pub struct FormData {
    pub title: String,
    pub html_content: String,
    pub text_content: String,
    pub idempotency_key: String,
}

pub struct FormView {
    pub title: Seq<char>,
    pub html_content: Seq<char>,
    pub text_content: Seq<char>,
    pub idempotency_key: Seq<char>,
}

impl View for FormData {
    type V = FormView;

    open spec fn view(&self) -> FormView {
        FormView {
            title: self.title@,
            html_content: self.html_content@,
            text_content: self.text_content@,
            idempotency_key: self.idempotency_key@,
        }
    }
}

/// What a publish request comes to, short of an error.
#[derive(Debug)]
pub enum PublishOutcome {
    /// The response to send back, computed now or replayed.
    Respond(HttpResponse),
    /// Another attempt with the same key is in flight: wait for it to end,
    /// then publish again, which replays its response. Nothing is sent back
    /// in the meantime.
    WaitForInFlight,
}

/// Why a publish request was not served.
#[derive(Debug)]
pub enum PublishError {
    /// The content or the key is malformed; every violation is listed.
    ValidationError(Vec<String>),
    /// The store failed; nothing was committed, and a retry with the same key is safe.
    TransientStoreError(StoreError),
}

pub enum PublishOutcomeView {
    Respond(ResponseView),
    Wait,
}

pub enum PublishErrorView {
    Validation(Seq<Seq<char>>),
    Store(StoreError),
}

/// What a publish returned, as the model sees it.
pub open spec fn publish_result_view(r: Result<PublishOutcome, PublishError>) -> Result<
    PublishOutcomeView,
    PublishErrorView,
> {
    match r {
        Ok(PublishOutcome::Respond(resp)) => Ok(PublishOutcomeView::Respond(resp@)),
        Ok(PublishOutcome::WaitForInFlight) => Ok(PublishOutcomeView::Wait),
        Err(PublishError::ValidationError(v)) => Err(PublishErrorView::Validation(strings_view(v@))),
        Err(PublishError::TransientStoreError(e)) => Err(PublishErrorView::Store(e)),
    }
}

impl PublishError {
    /// The HTTP status that reports the error.
    pub fn status_code(&self) -> (r: u16)
        ensures
            r == match self {
                PublishError::ValidationError(_) => STATUS_BAD_REQUEST,
                PublishError::TransientStoreError(_) => STATUS_INTERNAL_SERVER_ERROR,
            },
    {
        match self {
            PublishError::ValidationError(_) => STATUS_BAD_REQUEST,
            PublishError::TransientStoreError(_) => STATUS_INTERNAL_SERVER_ERROR,
        }
    }
}

/// One message for each empty field, in the order title, HTML, text.
pub open spec fn violations(title: Seq<char>, html: Seq<char>, text: Seq<char>) -> Seq<Seq<char>> {
    let a: Seq<Seq<char>> = if title.len() == 0 {
        seq!["Field title can't be empty"@]
    } else {
        seq![]
    };
    let b: Seq<Seq<char>> = if html.len() == 0 {
        seq!["Field HTML content can't be empty"@]
    } else {
        seq![]
    };
    let c: Seq<Seq<char>> = if text.len() == 0 {
        seq!["Field text content can't be empty"@]
    } else {
        seq![]
    };
    a + b + c
}

/// The addresses that receive a delivery task: each well-formed address
/// once, in the order given; malformed ones are skipped.
pub open spec fn fan_out(subscribers: Seq<Seq<char>>) -> Seq<Seq<char>>
    decreases subscribers.len(),
{
    if subscribers.len() == 0 {
        seq![]
    } else {
        let prev = fan_out(subscribers.drop_last());
        let e = subscribers.last();
        if email_is_valid(e) && !prev.contains(e) {
            prev.push(e)
        } else {
            prev
        }
    }
}

/// The addresses that fan-out skips as malformed, in the order given.
pub open spec fn malformed(subscribers: Seq<Seq<char>>) -> Seq<Seq<char>>
    decreases subscribers.len(),
{
    if subscribers.len() == 0 {
        seq![]
    } else {
        let prev = malformed(subscribers.drop_last());
        if email_is_valid(subscribers.last()) {
            prev
        } else {
            prev.push(subscribers.last())
        }
    }
}

/// The addresses a publish request skips: the malformed ones when it does
/// the work itself, none when it is turned down, waits or replays.
pub open spec fn publish_skipped(
    s: StoreView,
    caller: u128,
    form: FormView,
    subscribers: Seq<Seq<char>>,
    now: u64,
) -> Seq<Seq<char>> {
    if violations(form.title, form.html_content, form.text_content).len() == 0 && key_is_valid(
        form.idempotency_key,
    ) && begin_spec(s, caller, form.idempotency_key, now).1 matches Ok(ActionView::Start(_)) {
        malformed(subscribers)
    } else {
        seq![]
    }
}

/// Where the browser goes after a publish.
pub open spec fn success_response() -> ResponseView {
    see_other_view("/admin/newsletters"@)
}

/// A whole publish request against store `s` at time `now`, with
/// `issue_id` for the new issue.
pub open spec fn publish_spec(
    s: StoreView,
    caller: u128,
    form: FormView,
    subscribers: Seq<Seq<char>>,
    issue_id: u128,
    now: u64,
) -> (StoreView, Result<PublishOutcomeView, PublishErrorView>) {
    let v = violations(form.title, form.html_content, form.text_content);
    if v.len() > 0 {
        (s, Err(PublishErrorView::Validation(v)))
    } else if !key_is_valid(form.idempotency_key) {
        (s, Err(PublishErrorView::Validation(seq![key_error(form.idempotency_key)])))
    } else {
        let (s1, action) = begin_spec(s, caller, form.idempotency_key, now);
        match action {
            Err(e) => (s1, Err(PublishErrorView::Store(e))),
            Ok(ActionView::Replay(r)) => (s1, Ok(PublishOutcomeView::Respond(r))),
            Ok(ActionView::Wait) => (s1, Ok(PublishOutcomeView::Wait)),
            Ok(ActionView::Start(scope)) => {
                let issue = IssueView {
                    issue_id,
                    title: form.title,
                    text_content: form.text_content,
                    html_content: form.html_content,
                };
                let work = ScopeView { issue: Some(issue), deliveries: fan_out(subscribers), ..scope };
                let (s2, r) = commit_spec(s1, work, success_response());
                match r {
                    Ok(resp) => (s2, Ok(PublishOutcomeView::Respond(resp))),
                    Err(e) => (s2, Err(PublishErrorView::Store(e))),
                }
            },
        }
    }
}

/// Lists every empty field of the form, without stopping at the first.
pub fn validate_newsletter_issue(form: &FormData) -> (r: Result<(), Vec<String>>)
    ensures
        match r {
            Ok(()) => violations(form.title@, form.html_content@, form.text_content@).len() == 0,
            Err(v) => strings_view(v@) == violations(
                form.title@,
                form.html_content@,
                form.text_content@,
            ) && v@.len() > 0,
        },
{
    let mut violation_messages: Vec<String> = Vec::new();
    if form.title.as_str().is_empty() {
        violation_messages.push(String::from_str("Field title can't be empty"));
    }
    let ghost after_title = strings_view(violation_messages@);
    if form.html_content.as_str().is_empty() {
        violation_messages.push(String::from_str("Field HTML content can't be empty"));
    }
    let ghost after_html = strings_view(violation_messages@);
    if form.text_content.as_str().is_empty() {
        violation_messages.push(String::from_str("Field text content can't be empty"));
    }
    proof {
        let a: Seq<Seq<char>> = if form.title@.len() == 0 {
            seq!["Field title can't be empty"@]
        } else {
            seq![]
        };
        assert(after_title =~= a);
        let b: Seq<Seq<char>> = if form.html_content@.len() == 0 {
            seq!["Field HTML content can't be empty"@]
        } else {
            seq![]
        };
        assert(after_html =~= a + b);
        assert(strings_view(violation_messages@) =~= violations(
            form.title@,
            form.html_content@,
            form.text_content@,
        ));
    }
    if violation_messages.len() > 0 {
        return Err(violation_messages);
    }
    Ok(())
}

/// The message shown once an issue is published, or its saved response replayed.
pub fn success_message() -> (r: String)
    ensures
        r@ == "Newsletter sent successfully."@,
{
    String::from_str("Newsletter sent successfully.")
}

/// Publishes `form` on behalf of `caller` to `subscribers` at time `now`,
/// in seconds, storing the new issue under `issue_id`. Malformed addresses are skipped and appended to
/// `skipped`, so that the caller can report them; the rest receive one
/// delivery task each. A repeated key replays the saved response.
pub fn publish_newsletter_issue(
    store: &mut Store,
    caller: u128,
    form: FormData,
    subscribers: &Vec<String>,
    issue_id: u128,
    now: u64,
    skipped: &mut Vec<String>,
) -> (r: Result<PublishOutcome, PublishError>)
    requires
        old(store).wf(),
    ensures
        final(store).wf(),
        (final(store)@, publish_result_view(r)) == publish_spec(
            old(store)@,
            caller,
            form@,
            strings_view(subscribers@),
            issue_id,
            now,
        ),
        strings_view(final(skipped)@) == strings_view(old(skipped)@) + publish_skipped(
            old(store)@,
            caller,
            form@,
            strings_view(subscribers@),
            now,
        ),
{
    proof {
        assert(strings_view(skipped@) =~= strings_view(skipped@) + seq![]);
    }
    if let Err(v) = validate_newsletter_issue(&form) {
        return Err(PublishError::ValidationError(v));
    }
    let ghost fv = form@;
    let FormData { title, html_content, text_content, idempotency_key } = form;
    let key = match IdempotencyKey::parse(idempotency_key) {
        Ok(k) => k,
        Err(m) => {
            let v = vec![m];
            proof {
                assert(strings_view(v@) =~= seq![key_error(fv.idempotency_key)]);
            }
            return Err(PublishError::ValidationError(v));
        },
    };
    let mut scope = match store.try_processing(&key, caller, now) {
        Err(e) => {
            return Err(PublishError::TransientStoreError(e));
        },
        Ok(NextAction::ReturnSavedResponse(r)) => {
            return Ok(PublishOutcome::Respond(r));
        },
        Ok(NextAction::WaitForInFlight) => {
            return Ok(PublishOutcome::WaitForInFlight);
        },
        Ok(NextAction::StartProcessing(scope)) => scope,
    };
    let ghost start = scope@;
    let ghost skipped_before = strings_view(skipped@);
    scope.insert_issue(NewsletterIssue { issue_id, title, text_content, html_content });
    let ghost subs = strings_view(subscribers@);
    let mut i: usize = 0;
    while i < subscribers.len()
        invariant
            i <= subscribers.len(),
            subs == strings_view(subscribers@),
            scope.wf(),
            scope@ == (ScopeView {
                issue: Some(
                    IssueView {
                        issue_id,
                        title: fv.title,
                        text_content: fv.text_content,
                        html_content: fv.html_content,
                    },
                ),
                deliveries: fan_out(subs.subrange(0, i as int)),
                ..start
            }),
            strings_view(skipped@) == skipped_before + malformed(subs.subrange(0, i as int)),
        decreases subscribers.len() - i,
    {
        proof {
            assert(subs.subrange(0, i + 1).drop_last() =~= subs.subrange(0, i as int));
            assert(subs.subrange(0, i + 1).last() == subscribers@[i as int]@);
        }
        let ghost skipped_prev = strings_view(skipped@);
        match SubscriberEmail::parse(subscribers[i].clone()) {
            Ok(email) => scope.enqueue_delivery(email.into_string()),
            Err(_) => {
                skipped.push(subscribers[i].clone());
                proof {
                    assert(strings_view(skipped@) =~= skipped_prev.push(subscribers@[i as int]@));
                }
            },
        }
        i = i + 1;
    }
    proof {
        assert(subs.subrange(0, i as int) =~= subs);
        assert(skipped_before =~= strings_view(old(skipped)@));
    }
    let response = see_other("/admin/newsletters");
    match store.save_response(scope, response) {
        Ok(r) => Ok(PublishOutcome::Respond(r)),
        Err(e) => Err(PublishError::TransientStoreError(e)),
    }
}

/// Relies on uuid's `Uuid::new_v4`: a random version-4 identifier, read as
/// an integer.
#[verifier::external_body]
fn new_issue_id() -> (r: u128) {
    uuid::Uuid::new_v4().as_u128()
}

/// Publishes `form` under a freshly generated issue identifier; the outcome,
/// skipped addresses included, is that of `publish_newsletter_issue` for
/// that identifier.
pub fn publish_newsletter(
    store: &mut Store,
    caller: u128,
    form: FormData,
    subscribers: &Vec<String>,
    now: u64,
    skipped: &mut Vec<String>,
) -> (r: Result<PublishOutcome, PublishError>)
    requires
        old(store).wf(),
    ensures
        final(store).wf(),
        strings_view(final(skipped)@) == strings_view(old(skipped)@) + publish_skipped(
            old(store)@,
            caller,
            form@,
            strings_view(subscribers@),
            now,
        ),
        exists|issue_id: u128|
            (final(store)@, publish_result_view(r)) == publish_spec(
                old(store)@,
                caller,
                form@,
                strings_view(subscribers@),
                issue_id,
                now,
            ),
{
    let issue_id = new_issue_id();
    publish_newsletter_issue(store, caller, form, subscribers, issue_id, now, skipped)
}

} // verus!
