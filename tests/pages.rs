use zero2prod::confirmation::confirmation_email;
use zero2prod::errors::{error_chain_fmt, report_exit, TaskExit};
use zero2prod::pages::{flash_messages_html, login_error_html};
use zero2prod::routes::{auth_guard, confirm, log_out};
use zero2prod::{ConfirmError, QueryParams, SubscribeError, SubscriptionToken};

#[test]
fn login_error_is_shown_in_italics() {
    let q = QueryParams { error: Some("Authentication failed".to_string()) };
    assert_eq!(login_error_html(&q), "<p><i>Authentication failed</i></p>");
    assert_eq!(login_error_html(&QueryParams { error: None }), "");
}

#[test]
fn flash_messages_one_per_line() {
    let messages = vec!["Field title can't be empty".to_string(), "second".to_string()];
    assert_eq!(
        flash_messages_html(&messages),
        "<p><i>Field title can't be empty</i></p>\n<p><i>second</i></p>\n"
    );
    assert_eq!(flash_messages_html(&Vec::new()), "");
}

#[test]
fn subscribe_and_confirm_status_codes() {
    assert_eq!(SubscribeError::ValidationError("bad".to_string()).status_code(), 400);
    assert_eq!(SubscribeError::UnexpectedError("db".to_string()).status_code(), 500);
    assert_eq!(ConfirmError::UnauthorizedError.status_code(), 401);
    assert_eq!(ConfirmError::UnexpectedError("db".to_string()).status_code(), 500);
}

#[test]
fn error_chain_lists_every_cause() {
    let causes = vec!["Failed to acquire a connection".to_string(), "timed out".to_string()];
    assert_eq!(
        error_chain_fmt("Failed to store token", &causes),
        "Failed to store token\n\nCaused by:\n\tFailed to acquire a connection\nCaused by:\n\ttimed out\n"
    );
    assert_eq!(error_chain_fmt("alone", &Vec::new()), "alone\n\n");
}

#[test]
fn exit_reports() {
    assert_eq!(report_exit("API", TaskExit::Exited), "API has exited");
    assert_eq!(report_exit("Background worker", TaskExit::Failed), "Background worker failed");
    assert_eq!(report_exit("API", TaskExit::FailedToComplete), "API failed to complete");
}

#[test]
fn confirmation_email_carries_the_link() {
    let token = SubscriptionToken::parse("abcdefghijklmnopqrstuvwxy".to_string()).ok().unwrap();
    let email = confirmation_email("http://127.0.0.1", &token);
    let link = "http://127.0.0.1/subscriptions/confirm?subscription_token=abcdefghijklmnopqrstuvwxy";
    assert_eq!(email.subject, "Welcome");
    assert_eq!(
        email.html_body,
        format!("Welcome to our newsletter!<br />Click <a href=\"{}\">here</a> to confirm your subscription.", link)
    );
    assert_eq!(
        email.text_body,
        format!("Welcome to our newsletter!\nVisit {} to confirm your subscription.", link)
    );
}

#[test]
fn guard_redirects_anonymous_requests_to_login() {
    assert_eq!(auth_guard(Some(5)).ok(), Some(5));
    let resp = auth_guard(None).err().unwrap();
    assert_eq!(resp.status, 303);
    assert_eq!(resp.headers[0].name, "Location");
    assert_eq!(resp.headers[0].value, "/login");
}

#[test]
fn logout_says_goodbye_only_to_logged_in_users() {
    let (resp, message) = log_out(Some(1));
    assert_eq!(resp.headers[0].value, "/login");
    assert_eq!(message.as_deref(), Some("You have succesfully logged out."));
    let (resp, message) = log_out(None);
    assert_eq!(resp.status, 303);
    assert!(message.is_none());
}

#[test]
fn confirm_rejects_unknown_tokens() {
    assert_eq!(confirm(Some(9)).ok(), Some(9));
    let err = confirm(None).err().unwrap();
    assert!(matches!(err, ConfirmError::UnauthorizedError));
    assert_eq!(err.status_code(), 401);
}
