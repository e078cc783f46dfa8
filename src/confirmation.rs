//! The email that asks a new subscriber to confirm the subscription.
use vstd::prelude::*;
use vstd::string::StringExecFns;
use crate::subscription_token::SubscriptionToken;

verus! {

/// Subject and bodies of a confirmation email.
pub struct ConfirmationEmail {
    pub subject: String,
    pub html_body: String,
    pub text_body: String,
}

/// The link that confirms the subscription holding `token`.
pub open spec fn confirmation_link(base_url: Seq<char>, token: Seq<char>) -> Seq<char> {
    base_url + "/subscriptions/confirm?subscription_token="@ + token
}

/// Builds the confirmation email for the subscription holding `token`,
/// served from `base_url`.
pub fn confirmation_email(base_url: &str, token: &SubscriptionToken) -> (r: ConfirmationEmail)
    ensures
        r.subject@ == "Welcome"@,
        r.html_body@ == "Welcome to our newsletter!<br />Click <a href=\""@ + confirmation_link(
            base_url@,
            token@,
        ) + "\">here</a> to confirm your subscription."@,
        r.text_body@ == "Welcome to our newsletter!\nVisit "@ + confirmation_link(base_url@, token@)
            + " to confirm your subscription."@,
{
    let link = String::from_str(base_url);
    let link = link.concat("/subscriptions/confirm?subscription_token=");
    let link = link.concat(token.as_ref());
    let html_body = String::from_str("Welcome to our newsletter!<br />Click <a href=\"");
    let html_body = html_body.concat(link.as_str());
    let html_body = html_body.concat("\">here</a> to confirm your subscription.");
    let text_body = String::from_str("Welcome to our newsletter!\nVisit ");
    let text_body = text_body.concat(link.as_str());
    let text_body = text_body.concat(" to confirm your subscription.");
    ConfirmationEmail { subject: String::from_str("Welcome"), html_body, text_body }
}

} // verus!
