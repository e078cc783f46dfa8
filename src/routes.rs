//! The decisions of the session and confirmation handlers; reading the
//! session and the database is left to their callers.
use vstd::prelude::*;
use vstd::string::StringExecFns;
use crate::errors::ConfirmError;
use crate::http::{see_other, see_other_view, HttpResponse};

verus! {

/// Lets the request through for the logged-in user `user_id`; without one,
/// sends the browser to the login page.
pub fn auth_guard(user_id: Option<u128>) -> (r: Result<u128, HttpResponse>)
    ensures
        match user_id {
            Some(id) => r matches Ok(x) && x == id,
            None => r matches Err(resp) && resp@ == see_other_view("/login"@),
        },
{
    match user_id {
        Some(id) => Ok(id),
        None => Err(see_other("/login")),
    }
}

/// What a logout request does: always back to the login page, with a
/// farewell message only when somebody was logged in (whose session the
/// caller then ends).
pub fn log_out(user_id: Option<u128>) -> (r: (HttpResponse, Option<String>))
    ensures
        r.0@ == see_other_view("/login"@),
        match user_id {
            Some(_) => r.1 matches Some(m) && m@ == "You have succesfully logged out."@,
            None => r.1 is None,
        },
{
    match user_id {
        None => (see_other("/login"), None),
        Some(_) => (see_other("/login"), Some(String::from_str("You have succesfully logged out."))),
    }
}

/// The subscriber that a confirmation link names, or an authorization
/// error when the token matches nobody.
pub fn confirm(subscriber_id: Option<u128>) -> (r: Result<u128, ConfirmError>)
    ensures
        match subscriber_id {
            Some(id) => r matches Ok(x) && x == id,
            None => r matches Err(ConfirmError::UnauthorizedError),
        },
{
    match subscriber_id {
        Some(id) => Ok(id),
        None => Err(ConfirmError::UnauthorizedError),
    }
}

} // verus!
