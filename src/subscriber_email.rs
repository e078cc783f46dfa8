use vstd::prelude::*;
use vstd::string::StringExecFns;

verus! {

/// Whether `s` is a well-formed email address.
pub uninterp spec fn email_is_valid(s: Seq<char>) -> bool;

/// Relies on `validator::validate_email`: whether `s` is a well-formed
/// address. Its source turns down at once a string that is empty or holds
/// no `@`.
#[verifier::external_body]
fn validate_email(s: &str) -> (r: bool)
    ensures
        r == email_is_valid(s@),
        s@.len() == 0 ==> !r,
        !s@.contains('@') ==> !r,
{
    validator::validate_email(s)
}

/// The message that rejects `s`.
pub open spec fn email_error(s: Seq<char>) -> Seq<char> {
    s + " is not a valid subscriber email"@
}

/// A subscriber's email address, checked to be well formed.
#[derive(Debug)]
pub struct SubscriberEmail(String);

impl View for SubscriberEmail {
    type V = Seq<char>;

    closed spec fn view(&self) -> Seq<char> {
        self.0@
    }
}

impl SubscriberEmail {
    /// Accepts `s` when it is a well-formed address.
    pub fn parse(s: String) -> (r: Result<SubscriberEmail, String>)
        ensures
            match r {
                Ok(e) => email_is_valid(s@) && e@ == s@,
                Err(m) => !email_is_valid(s@) && m@ == email_error(s@),
            },
            s@.len() == 0 ==> r is Err,
            !s@.contains('@') ==> r is Err,
    {
        if validate_email(s.as_str()) {
            Ok(SubscriberEmail(s))
        } else {
            Err(s.concat(" is not a valid subscriber email"))
        }
    }

    /// The address's text.
    pub fn as_ref(&self) -> (r: &str)
        ensures
            r@ == self@,
    {
        self.0.as_str()
    }

    /// The address, given back as a `String`.
    pub fn into_string(self) -> (r: String)
        ensures
            r@ == self@,
    {
        self.0
    }
}

} // verus!
