use vstd::prelude::*;
use vstd::string::StringExecFns;
use crate::text::{byte_len, utf8_len};

verus! {

/// Fewest bytes a password may have.
pub const MIN_PASSWORD_LEN: usize = 12;

/// Most bytes a password may have.
pub const MAX_PASSWORD_LEN: usize = 128;

/// A candidate password whose length is within the accepted bounds.
pub struct Password(String);

/// Why a candidate password was refused.
#[derive(Debug, Clone, Copy, PartialEq, Eq, Structural)]
pub enum PasswordError {
    TooShort,
    TooLong,
}

impl View for Password {
    type V = Seq<char>;

    closed spec fn view(&self) -> Seq<char> {
        self.0@
    }
}

impl Password {
    /// Accepts `s` when its UTF-8 length lies in `MIN_PASSWORD_LEN..=MAX_PASSWORD_LEN`.
    pub fn parse(s: String) -> (r: Result<Password, PasswordError>)
        ensures
            match r {
                Ok(p) => MIN_PASSWORD_LEN <= utf8_len(s@) <= MAX_PASSWORD_LEN && p@ == s@,
                Err(PasswordError::TooShort) => utf8_len(s@) < MIN_PASSWORD_LEN,
                Err(PasswordError::TooLong) => utf8_len(s@) > MAX_PASSWORD_LEN,
            },
    {
        let password_len = byte_len(&s);
        if password_len < MIN_PASSWORD_LEN {
            return Err(PasswordError::TooShort);
        } else if password_len > MAX_PASSWORD_LEN {
            return Err(PasswordError::TooLong);
        }
        Ok(Password(s))
    }

    /// Wipes the password's text.
    pub fn zeroize(&mut self)
        ensures
            final(self)@ == Seq::<char>::empty(),
    {
        self.0 = String::new();
    }

    /// The password's text.
    pub fn as_ref(&self) -> (r: &str)
        ensures
            r@ == self@,
    {
        self.0.as_str()
    }
}

/// The message that turns a new password down, by the first rule it breaks.
pub open spec fn new_password_error(new_password: Seq<char>, check: Seq<char>) -> Seq<char> {
    if new_password != check {
        "You entered two different passwords - the field values must match."@
    } else if utf8_len(new_password) < MIN_PASSWORD_LEN {
        "The new password must be at least 12 characters long."@
    } else {
        "The new password must be at most 128 characters long."@
    }
}

/// Checks a password change form: the new password is typed twice alike,
/// and its length is accepted.
pub fn validate_new_password(new_password: String, new_password_check: &String) -> (r: Result<
    Password,
    String,
>)
    ensures
        match r {
            Ok(p) => new_password@ == new_password_check@ && MIN_PASSWORD_LEN <= utf8_len(
                new_password@,
            ) <= MAX_PASSWORD_LEN && p@ == new_password@,
            Err(m) => m@ == new_password_error(new_password@, new_password_check@) && !(
            new_password@ == new_password_check@ && MIN_PASSWORD_LEN <= utf8_len(new_password@)
                <= MAX_PASSWORD_LEN),
        },
{
    if new_password != *new_password_check {
        return Err(
            String::from_str("You entered two different passwords - the field values must match."),
        );
    }
    match Password::parse(new_password) {
        Ok(password) => Ok(password),
        Err(PasswordError::TooShort) => Err(
            String::from_str("The new password must be at least 12 characters long."),
        ),
        Err(PasswordError::TooLong) => Err(
            String::from_str("The new password must be at most 128 characters long."),
        ),
    }
}

} // verus!
