use vstd::prelude::*;
use vstd::string::{StrSliceExecFns, StringExecFns};
use crate::text::{byte_len, utf8_len};

verus! {

/// Keys must be shorter than this many bytes.
pub const MAX_KEY_LEN: usize = 50;

/// A character allowed in an idempotency key.
pub open spec fn key_char(c: char) -> bool {
    ('a' <= c <= 'z') || ('A' <= c <= 'Z') || ('0' <= c <= '9') || c == '-' || c == '_'
}

/// A well-formed idempotency key: not empty, shorter than `MAX_KEY_LEN`
/// bytes, made of ASCII letters, digits, `-` and `_`.
pub open spec fn key_is_valid(s: Seq<char>) -> bool {
    &&& s.len() > 0
    &&& utf8_len(s) < MAX_KEY_LEN
    &&& forall|i: int| 0 <= i < s.len() ==> key_char(#[trigger] s[i])
}

/// The message that rejects a malformed key, the first rule broken.
pub open spec fn key_error(s: Seq<char>) -> Seq<char> {
    if s.len() == 0 {
        "The idempotency key cannot be empty"@
    } else if utf8_len(s) >= MAX_KEY_LEN {
        "The idempotency key must be shorter than 50 characters"@
    } else {
        "The idempotency key may only hold ASCII letters, digits, '-' and '_'"@
    }
}

/// A caller-supplied token that identifies one logical publish request.
pub struct IdempotencyKey(String);

impl View for IdempotencyKey {
    type V = Seq<char>;

    closed spec fn view(&self) -> Seq<char> {
        self.0@
    }
}

impl IdempotencyKey {
    /// Checks the key's length and characters.
    pub fn parse(s: String) -> (r: Result<IdempotencyKey, String>)
        ensures
            match r {
                Ok(k) => key_is_valid(s@) && k@ == s@,
                Err(m) => !key_is_valid(s@) && m@ == key_error(s@),
            },
    {
        let n = s.as_str().unicode_len();
        if n == 0 {
            return Err(String::from_str("The idempotency key cannot be empty"));
        }
        if byte_len(&s) >= MAX_KEY_LEN {
            return Err(String::from_str("The idempotency key must be shorter than 50 characters"));
        }
        let mut i: usize = 0;
        while i < n
            invariant
                n == s@.len(),
                0 < n,
                utf8_len(s@) < MAX_KEY_LEN,
                i <= n,
                forall|k: int| 0 <= k < i ==> key_char(#[trigger] s@[k]),
            decreases n - i,
        {
            let c = s.as_str().get_char(i);
            assert(c == s@[i as int]);
            if !(('a' <= c && c <= 'z') || ('A' <= c && c <= 'Z') || ('0' <= c && c <= '9') || c
                == '-' || c == '_') {
                return Err(
                    String::from_str(
                        "The idempotency key may only hold ASCII letters, digits, '-' and '_'",
                    ),
                );
            }
            i = i + 1;
        }
        Ok(IdempotencyKey(s))
    }

    /// The key's text.
    pub fn as_ref(&self) -> (r: &str)
        ensures
            r@ == self@,
    {
        self.0.as_str()
    }
}

} // verus!
