use vstd::prelude::*;
use vstd::utf8::encode_utf8;

verus! {

/// Number of bytes that `s` takes in UTF-8, which is what `str::len` reports.
pub open spec fn utf8_len(s: Seq<char>) -> nat {
    encode_utf8(s).len()
}

/// Byte length of a string, as the library's length rules count it.
pub fn byte_len(s: &String) -> (n: usize)
    ensures
        n == utf8_len(s@),
{
    s.as_str().as_bytes().len()
}

/// An ASCII letter or digit.
pub open spec fn ascii_alnum(c: char) -> bool {
    ('a' <= c <= 'z') || ('A' <= c <= 'Z') || ('0' <= c <= '9')
}

/// A string of ASCII letters and digits takes one byte per character.
pub proof fn lemma_ascii_utf8_len(s: Seq<char>)
    requires
        forall|i: int| 0 <= i < s.len() ==> ascii_alnum(#[trigger] s[i]),
    ensures
        utf8_len(s) == s.len(),
    decreases s.len(),
{
    if s.len() > 0 {
        let rest = s.drop_first();
        assert forall|i: int| 0 <= i < rest.len() implies ascii_alnum(#[trigger] rest[i]) by {
            assert(rest[i] == s[i + 1]);
        }
        lemma_ascii_utf8_len(rest);
        assert(ascii_alnum(s[0]));
        assert((s[0] as u32) < 0x80);
    }
}

} // verus!
