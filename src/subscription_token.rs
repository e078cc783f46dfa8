use rand::Rng;
use vstd::prelude::*;
use vstd::string::StringExecFns;
use crate::store::strings_view;
use crate::text::{ascii_alnum, byte_len, lemma_ascii_utf8_len, utf8_len};

verus! {

/// Length in bytes of every subscription token.
pub const SUBSCRIPTION_TOKEN_SIZE: usize = 25;

/// Whether `c` is alphabetic or numeric in Unicode's sense.
pub uninterp spec fn alphanumeric(c: char) -> bool;

/// Relies on `char::is_alphanumeric`: `c` has Unicode's Alphabetic or
/// Numeric property, which every ASCII letter and digit has.
#[verifier::external_body]
fn is_alphanumeric(c: char) -> (r: bool)
    ensures
        r == alphanumeric(c),
        ascii_alnum(c) ==> r,
{
    c.is_alphanumeric()
}

/// Relies on rand's `Alphanumeric` distribution, sampled from `thread_rng`:
/// one ASCII letter or digit, drawn at random.
#[verifier::external_body]
fn random_alphanumeric() -> (r: String)
    ensures
        r@.len() == 1,
        ascii_alnum(r@[0]),
{
    let b: u8 = rand::thread_rng().sample(rand::distributions::Alphanumeric);
    String::from(char::from(b))
}

/// Every character of `s` is alphanumeric.
pub open spec fn all_alphanumeric(s: Seq<char>) -> bool {
    forall|i: int| 0 <= i < s.len() ==> alphanumeric(#[trigger] s[i])
}

/// A well-formed token: alphanumeric characters, `SUBSCRIPTION_TOKEN_SIZE` bytes.
pub open spec fn token_is_valid(s: Seq<char>) -> bool {
    all_alphanumeric(s) && utf8_len(s) == SUBSCRIPTION_TOKEN_SIZE
}

/// The message that rejects `s`, naming the rule it breaks when it breaks one.
pub open spec fn token_error(s: Seq<char>) -> Seq<char> {
    if all_alphanumeric(s) {
        s + " is not a valid subscription token: incorrect size"@
    } else if utf8_len(s) == SUBSCRIPTION_TOKEN_SIZE {
        s + " is not a valid subscription token: invalid characters"@
    } else {
        s + " is not a valid subscription token"@
    }
}

/// The strings of `draws` put end to end.
pub open spec fn joined(draws: Seq<Seq<char>>) -> Seq<char>
    decreases draws.len(),
{
    if draws.len() == 0 {
        seq![]
    } else {
        joined(draws.drop_last()) + draws.last()
    }
}

/// Strings of one character each, put end to end, keep one character per string.
pub proof fn lemma_joined_singletons(draws: Seq<Seq<char>>)
    requires
        forall|i: int| 0 <= i < draws.len() ==> (#[trigger] draws[i]).len() == 1,
    ensures
        joined(draws).len() == draws.len(),
        forall|i: int| 0 <= i < draws.len() ==> #[trigger] joined(draws)[i] == draws[i][0],
    decreases draws.len(),
{
    if draws.len() > 0 {
        let prev = draws.drop_last();
        assert forall|i: int| 0 <= i < prev.len() implies (#[trigger] prev[i]).len() == 1 by {
            assert(prev[i] == draws[i]);
        }
        lemma_joined_singletons(prev);
        assert(draws.last().len() == 1);
        assert forall|i: int| 0 <= i < draws.len() implies #[trigger] joined(draws)[i] == draws[i][0] by {
            if i < prev.len() {
                assert(joined(draws)[i] == joined(prev)[i]);
                assert(prev[i] == draws[i]);
            }
        }
    }
}

/// The token that confirms a pending subscription.
#[derive(Debug)]
pub struct SubscriptionToken(String);

impl View for SubscriptionToken {
    type V = Seq<char>;

    closed spec fn view(&self) -> Seq<char> {
        self.0@
    }
}

fn check_all_alphanumeric(token: &String) -> (r: bool)
    ensures
        r == all_alphanumeric(token@),
        (forall|i: int| 0 <= i < token@.len() ==> ascii_alnum(#[trigger] token@[i])) ==> r,
{
    let mut all = true;
    for c in it: token.as_str().chars()
        invariant
            it.seq() == token@,
            all == (forall|i: int| 0 <= i < it.index() ==> alphanumeric(#[trigger] token@[i])),
            forall|i: int|
                0 <= i < it.index() && ascii_alnum(#[trigger] token@[i]) ==> alphanumeric(token@[i]),
    {
        if !is_alphanumeric(c) {
            all = false;
        }
    }
    all
}

impl SubscriptionToken {
    /// Accepts a token of `SUBSCRIPTION_TOKEN_SIZE` bytes, all alphanumeric.
    pub fn parse(token: String) -> (r: Result<SubscriptionToken, String>)
        ensures
            match r {
                Ok(t) => token_is_valid(token@) && t@ == token@,
                Err(m) => !token_is_valid(token@) && m@ == token_error(token@),
            },
            (forall|i: int| 0 <= i < token@.len() ==> ascii_alnum(#[trigger] token@[i]))
                && utf8_len(token@) == SUBSCRIPTION_TOKEN_SIZE ==> r is Ok,
    {
        let alnum = check_all_alphanumeric(&token);
        let right_size = byte_len(&token) == SUBSCRIPTION_TOKEN_SIZE;
        if alnum && right_size {
            Ok(SubscriptionToken(token))
        } else if alnum {
            Err(token.concat(" is not a valid subscription token: incorrect size"))
        } else if right_size {
            Err(token.concat(" is not a valid subscription token: invalid characters"))
        } else {
            Err(token.concat(" is not a valid subscription token"))
        }
    }

    /// The token spelled by `draws`, one drawn string after the other.
    pub fn token_from_draws(draws: &Vec<String>) -> (t: SubscriptionToken)
        ensures
            t@ == joined(strings_view(draws@)),
    {
        let ghost ds = strings_view(draws@);
        let mut token = String::new();
        let mut n: usize = 0;
        while n < draws.len()
            invariant
                n <= draws.len(),
                ds == strings_view(draws@),
                token@ == joined(ds.subrange(0, n as int)),
            decreases draws.len() - n,
        {
            proof {
                assert(ds.subrange(0, n + 1).drop_last() =~= ds.subrange(0, n as int));
            }
            token.append(draws[n].as_str());
            n = n + 1;
        }
        proof {
            assert(ds.subrange(0, n as int) =~= ds);
        }
        SubscriptionToken(token)
    }

    /// A fresh random token of `SUBSCRIPTION_TOKEN_SIZE` ASCII letters and
    /// digits, each drawn at random.
    pub fn generate_subscription_token() -> (t: SubscriptionToken)
        ensures
            t@.len() == SUBSCRIPTION_TOKEN_SIZE,
            utf8_len(t@) == SUBSCRIPTION_TOKEN_SIZE,
            forall|i: int| 0 <= i < t@.len() ==> ascii_alnum(#[trigger] t@[i]),
    {
        let mut draws: Vec<String> = Vec::new();
        while draws.len() < SUBSCRIPTION_TOKEN_SIZE
            invariant
                draws.len() <= SUBSCRIPTION_TOKEN_SIZE,
                forall|i: int|
                    0 <= i < draws.len() ==> (#[trigger] draws@[i])@.len() == 1 && ascii_alnum(
                        draws@[i]@[0],
                    ),
            decreases SUBSCRIPTION_TOKEN_SIZE - draws.len(),
        {
            draws.push(random_alphanumeric());
        }
        let t = SubscriptionToken::token_from_draws(&draws);
        proof {
            let ds = strings_view(draws@);
            lemma_joined_singletons(ds);
            assert forall|i: int| 0 <= i < t@.len() implies ascii_alnum(#[trigger] t@[i]) by {
                assert(ds[i] == draws@[i]@);
            }
            lemma_ascii_utf8_len(t@);
        }
        t
    }

    /// The token's text.
    pub fn as_ref(&self) -> (r: &str)
        ensures
            r@ == self@,
    {
        self.0.as_str()
    }
}

} // verus!
