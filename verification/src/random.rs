//! Random tokens.

use rand::distributions::DistString;
use vstd::prelude::*;

verus! {

/// An ASCII letter or digit.
pub open spec fn is_alphanumeric(c: char) -> bool {
    ||| 'a' <= c <= 'z'
    ||| 'A' <= c <= 'Z'
    ||| '0' <= c <= '9'
}

/// A text of `n` ASCII letters and digits.
pub open spec fn is_token(s: Seq<char>, n: nat) -> bool {
    &&& s.len() == n
    &&& forall|i: int| 0 <= i < s.len() ==> is_alphanumeric(#[trigger] s[i])
}

/// `rand::distributions::DistString::sample_string` of `Alphanumeric`, with the
/// thread's generator: `n` ASCII letters and digits. Which ones is left to
/// chance.
#[verifier::external_body]
pub(crate) fn random_token(n: usize) -> (r: String)
    ensures
        is_token(r@, n as nat),
{
    rand::distributions::Alphanumeric.sample_string(&mut rand::thread_rng(), n)
}

} // verus!
