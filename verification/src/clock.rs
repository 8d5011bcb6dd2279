//! The current time and random suffixes, which the ids and time stamps of
//! tasks are made of.
use vstd::prelude::*;
use rand::Rng;

verus! {

/// An ASCII letter or digit: what `rand`'s `Alphanumeric` distribution
/// draws from (`A`–`Z`, `a`–`z`, `0`–`9`).
pub open spec fn is_ascii_alphanumeric(c: char) -> bool {
    ('0' <= c <= '9') || ('A' <= c <= 'Z') || ('a' <= c <= 'z')
}

/// `chrono::Utc::now().to_rfc3339()`: the current time as RFC 3339 text.
/// It depends on the clock, so nothing is stated of it.
#[verifier::external_body]
pub(crate) fn now_rfc3339() -> (r: String) {
    chrono::Utc::now().to_rfc3339()
}

/// `chrono::Utc::now().timestamp_millis()`: the milliseconds since the Unix
/// epoch. It depends on the clock, so nothing is stated of it.
#[verifier::external_body]
pub(crate) fn now_millis() -> (r: i64) {
    chrono::Utc::now().timestamp_millis()
}

/// `chrono::Utc::now().format("%Y%m%d%H%M%S")`: the current time as
/// fourteen digits. It depends on the clock, so nothing is stated of it.
#[verifier::external_body]
pub(crate) fn now_compact_time() -> (r: String) {
    chrono::Utc::now().format("%Y%m%d%H%M%S").to_string()
}

/// `len` characters drawn by `rand::thread_rng()` from the `Alphanumeric`
/// distribution. Claimed: the length, and that each character is an ASCII
/// letter or digit (the distribution's alphabet); which ones come is chance.
#[verifier::external_body]
pub(crate) fn random_alphanumeric(len: usize) -> (r: String)
    ensures
        r@.len() == len,
        forall|i: int| 0 <= i < len ==> is_ascii_alphanumeric(#[trigger] r@[i]),
{
    rand::thread_rng().sample_iter(&rand::distributions::Alphanumeric).take(len).map(char::from).collect()
}

}
