//! Classification of API and watch failures, and the watch rebuild backoff.
use vstd::prelude::*;

use crate::text::{contains_seq, str_contains};

verus! {

/// How a failed API call should be treated.
#[derive(PartialEq, Eq, Structural, Clone, Copy, Debug)]
pub enum ApiErrorDisposition {
    NotFound,
    Retryable,
    Permanent,
}

/// The disposition of an HTTP status code: 404 is `NotFound`, 429 and 5xx are
/// `Retryable`, everything else is `Permanent`.
pub open spec fn spec_classify_status(code: u16) -> ApiErrorDisposition {
    if code == 404 {
        ApiErrorDisposition::NotFound
    } else if code == 429 || (500 <= code && code <= 599) {
        ApiErrorDisposition::Retryable
    } else {
        ApiErrorDisposition::Permanent
    }
}

/// Classifies an API status code.
pub fn classify_status(code: u16) -> (r: ApiErrorDisposition)
    ensures
        r == spec_classify_status(code),
{
    match code {
        404 => ApiErrorDisposition::NotFound,
        429 | 500..=599 => ApiErrorDisposition::Retryable,
        _ => ApiErrorDisposition::Permanent,
    }
}

/// `s` contains at least one of `needles`.
pub open spec fn contains_any(s: Seq<char>, needles: Seq<Seq<char>>) -> bool {
    exists|i: int| 0 <= i < needles.len() && contains_seq(s, needles[i])
}

/// Whether `s` contains any of `needles`.
pub fn matches_status_str(s: &str, needles: &[&str]) -> (r: bool)
    ensures
        r == contains_any(s@, needles@.map_values(|n: &str| n@)),
{
    let n = needles.len();
    for i in 0..n
        invariant
            n == needles@.len(),
            forall|j: int| 0 <= j < i ==> !contains_seq(s@, #[trigger] needles@[j]@),
    {
        if str_contains(s, needles[i]) {
            assert(needles@.map_values(|n: &str| n@)[i as int] == needles@[i as int]@);
            return true;
        }
    }
    proof {
        let m = needles@.map_values(|n: &str| n@);
        assert forall|j: int| 0 <= j < m.len() implies !contains_seq(s@, m[j]) by {
            assert(m[j] == needles@[j]@);
        }
    }
    false
}

/// Some message in an error's source chain (outermost first) contains one of `needles`.
pub open spec fn chain_matches(chain: Seq<String>, needles: Seq<Seq<char>>) -> bool {
    exists|i: int| 0 <= i < chain.len() && contains_any(chain[i]@, needles)
}

/// Whether any message in an error's source chain contains one of `needles`.
pub fn matches_status(chain: &[String], needles: &[&str]) -> (r: bool)
    ensures
        r == chain_matches(chain@, needles@.map_values(|n: &str| n@)),
{
    let n = chain.len();
    for i in 0..n
        invariant
            n == chain@.len(),
            forall|j: int|
                0 <= j < i ==> !contains_any(
                    #[trigger] chain@[j]@,
                    needles@.map_values(|n: &str| n@),
                ),
    {
        if matches_status_str(chain[i].as_str(), needles) {
            return true;
        }
    }
    false
}

/// The needles that mark an authentication failure (HTTP 401).
pub open spec fn auth_needles() -> Seq<Seq<char>> {
    seq!["Unauthorized"@, "401"@]
}

/// The needles that mark an authorization failure (HTTP 403).
pub open spec fn forbidden_needles() -> Seq<Seq<char>> {
    seq!["Forbidden"@, "403"@]
}

/// Whether a watch failure, given as its stringified source chain, is an
/// authentication failure: the token rotated and the watch must be rebuilt.
pub fn is_auth_error(chain: &[String]) -> (r: bool)
    ensures
        r == chain_matches(chain@, auth_needles()),
{
    let needles: [&str; 2] = ["Unauthorized", "401"];
    let r = matches_status(chain, &needles);
    assert(needles@.map_values(|n: &str| n@) =~= auth_needles());
    r
}

/// Whether a watch failure, given as its stringified source chain, is an
/// authorization failure: retrying can never succeed.
pub fn is_forbidden_error(chain: &[String]) -> (r: bool)
    ensures
        r == chain_matches(chain@, forbidden_needles()),
{
    let needles: [&str; 2] = ["Forbidden", "403"];
    let r = matches_status(chain, &needles);
    assert(needles@.map_values(|n: &str| n@) =~= forbidden_needles());
    r
}

/// Whole seconds of the rebuild backoff for `attempt`: 1, 2, 4, 8, 16, then 30.
pub open spec fn backoff_secs(attempt: u32) -> nat {
    if attempt == 0 {
        1
    } else if attempt == 1 {
        2
    } else if attempt == 2 {
        4
    } else if attempt == 3 {
        8
    } else if attempt == 4 {
        16
    } else {
        30
    }
}

/// The rebuild backoff starts at one second, doubles with each attempt, and
/// never exceeds 30 seconds, which it stays at: it never shrinks as attempts
/// go on.
pub proof fn lemma_backoff_doubles_to_cap(a: u32, b: u32)
    ensures
        1 <= backoff_secs(a) <= 30,
        a <= b ==> backoff_secs(a) <= backoff_secs(b),
        a < 4 ==> backoff_secs((a + 1) as u32) == 2 * backoff_secs(a),
        a >= 5 ==> backoff_secs(a) == 30,
        backoff_secs(0) == 1,
{
}

/// The rebuild backoff in milliseconds for `attempt`, plus `jitter_ms` of jitter.
pub fn backoff_millis(attempt: u32, jitter_ms: u64) -> (r: u64)
    requires
        jitter_ms < 1000,
    ensures
        r == backoff_secs(attempt) * 1000 + jitter_ms,
{
    let capped: u32 = if attempt < 5 {
        attempt
    } else {
        5
    };
    let exp: u64 = 1u64 << capped;
    proof {
        if capped == 0 {
            assert(1u64 << capped == 1) by (bit_vector) requires capped == 0u32;
        } else if capped == 1 {
            assert(1u64 << capped == 2) by (bit_vector) requires capped == 1u32;
        } else if capped == 2 {
            assert(1u64 << capped == 4) by (bit_vector) requires capped == 2u32;
        } else if capped == 3 {
            assert(1u64 << capped == 8) by (bit_vector) requires capped == 3u32;
        } else if capped == 4 {
            assert(1u64 << capped == 16) by (bit_vector) requires capped == 4u32;
        } else {
            assert(1u64 << capped == 32) by (bit_vector) requires capped == 5u32;
        }
    }
    let secs = if exp < 30 {
        exp
    } else {
        30
    };
    secs * 1000 + jitter_ms
}

/// The sub-second milliseconds of the wall clock, used as reconnect jitter.
#[verifier::external_body]
fn clock_jitter_millis() -> (r: u64)
    ensures
        r < 1000,
{
    std::time::SystemTime::now().duration_since(std::time::UNIX_EPOCH).map(|d| u64::from(
        d.subsec_millis(),
    )).unwrap_or(0)
}

/// The `Duration` of `ms` milliseconds.
pub uninterp spec fn duration_of_millis(ms: u64) -> std::time::Duration;

/// `Duration::from_millis`.
#[verifier::external_body]
fn duration_from_millis(ms: u64) -> (d: std::time::Duration)
    ensures
        d == duration_of_millis(ms),
{
    std::time::Duration::from_millis(ms)
}

/// Backoff before retrying or rebuilding a watch stream: 1, 2, 4, 8, 16, then 30
/// seconds, plus under a second of jitter from the clock so informers do not
/// reconnect in lockstep.
pub fn rebuild_backoff(attempt: u32) -> (d: std::time::Duration)
    ensures
        exists|j: u64| j < 1000 && d == #[trigger] duration_of_millis((backoff_secs(attempt) * 1000 + j) as u64),
{
    let jitter = clock_jitter_millis();
    let ms = backoff_millis(attempt, jitter);
    let d = duration_from_millis(ms);
    assert(ms == (backoff_secs(attempt) * 1000 + jitter) as u64);
    assert(d == duration_of_millis((backoff_secs(attempt) * 1000 + jitter) as u64));
    d
}

} // verus!
