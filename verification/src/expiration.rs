//! Episodic memory expiration: the decision whether a memory file's expiry
//! timestamp has passed.  Timestamp parsing is `chrono`'s; the decision over
//! every possible parse is verified.

use vstd::prelude::*;

verus! {

/// The Unix timestamp an RFC 3339 string denotes, if it parses; a function
/// of the string alone.
pub uninterp spec fn rfc3339_timestamp(s: Seq<char>) -> Option<i64>;

/// The Unix timestamp of midnight (UTC) of a `YYYY-MM-DD` date string, if
/// it parses; a function of the string alone.
pub uninterp spec fn date_only_timestamp(s: Seq<char>) -> Option<i64>;

/// Relies on `chrono::DateTime::parse_from_rfc3339` and
/// `DateTime::timestamp`: an RFC 3339 timestamp as Unix seconds.
#[verifier::external_body]
fn parse_rfc3339_unix(s: &str) -> (r: Option<i64>)
    ensures
        r == rfc3339_timestamp(s@),
{
    chrono::DateTime::parse_from_rfc3339(s).ok().map(|d| d.timestamp())
}

/// Relies on `chrono::NaiveDate::parse_from_str` with `%Y-%m-%d` and
/// `NaiveDate::and_hms_opt`: a date-only expiry as Unix seconds at midnight
/// UTC.
#[verifier::external_body]
fn parse_date_unix(s: &str) -> (r: Option<i64>)
    ensures
        r == date_only_timestamp(s@),
{
    chrono::NaiveDate::parse_from_str(s, "%Y-%m-%d")
        .ok()
        .and_then(|d| d.and_hms_opt(0, 0, 0))
        .map(|dt| dt.and_utc().timestamp())
}

/// Whether an expiry string denotes a moment before `now`: an RFC 3339
/// timestamp is tried first, then the date-only form; an unparseable string
/// never expires a file.
pub open spec fn expired_spec(expires: Seq<char>, now_unix: i64) -> bool {
    match rfc3339_timestamp(expires) {
        Some(t) => t < now_unix,
        None => match date_only_timestamp(expires) {
            Some(t) => t < now_unix,
            None => false,
        },
    }
}

/// Decides whether a memory file should be pruned: only a file whose
/// frontmatter carries an expiry that lies in the past.
pub fn should_prune(expires: &Option<String>, now_unix: i64) -> (r: bool)
    ensures
        r == match expires {
            Some(e) => expired_spec(e@, now_unix),
            None => false,
        },
{
    let e = match expires {
        Some(e) => e,
        None => {
            return false;
        },
    };
    match parse_rfc3339_unix(e.as_str()) {
        Some(t) => t < now_unix,
        None => match parse_date_unix(e.as_str()) {
            Some(t) => t < now_unix,
            None => false,
        },
    }
}

} // verus!
