use vstd::prelude::*;
use vstd::string::*;

use crate::error::ConfigError;
use crate::models::Timestamp;
use crate::text::{ascii_ci_eq, same_text_ascii_ci, trimmed};

verus! {

pub const SECS_PER_DAY: i64 = 86400;

/// The first second (UTC) of the date that `text` names in `YYYY-MM-DD`
/// form, or `None` where it names none.
pub uninterp spec fn date_start_of(text: Seq<char>) -> Option<i64>;

/// Relies on `chrono::NaiveDate::parse_from_str` with format `%Y-%m-%d`: the
/// date is taken at 00:00:00 UTC and given as seconds since the epoch.
#[verifier::external_body]
fn parse_date_start(text: &str) -> (r: Option<i64>)
    ensures
        r == date_start_of(text@),
        r matches Some(t) ==> t % SECS_PER_DAY == 0,
{
    chrono::NaiveDate::parse_from_str(text, "%Y-%m-%d").ok().map(
        |d| d.and_time(chrono::NaiveTime::MIN).and_utc().timestamp(),
    )
}

/// Relies on `chrono::Utc::now`: the first second of the current UTC date,
/// which is a whole number of days after the epoch.
#[verifier::external_body]
pub(crate) fn utc_today_start() -> (r: i64)
    ensures
        r % SECS_PER_DAY == 0,
{
    chrono::Utc::now().date_naive().and_time(chrono::NaiveTime::MIN).and_utc().timestamp()
}

/// The first second of the day that one side of a time range names, with
/// `today` the first second of the current date: a relative keyword in any
/// ASCII case, or a literal date.
pub open spec fn day_start_named(word: Seq<char>, today: i64) -> Option<int> {
    if ascii_ci_eq(word, "yesterday"@) {
        Some(today - SECS_PER_DAY)
    } else if ascii_ci_eq(word, "today"@) {
        Some(today as int)
    } else if ascii_ci_eq(word, "tomorrow"@) {
        Some(today + SECS_PER_DAY)
    } else {
        match date_start_of(word) {
            Some(d) => Some(d as int),
            None => None,
        }
    }
}

pub open spec fn fits_i64(x: int) -> bool {
    i64::MIN <= x <= i64::MAX
}

/// The bound that one trimmed side of a time range gives: none where it is
/// empty; else the start (00:00:00) or, for the end side, the last second
/// (23:59:59) of the day it names.
pub open spec fn bound_of(word: Seq<char>, today: i64, is_end: bool) -> Result<Option<Timestamp>, ConfigError> {
    if word.len() == 0 {
        Ok(None)
    } else {
        match day_start_named(word, today) {
            None => Err(ConfigError::InvalidTimeRange),
            Some(d) => {
                let t = if is_end { d + SECS_PER_DAY - 1 } else { d };
                if fits_i64(d) && fits_i64(t) {
                    Ok(Some(Timestamp { secs: t as i64 }))
                } else {
                    Err(ConfigError::InvalidTimeRange)
                }
            },
        }
    }
}

/// A start bound falls on the first second of a day and an end bound on the
/// last.
pub open spec fn day_aligned(start: Option<Timestamp>, end: Option<Timestamp>) -> bool {
    &&& (start matches Some(s) ==> s.secs % SECS_PER_DAY == 0)
    &&& (end matches Some(e) ==> e.secs % SECS_PER_DAY == SECS_PER_DAY - 1)
}

proof fn lemma_day_offsets(d: int)
    ensures
        d % 86400 == 0 ==> (d - 86400) % 86400 == 0,
        d % 86400 == 0 ==> (d + 86400) % 86400 == 0,
        d % 86400 == 0 ==> (d + 86399) % 86400 == 86399,
{
    assert(d % 86400 == 0 ==> (d - 86400) % 86400 == 0 && (d + 86400) % 86400 == 0
        && (d + 86399) % 86400 == 86399) by (nonlinear_arith);
}

/// `k` is the position of the one `~` in `text`.
pub open spec fn sole_tilde_at(text: Seq<char>, k: int) -> bool {
    &&& 0 <= k < text.len()
    &&& text[k] == '~'
    &&& forall|j: int| 0 <= j < text.len() && j != k ==> text[j] != '~'
}

/// The bounds that a `<start> ~ <end>` expression gives.
pub open spec fn time_range_of(text: Seq<char>, today: i64) -> Result<(Option<Timestamp>, Option<Timestamp>), ConfigError> {
    if exists|k: int| sole_tilde_at(text, k) {
        let k = choose|k: int| sole_tilde_at(text, k);
        let start = bound_of(trimmed(text.subrange(0, k)), today, false);
        let end = bound_of(trimmed(text.subrange(k + 1, text.len() as int)), today, true);
        match (start, end) {
            (Ok(s), Ok(e)) => Ok((s, e)),
            (Err(e), _) => Err(e),
            (Ok(_), Err(e)) => Err(e),
        }
    } else {
        Err(ConfigError::InvalidTimeRange)
    }
}

pub(crate) fn day_start(word: &str, today: i64) -> (r: Option<i64>)
    ensures
        r matches Some(x) ==> (today % SECS_PER_DAY == 0 ==> x % SECS_PER_DAY == 0),
        match day_start_named(word@, today) {
            Some(d) => fits_i64(d) ==> r == Some(d as i64),
            None => r is None,
        },
        r matches Some(x) ==> day_start_named(word@, today) == Some(x as int),
{
    proof {
        lemma_day_offsets(today as int);
    }
    if same_text_ascii_ci(word, "yesterday") {
        today.checked_sub(SECS_PER_DAY)
    } else if same_text_ascii_ci(word, "today") {
        Some(today)
    } else if same_text_ascii_ci(word, "tomorrow") {
        today.checked_add(SECS_PER_DAY)
    } else {
        parse_date_start(word)
    }
}

pub(crate) fn parse_bound(word: &str, today: i64, is_end: bool) -> (r: Result<Option<Timestamp>, ConfigError>)
    requires
        today % SECS_PER_DAY == 0,
    ensures
        r == bound_of(word@, today, is_end),
        r matches Ok(Some(t)) ==> t.secs % SECS_PER_DAY == if is_end { SECS_PER_DAY - 1 } else { 0 },
{
    if word.unicode_len() == 0 {
        return Ok(None);
    }
    match day_start(word, today) {
        None => Err(ConfigError::InvalidTimeRange),
        Some(d) => {
            if is_end {
                proof {
                    lemma_day_offsets(d as int);
                }
                match d.checked_add(SECS_PER_DAY - 1) {
                    Some(t) => Ok(Some(Timestamp { secs: t })),
                    None => Err(ConfigError::InvalidTimeRange),
                }
            } else {
                Ok(Some(Timestamp { secs: d }))
            }
        },
    }
}

} // verus!
