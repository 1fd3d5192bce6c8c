//! What became of a run.
use crate::error_category::{categorize_error, category};
use crate::schedules::copy_opt;
use crate::text::text_opt;
use vstd::prelude::*;
use vstd::string::*;

verus! {

/// How one run ended, as far as anyone outside the engine asks.
#[derive(Debug, Clone)]
pub struct RunResult {
    pub status: String,
    pub duration_ms: u64,
    pub error: Option<String>,
    pub category: Option<String>,
}

/// One line of a pipeline's run history.
#[derive(Debug, Clone)]
pub struct RunRecord {
    /// RFC 3339, in UTC.
    pub at: String,
    pub status: String,
    pub duration_ms: u64,
    pub rows: Option<u64>,
    pub node_count: u64,
    pub trigger: String,
    pub error: Option<String>,
    pub category: Option<String>,
}

/// What a run that never started came to.
pub open spec fn is_failed_run(error: String, duration_ms: u64, r: RunResult) -> bool {
    &&& r.status@ == "error"@
    &&& r.duration_ms == duration_ms
    &&& r.error == Some(error)
    &&& r.category is Some
    &&& r.category->0@ == category(error@)
}

/// A run that failed for this reason, whether or not it got as far as starting.
/// A run that never started still took time and still failed, which is exactly
/// what an operator needs to see against the schedule.
pub fn failed_run(error: String, duration_ms: u64) -> (r: RunResult)
    ensures
        is_failed_run(error, duration_ms, r),
{
    let category = categorize_error(error.as_str()).to_owned();
    RunResult { status: "error".to_owned(), duration_ms, error: Some(error), category: Some(category) }
}

/// What a run came to.
pub open spec fn is_reported_run(
    status: &str,
    duration_ms: u64,
    error: Option<String>,
    r: RunResult,
) -> bool {
    &&& r.status@ == status@
    &&& r.duration_ms == duration_ms
    &&& r.error == error
    &&& match error {
        Some(e) => r.category is Some && r.category->0@ == category(e@),
        None => r.category is None,
    }
}

/// A run that ended with this status and, if it failed, for this reason.
pub fn reported_run(status: &str, duration_ms: u64, error: Option<String>) -> (r: RunResult)
    ensures
        is_reported_run(status, duration_ms, error, r),
{
    let category = match &error {
        Some(e) => Some(categorize_error(e.as_str()).to_owned()),
        None => None,
    };
    RunResult { status: status.to_owned(), duration_ms, error, category }
}

/// The milliseconds of a span, none where it came out negative.
pub open spec fn elapsed(span_ms: int) -> int {
    if span_ms < 0 {
        0
    } else {
        span_ms
    }
}

/// The milliseconds of a span that may have come out negative.
pub fn elapsed_ms(span_ms: i64) -> (r: u64)
    ensures
        r == elapsed(span_ms as int),
{
    if span_ms < 0 {
        0
    } else {
        span_ms as u64
    }
}

/// A run that failed says so, with its error and the category of that.
pub proof fn law_what_a_failed_run_says(error: String, ms: u64, status: &str, r: RunResult)
    ensures
        is_failed_run(error, ms, r) ==> r.status@ == "error"@ && r.duration_ms == ms && r.error == Some(
            error,
        ) && r.category is Some && (r.category->0)@ == category(error@),
        is_reported_run(status, ms, Some(error), r) ==> r.status@ == status@ && r.duration_ms == ms
            && r.error == Some(error) && r.category is Some && (r.category->0)@ == category(error@),
        is_reported_run(status, ms, None, r) ==> r.status@ == status@ && r.duration_ms == ms && r.error
            is None && r.category is None,
{
}

/// A run takes as long as its span says, and never less than no time.
pub proof fn law_how_long_a_run_took(start: int, end: int)
    ensures
        start <= end ==> start + elapsed(end - start) == end,
        end <= start ==> elapsed(end - start) == 0,
{
}

} // verus!
