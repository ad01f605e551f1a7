use vstd::prelude::*;
use chrono::TimeZone;

verus! {

/// Relies on chrono's `Utc::now` and `DateTime::timestamp`: the current
/// wall-clock time as whole seconds since the Unix epoch (UTC). The value
/// depends on the clock, so nothing is promised of it.
#[verifier::external_body]
pub(crate) fn now_seconds() -> i64 {
    chrono::Utc::now().timestamp()
}

/// Relies on chrono's `TimeZone::timestamp_opt` for `Local` and on
/// `DateTime::format` with `"%F %H:%M"`: the given instant rendered as
/// local date and time, `YYYY-MM-DD HH:MM`. The text depends on the
/// machine's time zone, so nothing is promised of it; `None` comes only
/// of an instant outside chrono's representable range.
#[verifier::external_body]
pub(crate) fn format_local_datetime(secs: u64) -> Option<String> {
    match chrono::Local.timestamp_opt(secs as i64, 0).single() {
        Some(dt) => Some(dt.format("%F %H:%M").to_string()),
        None => None,
    }
}

} // verus!
