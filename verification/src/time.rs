use vstd::prelude::*;

verus! {

/// Relies on chrono::Utc::now for the clock reading, in milliseconds since the
/// Unix epoch; nothing is assumed of the value that comes back.
#[verifier::external_body]
pub fn now_millis() -> i64 {
    chrono::Utc::now().timestamp_millis()
}

/// Relies on chrono's formatting of an instant in the machine's local time
/// zone, as `%Y-%m-%d %H:%M:%S`. The text depends on that zone, so its content
/// is not assumed — only its fixed width: every component is zero-padded, so
/// any instant whose local year has four digits takes exactly 19 characters,
/// which holds for all of the first ten thousand years of the epoch under any
/// real zone offset. An instant chrono cannot represent yields an empty
/// string.
#[verifier::external_body]
pub fn format_local_time(millis: i64) -> (r: String)
    ensures
        0 <= millis <= 250_000_000_000_000i64 ==> r@.len() == 19,
{
    match chrono::DateTime::<chrono::Utc>::from_timestamp_millis(millis) {
        Some(t) => t.with_timezone(&chrono::Local).format("%Y-%m-%d %H:%M:%S").to_string(),
        None => String::new(),
    }
}

/// Relies on chrono_humanize::HumanTime for the relative wording of an
/// instant. The text depends on the moment of the call, so nothing is assumed
/// of it; an instant chrono cannot represent yields an empty string.
#[verifier::external_body]
pub fn humanize_time(millis: i64) -> String {
    match chrono::DateTime::<chrono::Utc>::from_timestamp_millis(millis) {
        Some(t) => chrono_humanize::HumanTime::from(t.with_timezone(&chrono::Local)).to_string(),
        None => String::new(),
    }
}

} // verus!
