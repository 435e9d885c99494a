use vstd::prelude::*;

verus! {

/// Relies on chrono's `From<SystemTime> for DateTime<Utc>` and
/// `DateTime::timestamp`: the current unix time in whole seconds, negative
/// when the system clock reads before 1970. It depends on the moment of the
/// call, so nothing is stated. The conversion's only failure is a reading
/// outside chrono's range of about 262,000 years around 1970, which a system
/// clock counting nanoseconds in 64 bits cannot reach.
#[verifier::external_body]
pub(crate) fn current_unix_time() -> (r: i64) {
    chrono::DateTime::<chrono::Utc>::from(std::time::SystemTime::now()).timestamp()
}

} // verus!
