use vstd::prelude::*;

verus! {

/// Relies on uuid::Uuid::new_v4: a freshly generated random version-4
/// identifier, carried as its 128-bit value. Nothing can be promised of a
/// random value.
#[verifier::external_body]
pub(crate) fn fresh_id() -> u128 {
    uuid::Uuid::new_v4().as_u128()
}

/// Relies on chrono::Utc::now: the current wall-clock time, converted to
/// milliseconds since the Unix epoch. Nothing can be promised of the clock.
#[verifier::external_body]
pub(crate) fn now_millis() -> i64 {
    chrono::Utc::now().timestamp_millis()
}

} // verus!
