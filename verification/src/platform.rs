//! What the library takes from the machine it runs on: fresh identifiers
//! and the time of day.

use vstd::prelude::*;

verus! {

/// Nanoseconds in a second.
pub const NANOS_PER_SECOND: i128 = 1_000_000_000;

/// Calls `uuid::Uuid::new_v4` and hands the identifier out as an integer
/// of 128 bits, of which the call fixes six and draws the others at
/// random. Nothing is known of the value.
#[verifier::external_body]
pub(crate) fn random_id() -> (id: u128) {
    uuid::Uuid::new_v4().as_u128()
}

/// Calls `chrono::Utc::now` and hands out the seconds since the epoch and
/// the nanoseconds within the second. Nothing is known of the values. The
/// call does not return where the clock of the machine stands before the
/// epoch.
#[verifier::external_body]
pub(crate) fn wall_clock() -> (t: (i64, u32)) {
    let now = chrono::Utc::now();
    (now.timestamp(), now.timestamp_subsec_nanos())
}

/// The two names with a hyphen between them.
pub fn hyphenated(first: &str, second: &str) -> (joined: String)
    ensures
        joined@ == first@ + seq!['-'] + second@,
{
    let mut joined = first.to_owned();
    joined.append("-");
    joined.append(second);
    proof {
        reveal_strlit("-");
        assert("-"@ =~= seq!['-']);
    }
    joined
}

/// The time of day in nanoseconds since the epoch: the count that the
/// reading of the clock stands for. Which reading the clock gives is not
/// known.
pub fn now_nanos() -> (t: i128)
    ensures
        exists|seconds: i64, subsec: u32| t == #[trigger] nanos_since_epoch(seconds, subsec),
{
    let reading = wall_clock();
    nanos_of(reading.0, reading.1)
}

/// The nanoseconds since the epoch at `seconds` whole seconds and `subsec`
/// nanoseconds after them.
pub open spec fn nanos_since_epoch(seconds: i64, subsec: u32) -> int {
    seconds * NANOS_PER_SECOND + subsec
}

/// The nanoseconds since the epoch that a reading of the clock stands for.
pub fn nanos_of(seconds: i64, subsec: u32) -> (t: i128)
    ensures
        t == nanos_since_epoch(seconds, subsec),
{
    (seconds as i128) * NANOS_PER_SECOND + (subsec as i128)
}

} // verus!
