//! The wall clock, read as unix seconds.

use vstd::prelude::*;

verus! {

/// Relies on `time::OffsetDateTime::now_utc` and `unix_timestamp`: the
/// current wall-clock time in seconds since the unix epoch. Nothing can be
/// promised of the value, which moves between calls.
#[verifier::external_body]
pub(crate) fn now_unix() -> i64 {
    time::OffsetDateTime::now_utc().unix_timestamp()
}

} // verus!
