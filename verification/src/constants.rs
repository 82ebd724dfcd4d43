//! Numbers that the console agrees on.

use vstd::prelude::*;

verus! {

/// Seconds in a minute.
pub const SECONDS_IN_MINUTE: u64 = 60;

/// Minutes in an hour.
pub const MINUTES_IN_HOUR: u64 = 60;

/// Seconds in an hour.
pub const SECONDS_IN_HOUR: u64 = 3600;

/// Lines of a query shown before the line of an error.
pub const ERROR_QUERY_POINTER_LINES_BEFORE: usize = 2;

/// Lines of a query shown after the line of an error.
pub const ERROR_QUERY_POINTER_LINES_AFTER: usize = 2;

/// After this many seconds an open transaction times out: one hour.
pub const DEFAULT_TRANSACTION_TIMEOUT_SECONDS: u64 = 3600;

/// The hour is made of its minutes.
pub proof fn lemma_hour_in_seconds()
    ensures
        SECONDS_IN_HOUR == SECONDS_IN_MINUTE * MINUTES_IN_HOUR,
        DEFAULT_TRANSACTION_TIMEOUT_SECONDS == 1 * SECONDS_IN_HOUR,
{
}

} // verus!
