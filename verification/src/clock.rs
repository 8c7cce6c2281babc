//! The clock of the machine.

use vstd::prelude::*;

verus! {

/// The time now, in milliseconds since the Unix epoch, as
/// `chrono::Local::now` gives it. Which time that is, the clock decides:
/// two calls may differ. The count is not negative, since chrono takes the
/// time that has passed since the epoch from the system clock, and it stays
/// under 2^53, since a chrono `DateTime` holds no year after 262142. (Where
/// the system clock stands before the epoch, chrono does not return.)
#[verifier::external_body]
pub(crate) fn now() -> (millis: i64)
    ensures
        0 <= millis < 0x20_0000_0000_0000,
{
    chrono::Local::now().timestamp_millis()
}

} // verus!
