use vstd::prelude::*;

verus! {

/// The period of the scan loop, in milliseconds. A tick that would overlap
/// a check in flight is skipped, not queued.
pub const SCAN_PERIOD_MS: u64 = 250;

/// The age, in seconds, beyond which the account list is refreshed.
pub const REFRESH_AFTER_SECS: u64 = 6000;

/// Whether the account list is due for a refresh, `elapsed_secs` seconds
/// after the last one.
pub fn refresh_due(elapsed_secs: u64) -> (r: bool)
    ensures
        r == (elapsed_secs > REFRESH_AFTER_SECS),
{
    elapsed_secs > REFRESH_AFTER_SECS
}

} // verus!
