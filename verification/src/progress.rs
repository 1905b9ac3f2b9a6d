//! Progress checkpoints of a scan: where they fall and what they report.

use vstd::prelude::*;

verus! {

/// A scan reports its progress once every this many rows.
pub const CHECKPOINT_INTERVAL: u64 = 1_000_000;

/// Whether the scan reports its progress before the row at `position`.
pub fn is_checkpoint(position: u64) -> (due: bool)
    ensures
        due == (position as int % CHECKPOINT_INTERVAL as int == 0),
{
    position % CHECKPOINT_INTERVAL == 0
}

/// The share of a table of `total` rows that lies before `position`, in
/// whole percent, rounded down.
pub fn percent_done(position: u64, total: u64) -> (percent: u64)
    requires
        position <= total,
        total > 0,
    ensures
        percent == (position as int * 100) / (total as int),
        percent <= 100,
{
    let scaled: u128 = position as u128 * 100;
    let percent: u128 = scaled / (total as u128);
    assert(percent <= 100) by (nonlinear_arith)
        requires
            percent == scaled / (total as u128),
            scaled <= (total as u128) * 100,
            total > 0,
    ;
    percent as u64
}

} // verus!
