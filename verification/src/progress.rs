//! Progress accounting: one event per transferred file, carrying the running
//! file count, the total, and the whole-number percentage they determine.
use vstd::prelude::*;
use vstd::arithmetic::div_mod::{
    lemma_div_by_multiple,
    lemma_div_is_ordered,
    lemma_multiply_divide_le,
    lemma_multiply_divide_lt,
};

verus! {

/// One progress event: emitted after a file completes, never for a directory.
/// `percent` is the whole-number part of `current / total * 100`; a consumer
/// that wants fractional digits derives them from `current` and `total`.
pub struct Progress {
    pub current: u64,
    pub total: u64,
    pub percent: u8,
}

/// The whole-number percentage that `current` completed files out of `total`
/// amount to.
pub open spec fn percent_spec(current: int, total: int) -> int {
    current * 100 / total
}

/// Builds the progress event for the moment the `current`-th file out of
/// `total` has completed.
pub fn progress_for(current: u64, total: u64) -> (p: Progress)
    requires
        1 <= current <= total,
    ensures
        p.current == current,
        p.total == total,
        p.percent == percent_spec(current as int, total as int),
{
    let num: u128 = (current as u128) * 100;
    let pct: u128 = num / (total as u128);
    proof {
        lemma_multiply_divide_le(current as int * 100, total as int, 100);
    }
    Progress { current, total, percent: pct as u8 }
}

/// Law: within one operation the percentage never decreases — a later event
/// (more files completed, same total) reports at least the same percentage.
pub proof fn lemma_percent_monotonic(a: int, b: int, total: int)
    requires
        0 <= a <= b,
        0 < total,
    ensures
        percent_spec(a, total) <= percent_spec(b, total),
{
    lemma_div_is_ordered(a * 100, b * 100, total);
}

/// Law: the event for the last file of an operation reports exactly 100.
pub proof fn lemma_percent_complete(total: int)
    requires
        0 < total,
    ensures
        percent_spec(total, total) == 100,
{
    lemma_div_by_multiple(100, total);
}

/// Law: the percentage reaches 100 only when every file has completed; any
/// earlier event reports strictly less.
pub proof fn lemma_percent_partial(current: int, total: int)
    requires
        0 <= current < total,
    ensures
        percent_spec(current, total) < 100,
{
    lemma_multiply_divide_lt(current * 100, total, 100);
}

} // verus!
