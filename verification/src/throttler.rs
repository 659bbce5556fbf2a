//! Bandwidth limits as token buckets: how many tokens a transfer takes and
//! how many a tick puts back. The bucket itself (a semaphore refilled by a
//! timer) lives with the program's runtime.
use vstd::prelude::*;

verus! {

/// How often per second the bucket is refilled.
pub const REFILLS_PER_SECOND: u64 = 10;

/// The tokens that a transfer of `amount` bytes waits for: the amount, but no
/// more than the bucket holds. A bucket of rate 0 is unlimited: nothing.
pub fn tokens_for(rate_per_sec: u64, amount: u64, capacity: u64) -> (r: usize)
    ensures
        rate_per_sec == 0 ==> r == 0,
        rate_per_sec != 0 ==> r == if (amount as usize) < (capacity as usize) {
            amount as usize
        } else {
            capacity as usize
        },
{
    if rate_per_sec == 0 {
        return 0;
    }
    let a = amount as usize;
    let c = capacity as usize;
    if a < c {
        a
    } else {
        c
    }
}

/// The tokens a tick puts back into a bucket that holds `available` of its
/// `capacity`: a tenth of the rate, without going past the capacity.
pub fn refill_tokens(rate_per_sec: u64, capacity: u64, available: usize) -> (r: usize)
    ensures
        (available as int) < (capacity as usize) ==> r == if ((rate_per_sec / REFILLS_PER_SECOND) as usize) < (
        capacity as usize) - available {
            (rate_per_sec / REFILLS_PER_SECOND) as usize
        } else {
            ((capacity as usize) - available) as usize
        },
        (available as int) >= (capacity as usize) ==> r == 0,
        available + r <= (if (available as int) < (capacity as usize) {
            capacity as usize
        } else {
            available
        }),
{
    let cap = capacity as usize;
    if available < cap {
        let refill = (rate_per_sec / REFILLS_PER_SECOND) as usize;
        let room = cap - available;
        if refill < room {
            refill
        } else {
            room
        }
    } else {
        0
    }
}

} // verus!
