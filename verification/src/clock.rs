use vstd::prelude::*;

verus! {

/// The instant `secs` seconds after `now`, in milliseconds.
pub open spec fn deadline_after(now: u64, secs: u64) -> u128 {
    (now + secs * 1000) as u128
}

/// Milliseconds from `start` to `now`; zero if the clock reads earlier than `start`.
pub open spec fn elapsed_ms(start: u64, now: u64) -> int {
    if now >= start {
        now - start
    } else {
        0
    }
}

/// The instant `secs` seconds after `now`.
pub fn deadline(now: u64, secs: u64) -> (d: u128)
    ensures
        d == deadline_after(now, secs),
        d == now + secs * 1000,
{
    now as u128 + secs as u128 * 1000
}

} // verus!
