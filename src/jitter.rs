//! Inter-knock delay: the base delay plus a random, strictly additive jitter.

use vstd::prelude::*;

verus! {

/// rand's `random`, used here for `u32` and `u64` draws. Nothing is known of
/// the value drawn.
pub assume_specification<T>[ rand::random::<T> ]() -> (r: T)
    where
        rand::distributions::Standard: rand::distributions::Distribution<T>,
;

/// The delay before a knock, in milliseconds, for base delay `base` and random
/// draw `draw`: none without a base delay, else `base + draw % base`, held at
/// `u64::MAX`.
pub open spec fn jittered_delay_spec(base: u64, draw: u64) -> u64 {
    if base == 0 {
        0
    } else if base + draw % base > u64::MAX {
        u64::MAX
    } else {
        (base + draw % base) as u64
    }
}

/// The delay before a knock for base delay `base_ms` and random draw `draw`.
pub fn jittered_delay_ms(base_ms: u64, draw: u64) -> (r: u64)
    ensures
        r == jittered_delay_spec(base_ms, draw),
{
    if base_ms == 0 {
        0
    } else {
        let jitter = draw % base_ms;
        if jitter > u64::MAX - base_ms {
            u64::MAX
        } else {
            base_ms + jitter
        }
    }
}

/// A jittered delay is at least the base delay and less than twice it.
pub proof fn law_jitter_bounds(base: u64, draw: u64)
    requires
        base > 0,
    ensures
        base <= jittered_delay_spec(base, draw) < 2 * base,
{
}

/// Draws the delay before a knock: none without a base delay, else at least
/// `base_ms` and less than twice it.
pub fn knock_delay_ms(base_ms: u64) -> (r: u64)
    ensures
        base_ms == 0 ==> r == 0,
        base_ms > 0 ==> base_ms <= r < 2 * base_ms,
        exists|draw: u64| r == jittered_delay_spec(base_ms, draw),
{
    if base_ms == 0 {
        assert(0 == jittered_delay_spec(base_ms, 0));
        return 0;
    }
    let draw: u64 = rand::random::<u64>();
    proof {
        law_jitter_bounds(base_ms, draw);
    }
    let r = jittered_delay_ms(base_ms, draw);
    assert(r == jittered_delay_spec(base_ms, draw));
    r
}

} // verus!
