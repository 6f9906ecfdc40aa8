use vstd::prelude::*;

verus! {

/// Elapsed time beyond this cap, in seconds, no longer widens the band a
/// single update may move the stable price; after a long quiet period one
/// update re-anchors by at most a day's worth of movement.
pub const MAX_EFFECTIVE_ELAPSED: u64 = 86400;

/// Smoothed, delayed price estimate. A single noisy oracle tick can never
/// move it by more than the configured fraction per second of elapsed
/// time, so one bad read cannot instantly trigger liquidation-grade price
/// moves.
#[derive(Clone, Copy, Debug, PartialEq, Eq, Structural)]
pub struct StablePriceModel {
    /// Current estimate, in quote lots per base lot; always >= 1 once
    /// seeded.
    pub stable_price: i64,
    /// Timestamp of the last accepted update; never moves backwards.
    pub last_update_ts: u64,
    /// Smoothing parameter: largest fractional move per elapsed second, in
    /// parts per million of the current estimate.
    pub max_move_ppm_per_sec: u32,
}

/// `x` clamped to `[lo, hi]`.
pub open spec fn clamp_spec(x: int, lo: int, hi: int) -> int {
    if x < lo {
        lo
    } else if x > hi {
        hi
    } else {
        x
    }
}

/// The widest move one update may make: `stable` times the per-second
/// fraction, times the elapsed seconds (capped).
pub open spec fn max_move_spec(stable: int, ppm: int, elapsed: int) -> int {
    let capped = if elapsed > MAX_EFFECTIVE_ELAPSED {
        MAX_EFFECTIVE_ELAPSED as int
    } else {
        elapsed
    };
    stable * ppm * capped / 1000000
}

/// The estimate after one update: the oracle price, clamped into the band
/// `max_move_spec` allows around the previous estimate (and kept within
/// `[1, i64::MAX]`).
pub open spec fn stable_update_spec(stable: int, ppm: int, oracle: int, elapsed: int) -> int {
    let delta = max_move_spec(stable, ppm, elapsed);
    let lo = if stable - delta < 1 {
        1
    } else {
        stable - delta
    };
    let hi = if stable + delta > i64::MAX {
        i64::MAX as int
    } else {
        stable + delta
    };
    clamp_spec(oracle, lo, hi)
}

impl StablePriceModel {
    pub open spec fn wf(self) -> bool {
        self.stable_price >= 1
    }

    /// Unconditionally re-seeds the estimate; used once at market creation
    /// to establish a non-degenerate starting point.
    pub fn reset_to_price(&mut self, price: i64, now: u64)
        requires
            price >= 1,
        ensures
            final(self).wf(),
            final(self).stable_price == price,
            final(self).last_update_ts == now,
            final(self).max_move_ppm_per_sec == old(self).max_move_ppm_per_sec,
    {
        self.stable_price = price;
        self.last_update_ts = now;
    }

    /// Moves the estimate toward `oracle_price`, by at most
    /// `max_move_spec` away from the previous estimate regardless of how
    /// far the oracle jumped. A call whose timestamp does not advance is a
    /// no-op, so the update timestamps never decrease.
    pub fn update(&mut self, oracle_price: i64, now: u64) -> (p: i64)
        requires
            old(self).wf(),
            oracle_price >= 1,
        ensures
            final(self).wf(),
            p == final(self).stable_price,
            final(self).max_move_ppm_per_sec == old(self).max_move_ppm_per_sec,
            now <= old(self).last_update_ts ==> *final(self) == *old(self),
            now > old(self).last_update_ts ==> {
                &&& final(self).last_update_ts == now
                &&& final(self).stable_price == stable_update_spec(
                    old(self).stable_price as int,
                    old(self).max_move_ppm_per_sec as int,
                    oracle_price as int,
                    now - old(self).last_update_ts,
                )
                &&& final(self).stable_price - old(self).stable_price <= max_move_spec(
                    old(self).stable_price as int,
                    old(self).max_move_ppm_per_sec as int,
                    now - old(self).last_update_ts,
                )
                &&& old(self).stable_price - final(self).stable_price <= max_move_spec(
                    old(self).stable_price as int,
                    old(self).max_move_ppm_per_sec as int,
                    now - old(self).last_update_ts,
                )
            },
    {
        if now <= self.last_update_ts {
            return self.stable_price;
        }
        let elapsed = now - self.last_update_ts;
        let capped: u64 = if elapsed > MAX_EFFECTIVE_ELAPSED {
            MAX_EFFECTIVE_ELAPSED
        } else {
            elapsed
        };
        let stable_u = self.stable_price as u128;
        proof {
            vstd::arithmetic::mul::lemma_mul_upper_bound(
                stable_u as int,
                0x7fffffffffffffff,
                self.max_move_ppm_per_sec as int,
                0xffffffff,
            );
            vstd::arithmetic::mul::lemma_mul_upper_bound(
                (stable_u as int) * (self.max_move_ppm_per_sec as int),
                0x7fffffffffffffff * (0xffffffff as int),
                capped as int,
                86400,
            );
        }
        let delta: u128 = stable_u * (self.max_move_ppm_per_sec as u128) * (capped as u128)
            / 1000000;
        let lo: u128 = if delta >= stable_u {
            1
        } else {
            stable_u - delta
        };
        let hi_raw: u128 = if delta > 0x7fffffffffffffff {
            0x7fffffffffffffff
        } else {
            stable_u + delta
        };
        let hi: u128 = if hi_raw > 0x7fffffffffffffff {
            0x7fffffffffffffff
        } else {
            hi_raw
        };
        let o = oracle_price as u128;
        let newp: u128 = if o < lo {
            lo
        } else if o > hi {
            hi
        } else {
            o
        };
        self.stable_price = newp as i64;
        self.last_update_ts = now;
        self.stable_price
    }
}

} // verus!
