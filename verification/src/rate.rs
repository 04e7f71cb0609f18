//! Throttling requests to a number per minute.

use vstd::prelude::*;

verus! {

/// The nanoseconds of a minute.
pub const MINUTE: u64 = 60_000_000_000;

/// `n / d` to the nearest integer, halves to the even one.
pub open spec fn nearest(n: int, d: int) -> int {
    let q = n / d;
    let r = n % d;
    if 2 * r < d || (2 * r == d && q % 2 == 0) {
        q
    } else {
        q + 1
    }
}

/// The time between requests at `rpm` requests per minute, in nanoseconds; zero
/// for no limit.
pub open spec fn interval_of(rpm: int) -> int {
    if rpm > 0 {
        nearest(MINUTE as int, rpm)
    } else {
        0
    }
}

/// Throttle to N requests per minute (0 = unlimited). Times are nanoseconds
/// since some fixed moment.
#[derive(Debug)]
pub struct RateLimiter {
    /// The least time between two requests.
    pub interval: u128,
    /// When the last request went out.
    pub last: Option<u128>,
}

/// How long a request at `now` has to be held back.
pub open spec fn delay(r: RateLimiter, now: int) -> int {
    match r.last {
        Some(last) => {
            let gone = if now > last {
                now - last
            } else {
                0
            };
            if gone < r.interval {
                r.interval - gone
            } else {
                0
            }
        },
        None => 0,
    }
}

/// The limiter once a request went out at `now`.
pub open spec fn after(r: RateLimiter, now: u128) -> RateLimiter {
    RateLimiter {
        interval: r.interval,
        last: if r.interval == 0 {
            r.last
        } else {
            Some(now)
        },
    }
}

impl RateLimiter {
    /// A limiter for `rpm` requests per minute.
    pub fn new(rpm: i64) -> (r: RateLimiter)
        ensures
            r.interval == interval_of(rpm as int),
            r.last is None,
    {
        let interval: u128 = if rpm > 0 {
            let d: u64 = rpm as u64;
            let q: u64 = MINUTE / d;
            let m: u64 = MINUTE % d;
            let rest: u64 = d - m;
            if m < rest || (m == rest && q % 2 == 0) {
                q as u128
            } else {
                (q + 1) as u128
            }
        } else {
            0
        };
        RateLimiter { interval, last: None }
    }

    /// How long to sleep before a request may go out at `now`.
    pub fn wait(&self, now: u128) -> (r: u128)
        ensures
            r == delay(*self, now as int),
    {
        match self.last {
            Some(last) => {
                let gone: u128 = if now > last {
                    now - last
                } else {
                    0
                };
                if gone < self.interval {
                    self.interval - gone
                } else {
                    0
                }
            },
            None => 0,
        }
    }

    /// Records that a request went out at `now`. Without a limit there is
    /// nothing to record.
    pub fn sent(&mut self, now: u128)
        ensures
            *final(self) == after(*old(self), now),
            final(self).interval == old(self).interval,
            final(self).last == (if old(self).interval == 0 {
                old(self).last
            } else {
                Some(now)
            }),
    {
        if self.interval != 0 {
            self.last = Some(now);
        }
    }
}

/// Two requests in a row, the second one held back as told, are at least one
/// interval apart.
pub proof fn law_requests_are_an_interval_apart(r: RateLimiter, first: u128, now: int, second: int)
    requires
        r.last == Some(first),
        now >= first,
        second >= now + delay(r, now),
    ensures
        second - first >= r.interval,
{
}

/// Without a limit nothing is ever held back.
pub proof fn law_no_limit_no_delay(rpm: int, r: RateLimiter, now: int)
    requires
        rpm <= 0,
        r.interval == interval_of(rpm),
    ensures
        delay(r, now) == 0,
{
}

/// `rpm` intervals make a minute, up to half a nanosecond for each of them.
pub proof fn law_intervals_fill_a_minute(rpm: int)
    requires
        rpm > 0,
    ensures
        -rpm <= 2 * (interval_of(rpm) * rpm - MINUTE) <= rpm,
{
    let q = MINUTE as int / rpm;
    let m = MINUTE as int % rpm;
    vstd::arithmetic::div_mod::lemma_fundamental_div_mod(MINUTE as int, rpm);
    assert(rpm * q == q * rpm) by (nonlinear_arith);
    assert((q + 1) * rpm == q * rpm + rpm) by (nonlinear_arith);
    assert(0 <= m < rpm) by {
        vstd::arithmetic::div_mod::lemma_mod_bound(MINUTE as int, rpm);
    }
}

/// Once a request went out, the next one is held back until an interval has
/// passed, and no longer; the first one is not held back at all.
pub proof fn law_each_request_starts_an_interval(r: RateLimiter, sent: u128, now: int)
    requires
        r.interval > 0,
        now >= sent,
    ensures
        after(r, sent).interval == r.interval,
        now - sent >= r.interval ==> delay(after(r, sent), now) == 0,
        now - sent < r.interval ==> now + delay(after(r, sent), now) == sent + r.interval,
        r.last is None ==> delay(r, now) == 0,
{
}

} // verus!
