//! The ticker's schedule: ticks stand on a grid of fixed origin and step
//! `interval`; after each callback the ticker moves to the first grid point
//! strictly after the current time, skipping the points it has missed.
//!
//! Times are plain integers on one clock (nanoseconds from any fixed point);
//! the caller reads the clock and sleeps.

use vstd::prelude::*;
use vstd::arithmetic::div_mod::lemma_fundamental_div_mod_converse;

verus! {

/// `t` is a grid point of the schedule after its origin.
pub open spec fn is_boundary(origin: int, interval: int, t: int) -> bool {
    t > origin && (t - origin) % interval == 0
}

/// The first grid point strictly after `now`, for `now >= origin`.
pub open spec fn next_boundary(origin: int, interval: int, now: int) -> int {
    origin + ((now - origin) / interval + 1) * interval
}

/// The state of a ticker: its grid and the grid point it waits for.
pub struct Ticker {
    pub origin: u128,
    pub interval: u128,
    pub next_tick: u128,
}

impl Ticker {
    pub open spec fn wf(&self) -> bool {
        &&& self.interval > 0
        &&& is_boundary(self.origin as int, self.interval as int, self.next_tick as int)
    }

    /// The grid point waited for after a callback that ended at `now`.
    pub open spec fn after(&self, now: int) -> int {
        if now < self.next_tick {
            self.next_tick as int
        } else {
            next_boundary(self.origin as int, self.interval as int, now)
        }
    }

    /// A ticker started at `start`: the first callback runs at once, the next
    /// one is due one interval later.
    pub fn new(start: u128, interval: u128) -> (t: Ticker)
        requires
            interval > 0,
            start + interval <= u128::MAX,
        ensures
            t.wf(),
            t.origin == start,
            t.interval == interval,
            t.next_tick == start + interval,
    {
        let t = Ticker { origin: start, interval, next_tick: start + interval };
        assert(((t.next_tick - t.origin) as int) % (interval as int) == 0) by {
            lemma_fundamental_div_mod_converse(interval as int, interval as int, 1, 0);
        }
        t
    }

    /// Called when the callback returns at time `now`: moves to the first
    /// grid point after `now` (keeping the current one if it is still ahead)
    /// and returns how long to sleep until it.
    pub fn advance(&mut self, now: u128) -> (wait: u128)
        requires
            old(self).wf(),
            now + old(self).interval <= u128::MAX,
        ensures
            final(self).wf(),
            final(self).origin == old(self).origin,
            final(self).interval == old(self).interval,
            final(self).next_tick == old(self).after(now as int),
            final(self).next_tick > now,
            wait == final(self).next_tick - now,
    {
        let ghost start = self.next_tick;
        while self.next_tick <= now
            invariant
                self.wf(),
                self.origin == old(self).origin,
                self.interval == old(self).interval,
                self.next_tick >= start,
                start == old(self).next_tick,
                start > now ==> self.next_tick == start,
                now + self.interval <= u128::MAX,
                self.next_tick == start || self.next_tick - self.interval <= now,
            decreases now + self.interval - self.next_tick,
        {
            proof {
                lemma_step_boundary(self.origin as int, self.interval as int, self.next_tick as int);
            }
            self.next_tick = self.next_tick + self.interval;
        }
        proof {
            if start <= now {
                lemma_first_boundary_after(
                    self.origin as int,
                    self.interval as int,
                    now as int,
                    self.next_tick as int,
                );
            }
        }
        self.next_tick - now
    }
}

/// One interval past a grid point is a grid point.
pub proof fn lemma_step_boundary(origin: int, interval: int, t: int)
    requires
        interval > 0,
        is_boundary(origin, interval, t),
    ensures
        is_boundary(origin, interval, t + interval),
{
    let q = (t - origin) / interval;
    assert(t - origin == q * interval) by {
        vstd::arithmetic::div_mod::lemma_fundamental_div_mod(t - origin, interval);
    }
    assert(t + interval - origin == (q + 1) * interval) by (nonlinear_arith)
        requires t - origin == q * interval;
    lemma_fundamental_div_mod_converse(t + interval - origin, interval, q + 1, 0);
}

/// A grid point in `(now, now + interval]` is the first one after `now`.
pub proof fn lemma_first_boundary_after(origin: int, interval: int, now: int, t: int)
    requires
        interval > 0,
        origin <= now,
        is_boundary(origin, interval, t),
        now < t <= now + interval,
    ensures
        t == next_boundary(origin, interval, now),
{
    let q = (t - origin) / interval;
    assert(t - origin == q * interval) by {
        vstd::arithmetic::div_mod::lemma_fundamental_div_mod(t - origin, interval);
    }
    let r = (now - origin) - (q - 1) * interval;
    assert(0 <= r < interval) by (nonlinear_arith)
        requires
            t - origin == q * interval,
            r == (now - origin) - (q - 1) * interval,
            now < t <= now + interval,
    ;
    lemma_fundamental_div_mod_converse(now - origin, interval, q - 1, r);
    assert(origin + ((q - 1) + 1) * interval == t) by (nonlinear_arith)
        requires t - origin == q * interval;
}

/// `next_boundary` is a grid point, lies in `(now, now + interval]`, and no
/// grid point after `now` comes before it.
pub proof fn lemma_next_boundary(origin: int, interval: int, now: int)
    requires
        interval > 0,
        origin <= now,
    ensures
        is_boundary(origin, interval, next_boundary(origin, interval, now)),
        now < next_boundary(origin, interval, now) <= now + interval,
        forall|b: int|
            is_boundary(origin, interval, b) && b > now ==> next_boundary(origin, interval, now)
                <= b,
{
    let x = now - origin;
    let q = x / interval;
    vstd::arithmetic::div_mod::lemma_fundamental_div_mod(x, interval);
    assert(0 <= x % interval < interval);
    assert(0 <= q) by (nonlinear_arith)
        requires x >= 0, interval > 0, q == x / interval;
    assert((q + 1) * interval == q * interval + interval) by (nonlinear_arith);
    lemma_fundamental_div_mod_converse((q + 1) * interval, interval, q + 1, 0);
    assert forall|b: int| is_boundary(origin, interval, b) && b > now implies next_boundary(
        origin,
        interval,
        now,
    ) <= b by {
        let k = (b - origin) / interval;
        vstd::arithmetic::div_mod::lemma_fundamental_div_mod(b - origin, interval);
        assert(b - origin == k * interval);
        assert(k * interval > q * interval);
        assert(k > q) by (nonlinear_arith)
            requires k * interval > q * interval, interval > 0;
        assert(k * interval >= (q + 1) * interval) by (nonlinear_arith)
            requires k >= q + 1, interval > 0;
    }
}

/// Ticks are spaced on the grid: when a tick fired no earlier than its grid
/// point, the next grid point waited for is a later grid point, a whole
/// number of intervals away and at least one interval away.
pub proof fn lemma_ticks_spaced(t: Ticker, now: int)
    requires
        t.wf(),
        now >= t.next_tick,
    ensures
        is_boundary(t.origin as int, t.interval as int, t.after(now)),
        t.after(now) - t.next_tick >= t.interval,
        (t.after(now) - t.next_tick) % (t.interval as int) == 0,
{
    let o = t.origin as int;
    let i = t.interval as int;
    let n = t.next_tick as int;
    lemma_next_boundary(o, i, now);
    let a = t.after(now);
    let qa = (a - o) / i;
    let qn = (n - o) / i;
    vstd::arithmetic::div_mod::lemma_fundamental_div_mod(a - o, i);
    vstd::arithmetic::div_mod::lemma_fundamental_div_mod(n - o, i);
    assert(a - n == (qa - qn) * i) by (nonlinear_arith)
        requires a - o == qa * i, n - o == qn * i;
    assert(qa - qn >= 1) by (nonlinear_arith)
        requires a - n == (qa - qn) * i, a > n, i > 0;
    assert((qa - qn) * i >= i) by (nonlinear_arith)
        requires qa - qn >= 1, i > 0;
    lemma_fundamental_div_mod_converse(a - n, i, qa - qn, 0);
}

/// A callback that overran: when a tick fired at or after its grid point and
/// its callback took more than one interval, the ticker skips the missed grid
/// points instead of replaying them. The next tick is the first grid point
/// after `now`, and at least one grid point is passed over.
pub proof fn lemma_overrun_skips(t: Ticker, fired: int, now: int)
    requires
        t.wf(),
        fired >= t.next_tick,
        now - fired > t.interval,
    ensures
        t.after(now) > now,
        t.after(now) - t.interval <= now,
        forall|b: int| is_boundary(t.origin as int, t.interval as int, b) && b > now ==> t.after(now) <= b,
        t.after(now) >= t.next_tick + 2 * t.interval,
{
    let o = t.origin as int;
    let i = t.interval as int;
    let n = t.next_tick as int;
    lemma_next_boundary(o, i, now);
    lemma_ticks_spaced(t, now);
    let a = t.after(now);
    let m = (a - n) / i;
    vstd::arithmetic::div_mod::lemma_fundamental_div_mod(a - n, i);
    assert(a - n == m * i);
    assert(m >= 2) by (nonlinear_arith)
        requires a - n == m * i, a - n > i, i > 0;
    assert(m * i >= 2 * i) by (nonlinear_arith)
        requires m >= 2, i > 0;
}

} // verus!
