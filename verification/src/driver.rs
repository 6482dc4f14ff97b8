use crate::units::Fraction;
use crate::units::Milliseconds;
use vstd::arithmetic::div_mod::lemma_div_is_ordered;
use vstd::arithmetic::div_mod::lemma_div_multiples_vanish;
use vstd::arithmetic::div_mod::lemma_div_of0;
use vstd::arithmetic::div_mod::lemma_mod_add_multiples_vanish;
use vstd::arithmetic::div_mod::lemma_mod_division_less_than_divisor;
use vstd::arithmetic::div_mod::lemma_small_mod;
use vstd::arithmetic::mul::lemma_mul_inequality;
use vstd::arithmetic::mul::lemma_mul_is_commutative;
use vstd::arithmetic::mul::lemma_mul_nonnegative;
use vstd::arithmetic::mul::lemma_mul_upper_bound;
use vstd::prelude::*;

verus! {

/// The value `num / den` of the way from `start` to `end`, with the
/// quotient rounded towards `start`. This is the engine's one canonical
/// interpolation formula, `start + (end - start) * num / den`, written
/// so that the fraction applied to the travelled distance is always
/// non-negative.
pub open spec fn lerp_spec(start: int, end: int, num: int, den: int) -> int {
    if end >= start {
        start + ((end - start) * num) / den
    } else {
        start - ((start - end) * num) / den
    }
}

/// The scaled distance `(mag * num) / den` never exceeds `mag` while the
/// fraction is at most one, and is never negative.
proof fn lemma_scaled_distance_bounds(mag: int, num: int, den: int)
    requires
        0 <= mag,
        0 <= num <= den,
        1 <= den,
    ensures
        0 <= (mag * num) / den <= mag,
{
    lemma_mul_inequality(num, den, mag);
    lemma_mul_is_commutative(num, mag);
    lemma_mul_is_commutative(den, mag);
    lemma_div_is_ordered(mag * num, mag * den, den);
    lemma_mul_is_commutative(mag, den);
    lemma_div_multiples_vanish(mag, den);
    lemma_mul_nonnegative(mag, num);
    lemma_div_of0(den);
    lemma_div_is_ordered(0, mag * num, den);
}

/// Exact linear interpolation: the point `t` of the way from `start` to
/// `end`, rounded towards `start`.
fn lerp(start: i64, end: i64, t: Fraction) -> (r: i64)
    requires
        t.is_progress(),
    ensures
        r == lerp_spec(start as int, end as int, t.num as int, t.den as int),
{
    let diff: i128 = end as i128 - start as i128;
    if diff >= 0 {
        let mag: u128 = diff as u128;
        proof {
            lemma_mul_upper_bound(mag as int, u64::MAX as int, t.num as int, u64::MAX as int);
            lemma_scaled_distance_bounds(mag as int, t.num as int, t.den as int);
        }
        let q: u128 = (mag * t.num as u128) / (t.den as u128);
        (start as i128 + q as i128) as i64
    } else {
        let mag: u128 = (-diff) as u128;
        proof {
            lemma_mul_upper_bound(mag as int, u64::MAX as int, t.num as int, u64::MAX as int);
            lemma_scaled_distance_bounds(mag as int, t.num as int, t.den as int);
        }
        let q: u128 = (mag * t.num as u128) / (t.den as u128);
        (start as i128 - q as i128) as i64
    }
}

/// The identity easing curve: progress is used as the interpolation
/// weight unchanged. Other curves would warp the weight here without
/// `Driver` or `Looper` having to change.
#[derive(Clone, Copy, Debug, PartialEq, Eq, Structural)]
pub struct LinearEasing {}

impl LinearEasing {
    pub fn new() -> (r: LinearEasing)
        ensures
            r == (LinearEasing {  }),
    {
        LinearEasing {  }
    }

    /// Map a progress fraction to an eased progress fraction; the linear
    /// curve returns it unchanged.
    pub fn map_norm(&self, norm: Fraction) -> (r: Fraction)
        ensures
            r == norm,
    {
        norm
    }
}

/// The one invalid configuration: a driver whose duration is zero, which
/// would leave progress undefined.
#[derive(Clone, Copy, Debug, PartialEq, Eq, Structural)]
pub enum Error {
    ZeroDuration,
}

/// A single playthrough of an animation: an immutable start value, end
/// value, duration and easing curve, queried once per frame with the
/// elapsed time.
#[derive(Clone, Copy, Debug, PartialEq, Eq)]
pub struct Driver {
    pub start: i64,
    pub end: i64,
    pub duration: Milliseconds,
    pub easing: LinearEasing,
}

impl Driver {
    /// A driver is well formed exactly when its duration is non-zero.
    pub open spec fn wf(self) -> bool {
        1 <= self.duration.0
    }

    /// The value the driver yields at progress `num / den`.
    pub open spec fn spec_norm(self, num: int, den: int) -> int {
        lerp_spec(self.start as int, self.end as int, num, den)
    }

    /// Build a driver, rejecting a zero duration at construction time so
    /// that no later `step` can divide by zero.
    pub fn new(start: i64, end: i64, duration: Milliseconds) -> (r: Result<Driver, Error>)
        ensures
            duration.0 == 0 <==> r is Err,
            r matches Ok(d) ==> d == (Driver { start, end, duration, easing: LinearEasing {  } })
                && d.wf(),
            r matches Err(e) ==> e == Error::ZeroDuration,
    {
        if duration.0 == 0 {
            Err(Error::ZeroDuration)
        } else {
            Ok(Driver { start, end, duration, easing: LinearEasing::new() })
        }
    }

    /// The value at an already-normalized progress fraction: ease the
    /// fraction, then interpolate with it.
    fn norm(&self, norm: Fraction) -> (r: i64)
        requires
            norm.is_progress(),
        ensures
            r == self.spec_norm(norm.num as int, norm.den as int),
    {
        let eased = self.easing.map_norm(norm);
        lerp(self.start, self.end, eased)
    }

    /// The value at elapsed time `position`. Positions past the duration
    /// yield no value: this driver reports out-of-range queries as
    /// absent rather than extrapolating past its endpoints.
    pub fn step(&self, position: Milliseconds) -> (r: Option<i64>)
        requires
            self.wf(),
        ensures
            position.0 <= self.duration.0 ==> (r matches Some(v) && v == self.spec_norm(
                position.0 as int,
                self.duration.0 as int,
            )),
            position.0 > self.duration.0 ==> r is None,
    {
        if position.0 > self.duration.0 {
            None
        } else {
            Some(self.norm(Fraction { num: position.0, den: self.duration.0 }))
        }
    }
}

/// Repeats a driver's playthrough: elapsed time is wrapped modulo the
/// driver's duration, either forever (`iterations == None`) or until a
/// bounded number of complete cycles has elapsed, after which the looper
/// holds the final value.
#[derive(Clone, Copy, Debug, PartialEq, Eq)]
pub struct Looper {
    pub driver: Driver,
    pub iterations: Option<usize>,
}

impl Looper {
    pub open spec fn wf(self) -> bool {
        self.driver.wf()
    }

    /// Whether `position` lies at or past the iteration bound: the
    /// looper's terminal state, entered once the count of whole elapsed
    /// cycles reaches the bound and never left.
    pub open spec fn spec_completed(self, position: int) -> bool {
        match self.iterations {
            Some(n) => position / (self.driver.duration.0 as int) >= n,
            None => false,
        }
    }

    /// The looper's value: while running, the driver's value at the
    /// position wrapped modulo the duration; once completed, the final
    /// frame's value, held.
    pub open spec fn spec_step(self, position: int) -> int {
        let d = self.driver.duration.0 as int;
        if self.spec_completed(position) {
            self.driver.spec_norm(d, d)
        } else {
            self.driver.spec_norm(position % d, d)
        }
    }

    pub fn new(driver: Driver, iterations: Option<usize>) -> (r: Looper)
        ensures
            r == (Looper { driver, iterations }),
    {
        Looper { driver, iterations }
    }

    /// The value at elapsed time `position`, wrapping whole cycles away
    /// and holding the final value once the iteration bound is reached.
    pub fn step(&self, position: Milliseconds) -> (r: i64)
        requires
            self.wf(),
        ensures
            r == self.spec_step(position.0 as int),
    {
        let d: u64 = self.driver.duration.0;
        let cycles: u64 = position.0 / d;
        let completed: bool = match self.iterations {
            Some(n) => cycles >= n as u64,
            None => false,
        };
        if completed {
            self.driver.norm(Fraction { num: d, den: d })
        } else {
            proof {
                lemma_mod_division_less_than_divisor(position.0 as int, d as int);
            }
            self.driver.norm(Fraction { num: position.0 % d, den: d })
        }
    }
}

/// Interpolation lands exactly on the endpoints: at progress zero it
/// yields `start`, at progress one it yields `end`.
proof fn lemma_lerp_endpoints(start: int, end: int, den: int)
    requires
        1 <= den,
    ensures
        lerp_spec(start, end, 0, den) == start,
        lerp_spec(start, end, den, den) == end,
{
    lemma_div_of0(den);
    if end >= start {
        lemma_mul_is_commutative(end - start, den);
        lemma_div_multiples_vanish(end - start, den);
    } else {
        lemma_mul_is_commutative(start - end, den);
        lemma_div_multiples_vanish(start - end, den);
    }
}

/// Interpolation is monotone in progress, towards `end`.
proof fn lemma_lerp_monotone(start: int, end: int, n1: int, n2: int, den: int)
    requires
        1 <= den,
        0 <= n1 <= n2 <= den,
    ensures
        start <= end ==> lerp_spec(start, end, n1, den) <= lerp_spec(start, end, n2, den),
        end <= start ==> lerp_spec(start, end, n2, den) <= lerp_spec(start, end, n1, den),
{
    if end >= start {
        lemma_mul_inequality(n1, n2, end - start);
        lemma_mul_is_commutative(n1, end - start);
        lemma_mul_is_commutative(n2, end - start);
        lemma_div_is_ordered((end - start) * n1, (end - start) * n2, den);
    } else {
        lemma_mul_inequality(n1, n2, start - end);
        lemma_mul_is_commutative(n1, start - end);
        lemma_mul_is_commutative(n2, start - end);
        lemma_div_is_ordered((start - end) * n1, (start - end) * n2, den);
    }
}

/// Law: for every start value, end value and non-zero duration, a
/// driver's playthrough begins exactly at `start` and ends exactly at
/// `end` — `step` at position zero yields `start`, and at the full
/// duration yields `end`.
pub proof fn lemma_driver_endpoints(dr: Driver)
    requires
        dr.wf(),
    ensures
        dr.spec_norm(0, dr.duration.0 as int) == dr.start,
        dr.spec_norm(dr.duration.0 as int, dr.duration.0 as int) == dr.end,
{
    lemma_lerp_endpoints(dr.start as int, dr.end as int, dr.duration.0 as int);
}

/// Law: within one playthrough the driver's value is monotone between
/// the endpoints — non-decreasing from `start` to `end` when
/// `start <= end`, non-increasing when `end <= start`, and in either
/// case never outside the closed interval the endpoints span.
pub proof fn lemma_driver_monotone(dr: Driver, p1: int, p2: int)
    requires
        dr.wf(),
        0 <= p1 <= p2 <= dr.duration.0,
    ensures
        dr.start <= dr.end ==> dr.spec_norm(p1, dr.duration.0 as int) <= dr.spec_norm(
            p2,
            dr.duration.0 as int,
        ),
        dr.end <= dr.start ==> dr.spec_norm(p2, dr.duration.0 as int) <= dr.spec_norm(
            p1,
            dr.duration.0 as int,
        ),
        dr.start <= dr.end ==> dr.start <= dr.spec_norm(p1, dr.duration.0 as int) <= dr.end,
        dr.end <= dr.start ==> dr.end <= dr.spec_norm(p1, dr.duration.0 as int) <= dr.start,
{
    let d = dr.duration.0 as int;
    lemma_lerp_endpoints(dr.start as int, dr.end as int, d);
    lemma_lerp_monotone(dr.start as int, dr.end as int, p1, p2, d);
    lemma_lerp_monotone(dr.start as int, dr.end as int, 0, p1, d);
    lemma_lerp_monotone(dr.start as int, dr.end as int, p1, d, d);
}

/// Law (degenerate animation): when `start == end` every progress
/// fraction yields that one value, so both a driver's `step` and a
/// looper's `step` are constant.
pub proof fn lemma_driver_degenerate(dr: Driver, num: int, den: int)
    requires
        dr.start == dr.end,
        1 <= den,
    ensures
        dr.spec_norm(num, den) == dr.start,
{
    lemma_div_of0(den);
}

/// Law (purity): `step` has no hidden state — its contract pins the
/// result as a function of the immutable configuration and the queried
/// position alone, so any two results for the same position coincide.
pub proof fn lemma_step_deterministic(l: Looper, position: int, r1: int, r2: int)
    requires
        r1 == l.spec_step(position),
        r2 == l.spec_step(position),
    ensures
        r1 == r2,
{
}

/// Law (looping periodicity): a looper with unbounded iterations
/// repeats with the driver's duration as its period — the value at
/// `position + duration` equals the value at `position`, exactly.
pub proof fn lemma_looper_periodic(l: Looper, position: int)
    requires
        l.wf(),
        l.iterations is None,
        0 <= position,
    ensures
        l.spec_step(position + l.driver.duration.0) == l.spec_step(position),
{
    lemma_mod_add_multiples_vanish(position, l.driver.duration.0 as int);
}

/// Law (first cycle passes through): while still inside the first
/// cycle, wrapping changes nothing — the looper yields exactly what the
/// driver yields for the same elapsed time.
pub proof fn lemma_looper_first_cycle(l: Looper, position: int)
    requires
        l.wf(),
        0 <= position < l.driver.duration.0,
    ensures
        !l.spec_completed(position) ==> l.spec_step(position) == l.driver.spec_norm(
            position,
            l.driver.duration.0 as int,
        ),
{
    lemma_small_mod(position as nat, l.driver.duration.0 as nat);
}

/// Law (terminal hold): once the iteration bound is reached the looper
/// stays at the final frame's value, `end`.
pub proof fn lemma_looper_hold(l: Looper, position: int)
    requires
        l.wf(),
        l.spec_completed(position),
    ensures
        l.spec_step(position) == l.driver.end,
{
    lemma_lerp_endpoints(l.driver.start as int, l.driver.end as int, l.driver.duration.0 as int);
}

/// Law (forward-only state machine): the looper's terminal state is
/// never left — once a position completes the animation, every later
/// position does too.
pub proof fn lemma_completed_monotone(l: Looper, p1: int, p2: int)
    requires
        l.wf(),
        p1 <= p2,
        l.spec_completed(p1),
    ensures
        l.spec_completed(p2),
{
    lemma_div_is_ordered(p1, p2, l.driver.duration.0 as int);
}

} // verus!
