//! The clock tracker: a tick count with a known rate, tied to the wallclock
//! at one instant, and the drift between the two since.
//!
//! The tracker reads no clock itself: the wallclock instant is handed to
//! it, in microseconds.
use vstd::prelude::*;
use crate::error::Error;

verus! {

/// What a clock holds.
pub struct ClockView {
    /// The tick rate is known.
    pub timebase: bool,
    /// The ticks are tied to the wallclock.
    pub wallclock: bool,
    pub ticks_per_second: i64,
    /// The tick value at which the ticks were tied to the wallclock.
    pub anchor_ticks: i64,
    /// The wallclock instant of that tie, in microseconds.
    pub anchor_us: i64,
    /// The current tick value.
    pub ticks: i64,
}

/// Where a clock stands.
#[derive(Clone, Copy, Debug, PartialEq, Eq, Structural)]
pub enum ClockState {
    Uninitialized,
    TimebaseEstablished,
    WallclockEstablished,
}

/// The clock before anything was established.
pub open spec fn blank_clock() -> ClockView {
    ClockView {
        timebase: false,
        wallclock: false,
        ticks_per_second: 0,
        anchor_ticks: 0,
        anchor_us: 0,
        ticks: 0,
    }
}

/// What holds of a clock at all times: the wallclock is established only
/// on a timebase, and an established rate is positive.
pub open spec fn clock_ok(v: ClockView) -> bool {
    &&& v.wallclock ==> v.timebase
    &&& v.timebase ==> v.ticks_per_second > 0
}

/// Where a clock stands.
pub open spec fn clock_state(v: ClockView) -> ClockState {
    if v.wallclock {
        ClockState::WallclockEstablished
    } else if v.timebase {
        ClockState::TimebaseEstablished
    } else {
        ClockState::Uninitialized
    }
}

/// The quotient rounded towards zero.
pub open spec fn div_to_zero(a: int, b: int) -> int {
    if a >= 0 {
        a / b
    } else {
        -((-a) / b)
    }
}

/// The time that the ticks say has passed since the tie, in microseconds.
pub open spec fn ticks_elapsed_us(v: ClockView) -> int {
    div_to_zero((v.ticks - v.anchor_ticks) * 1_000_000, v.ticks_per_second as int)
}

/// How far the ticks are ahead of the wallclock at `now_us`, in
/// microseconds: negative where the ticks lag behind.
pub open spec fn drift_us_of(v: ClockView, now_us: i64) -> int {
    ticks_elapsed_us(v) - (now_us - v.anchor_us)
}

/// The drift in whole milliseconds, rounded towards zero.
pub open spec fn drift_ms_of(v: ClockView, now_us: i64) -> int {
    div_to_zero(drift_us_of(v, now_us), 1000)
}

/// The Clock Tracker.
#[derive(Clone, Copy, Debug)]
pub struct Clock {
    timebase: bool,
    wallclock: bool,
    ticks_per_second: i64,
    anchor_ticks: i64,
    anchor_us: i64,
    ticks: i64,
}

impl View for Clock {
    type V = ClockView;

    closed spec fn view(&self) -> ClockView {
        ClockView {
            timebase: self.timebase,
            wallclock: self.wallclock,
            ticks_per_second: self.ticks_per_second,
            anchor_ticks: self.anchor_ticks,
            anchor_us: self.anchor_us,
            ticks: self.ticks,
        }
    }
}

impl Clock {
    /// A clock with nothing established.
    pub fn new() -> (r: Self)
        ensures
            r@ == blank_clock(),
    {
        Clock {
            timebase: false,
            wallclock: false,
            ticks_per_second: 0,
            anchor_ticks: 0,
            anchor_us: 0,
            ticks: 0,
        }
    }

    /// Back to a clock with nothing established.
    pub fn initialize(&mut self)
        ensures
            final(self)@ == blank_clock(),
    {
        self.timebase = false;
        self.wallclock = false;
        self.ticks_per_second = 0;
        self.anchor_ticks = 0;
        self.anchor_us = 0;
        self.ticks = 0;
    }

    /// Sets the tick rate. A rate that is not positive is refused.
    pub fn establish_timebase(&mut self, ticks_per_second: i64) -> (r: Result<(), Error>)
        requires
            clock_ok(old(self)@),
        ensures
            clock_ok(final(self)@),
            ticks_per_second > 0 ==> r.is_ok() && final(self)@ == (ClockView {
                timebase: true,
                ticks_per_second: ticks_per_second,
                ..old(self)@
            }),
            ticks_per_second <= 0 ==> r == Err::<(), Error>(Error::InvalidRate) && final(self)@
                == old(self)@,
    {
        if ticks_per_second <= 0 {
            return Err(Error::InvalidRate);
        }
        self.ticks_per_second = ticks_per_second;
        self.timebase = true;
        Ok(())
    }

    /// Ties the tick value `ticks` to the wallclock instant `now_us`, and
    /// makes it the current tick value. Without a timebase this is refused.
    pub fn establish_wallclock(&mut self, ticks: i64, now_us: i64) -> (r: Result<(), Error>)
        requires
            clock_ok(old(self)@),
        ensures
            clock_ok(final(self)@),
            old(self)@.timebase ==> r.is_ok() && final(self)@ == (ClockView {
                wallclock: true,
                anchor_ticks: ticks,
                anchor_us: now_us,
                ticks: ticks,
                ..old(self)@
            }),
            !old(self)@.timebase ==> r == Err::<(), Error>(Error::NotEstablished) && final(self)@
                == old(self)@,
    {
        if !self.timebase {
            return Err(Error::NotEstablished);
        }
        self.wallclock = true;
        self.anchor_ticks = ticks;
        self.anchor_us = now_us;
        self.ticks = ticks;
        Ok(())
    }

    /// Sets the current tick value.
    pub fn set_ticks(&mut self, ticks: i64)
        ensures
            final(self)@ == (ClockView { ticks: ticks, ..old(self)@ }),
    {
        self.ticks = ticks;
    }

    /// The current tick value.
    pub fn ticks(&self) -> (r: i64)
        ensures
            r == self@.ticks,
    {
        self.ticks
    }

    /// Whether the tick rate is known.
    pub fn is_established_timebase(&self) -> (r: bool)
        ensures
            r == self@.timebase,
    {
        self.timebase
    }

    /// Whether the ticks are tied to the wallclock.
    pub fn is_established_wallclock(&self) -> (r: bool)
        ensures
            r == self@.wallclock,
    {
        self.wallclock
    }

    /// Where the clock stands.
    pub fn state(&self) -> (r: ClockState)
        ensures
            r == clock_state(self@),
    {
        if self.wallclock {
            ClockState::WallclockEstablished
        } else if self.timebase {
            ClockState::TimebaseEstablished
        } else {
            ClockState::Uninitialized
        }
    }

    /// How far the ticks are ahead of the wallclock at `now_us`, in
    /// microseconds; negative where they lag behind.
    ///
    /// Before the wallclock is established there is no drift to tell, and
    /// the call is refused; so is a drift that does not fit the result.
    pub fn drift_us(&self, now_us: i64) -> (r: Result<i64, Error>)
        requires
            clock_ok(self@),
        ensures
            !self@.wallclock ==> r == Err::<i64, Error>(Error::NotEstablished),
            self@.wallclock && i64::MIN <= drift_us_of(self@, now_us) <= i64::MAX ==> r == Ok::<
                i64,
                Error,
            >(drift_us_of(self@, now_us) as i64),
            self@.wallclock && !(i64::MIN <= drift_us_of(self@, now_us) <= i64::MAX) ==> r == Err::<
                i64,
                Error,
            >(Error::OutOfRange),
    {
        if !self.wallclock {
            return Err(Error::NotEstablished);
        }
        let drift: i128 = self.drift(now_us);
        if drift < i64::MIN as i128 || drift > i64::MAX as i128 {
            return Err(Error::OutOfRange);
        }
        Ok(drift as i64)
    }

    /// The drift in whole milliseconds, rounded towards zero.
    ///
    /// Before the wallclock is established there is no drift to tell, and
    /// the call is refused; so is a drift that does not fit the result.
    pub fn drift_ms(&self, now_us: i64) -> (r: Result<i64, Error>)
        requires
            clock_ok(self@),
        ensures
            !self@.wallclock ==> r == Err::<i64, Error>(Error::NotEstablished),
            self@.wallclock && i64::MIN <= drift_ms_of(self@, now_us) <= i64::MAX ==> r == Ok::<
                i64,
                Error,
            >(drift_ms_of(self@, now_us) as i64),
            self@.wallclock && !(i64::MIN <= drift_ms_of(self@, now_us) <= i64::MAX) ==> r == Err::<
                i64,
                Error,
            >(Error::OutOfRange),
    {
        if !self.wallclock {
            return Err(Error::NotEstablished);
        }
        let drift: i128 = self.drift(now_us) / 1000;
        if drift < i64::MIN as i128 || drift > i64::MAX as i128 {
            return Err(Error::OutOfRange);
        }
        Ok(drift as i64)
    }

    fn drift(&self, now_us: i64) -> (r: i128)
        requires
            self@.ticks_per_second > 0,
        ensures
            r == drift_us_of(self@, now_us),
    {
        let ticks: i128 = self.ticks as i128 - self.anchor_ticks as i128;
        let scaled: i128 = ticks * 1_000_000;
        let rate: i128 = self.ticks_per_second as i128;
        let by_ticks: i128 = scaled / rate;
        proof {
            if scaled >= 0 {
                vstd::arithmetic::div_mod::lemma_div_pos_is_pos(scaled as int, rate as int);
                vstd::arithmetic::div_mod::lemma_div_is_ordered_by_denominator(
                    scaled as int,
                    1,
                    rate as int,
                );
            } else {
                vstd::arithmetic::div_mod::lemma_div_pos_is_pos(-scaled as int, rate as int);
                vstd::arithmetic::div_mod::lemma_div_is_ordered_by_denominator(
                    -scaled as int,
                    1,
                    rate as int,
                );
            }
        }
        by_ticks - (now_us as i128 - self.anchor_us as i128)
    }
}

/// Where the ticks have advanced by exactly the time that passed less
/// `lag_ms` milliseconds, the drift is `-lag_ms`: the ticks lag behind by
/// that much.
pub proof fn lemma_drift_of_lagging_ticks(v: ClockView, now_us: i64, passed_ms: int, lag_ms: int)
    requires
        v.ticks_per_second > 0,
        now_us - v.anchor_us == passed_ms * 1000,
        (v.ticks - v.anchor_ticks) * 1000 == v.ticks_per_second * (passed_ms - lag_ms),
    ensures
        drift_ms_of(v, now_us) == -lag_ms,
{
    let rate = v.ticks_per_second as int;
    let us = (passed_ms - lag_ms) * 1000;
    assert((v.ticks - v.anchor_ticks) * 1_000_000 == us * rate) by (nonlinear_arith)
        requires
            (v.ticks - v.anchor_ticks) * 1000 == rate * (passed_ms - lag_ms),
            us == (passed_ms - lag_ms) * 1000,
    ;
    if us >= 0 {
        assert(us * rate >= 0) by (nonlinear_arith)
            requires
                us >= 0,
                rate > 0,
        ;
        vstd::arithmetic::div_mod::lemma_div_multiples_vanish(us, rate);
    } else {
        assert(-(us * rate) == (-us) * rate && us * rate < 0) by (nonlinear_arith)
            requires
                us < 0,
                rate > 0,
        ;
        vstd::arithmetic::div_mod::lemma_div_multiples_vanish(-us, rate);
    }
}

/// The drift in milliseconds is the drift in microseconds with less than
/// a millisecond cut off, towards zero.
pub proof fn lemma_drift_ms_is_close(v: ClockView, now_us: i64)
    ensures
        -1000 < drift_us_of(v, now_us) - 1000 * drift_ms_of(v, now_us) < 1000,
        drift_us_of(v, now_us) >= 0 ==> 0 <= 1000 * drift_ms_of(v, now_us) <= drift_us_of(v, now_us),
        drift_us_of(v, now_us) <= 0 ==> drift_us_of(v, now_us) <= 1000 * drift_ms_of(v, now_us) <= 0,
{
}

/// The ticks say no more than a microsecond less, and never more, than
/// the time that their number and rate give: the drift in microseconds
/// lies within a microsecond of the exact one.
pub proof fn lemma_ticks_elapsed_is_close(v: ClockView)
    requires
        v.ticks_per_second > 0,
        v.ticks >= v.anchor_ticks,
    ensures
        ticks_elapsed_us(v) * v.ticks_per_second <= (v.ticks - v.anchor_ticks) * 1_000_000,
        (v.ticks - v.anchor_ticks) * 1_000_000 < (ticks_elapsed_us(v) + 1) * v.ticks_per_second,
{
    let scaled = (v.ticks - v.anchor_ticks) * 1_000_000;
    let rate = v.ticks_per_second as int;
    vstd::arithmetic::div_mod::lemma_fundamental_div_mod(scaled, rate);
    vstd::arithmetic::div_mod::lemma_mod_bound(scaled, rate);
    assert((scaled / rate + 1) * rate == (scaled / rate) * rate + rate) by (nonlinear_arith);
}

} // verus!
