//! Busy-waiting on the CPU's time-stamp counter.
use vstd::prelude::*;

verus! {

pub const NSECS_PER_SEC: u64 = 1000000000;
/// The counter frequency assumed, in kHz.
pub const CPU_KHZ_DEFAULT: u64 = 200;
/// The ticks before the end of a wait spent spinning rather than pausing.
pub const PAUSE_THRESHOLD_TICKS: u64 = 150;

/// The counter ticks that `ns` nanoseconds take.
pub fn ticks_for(ns: u64) -> (r: u64)
    requires
        ns * CPU_KHZ_DEFAULT <= u64::MAX,
    ensures
        r == ns * CPU_KHZ_DEFAULT / NSECS_PER_SEC as int,
{
    ns * CPU_KHZ_DEFAULT / NSECS_PER_SEC
}

/// The ticks of a wait of `delta` ticks spent pausing: all but the last
/// 150.
pub fn pause_ticks(delta: u64) -> (r: u64)
    ensures
        r == if delta > PAUSE_THRESHOLD_TICKS {
            delta - PAUSE_THRESHOLD_TICKS
        } else {
            0
        },
{
    if delta > PAUSE_THRESHOLD_TICKS {
        delta - PAUSE_THRESHOLD_TICKS
    } else {
        0
    }
}

/// What a wait does next.
#[derive(Clone, Copy, Debug, PartialEq, Eq, Structural)]
pub enum DelayStep {
    /// Pause the CPU, then read the counter again.
    Pause,
    /// Read the counter again at once.
    Spin,
    /// The wait is over.
    Done,
}

/// The next step of a wait of `delta` ticks, `pause_delta` of them
/// pausing, started at counter value `start`, when the counter reads `now`
/// (the counter may have wrapped).
pub fn delay_step(start: u64, now: u64, delta: u64, pause_delta: u64) -> (r: DelayStep)
    ensures
        ({
            let elapsed = (now - start) % 0x1_0000_0000_0000_0000;
            r == if elapsed < pause_delta {
                DelayStep::Pause
            } else if elapsed < delta {
                DelayStep::Spin
            } else {
                DelayStep::Done
            }
        }),
{
    let elapsed = now.wrapping_sub(start);
    if elapsed < pause_delta {
        DelayStep::Pause
    } else if elapsed < delta {
        DelayStep::Spin
    } else {
        DelayStep::Done
    }
}

/// Something that waits a number of nanoseconds.
pub trait Clock {
    /// The nanoseconds waited so far, where the clock counts them. A clock
    /// that does not define it keeps the default, which counts none: the
    /// contract of `ndelay` then says nothing.
    closed spec fn waited(&self) -> Option<int> {
        None
    }

    /// Waits `ns` nanoseconds.
    fn ndelay(&mut self, ns: u64)
        ensures
            old(self).waited() matches Some(w) ==> final(self).waited() == Some(w + ns),
    ;
}

/// Something polled until it changes.
pub trait Condition {
    /// How the condition answers its polls from now on, where that is
    /// known: poll `j` (from 0) answers `a(j)`. A condition that does not
    /// define it keeps the default, which states none: the contract of
    /// `holds` then says nothing.
    closed spec fn answers(&self) -> Option<spec_fn(nat) -> bool> {
        None
    }

    fn holds(&mut self) -> (r: bool)
        ensures
            old(self).answers() matches Some(a) ==> r == a(0) && final(self).answers() == Some(later(a, 1)),
    ;
}

/// The answers `a` after the first `n` polls.
pub open spec fn later(a: spec_fn(nat) -> bool, n: nat) -> spec_fn(nat) -> bool {
    |j: nat| a(j + n)
}

/// The index of the first poll, from poll `j` on and below `limit`, that
/// does not answer `want`; `limit` where there is none.
pub open spec fn first_other(a: spec_fn(nat) -> bool, want: bool, j: nat, limit: nat) -> nat
    decreases limit - j,
{
    if j >= limit {
        limit
    } else if a(j) != want {
        j
    } else {
        first_other(a, want, j + 1, limit)
    }
}

/// Waits `us` microseconds.
pub fn udelay<C: Clock>(clock: &mut C, us: u64)
    ensures
        old(clock).waited() matches Some(w) ==> final(clock).waited() == Some(w + us * 1000),
{
    let ghost w0 = clock.waited();
    let mut i: u64 = 0;
    while i < us
        invariant
            i <= us,
            w0 == old(clock).waited(),
            w0 matches Some(w) ==> clock.waited() == Some(w + i * 1000),
        decreases us - i,
    {
        clock.ndelay(1000);
        i = i + 1;
    }
}

/// Waits `ms` milliseconds.
pub fn mdelay<C: Clock>(clock: &mut C, ms: u64)
    ensures
        old(clock).waited() matches Some(w) ==> final(clock).waited() == Some(w + ms * 1_000_000),
{
    let ghost w0 = clock.waited();
    let mut i: u64 = 0;
    while i < ms
        invariant
            i <= ms,
            w0 == old(clock).waited(),
            w0 matches Some(w) ==> clock.waited() == Some(w + i * 1_000_000),
        decreases ms - i,
    {
        udelay(clock, 1000);
        i = i + 1;
    }
}

/// Polls `cond` every microsecond while it answers `want`, for `ms`
/// milliseconds at most; returns its answer to one more poll.
fn wait_while_is<C: Clock, P: Condition>(clock: &mut C, ms: u64, cond: &mut P, want: bool) -> (r: bool)
    requires
        ms * 1000 <= u64::MAX,
    ensures
        old(clock).waited() matches Some(w) ==> (final(clock).waited() matches Some(w2) && w <= w2 <= w + ms
            * 1_000_000),
        old(cond).answers() matches Some(a) ==> {
            let d = first_other(a, want, 0, (ms * 1000) as nat);
            &&& r == a(d + 1)
            &&& old(clock).waited() matches Some(w) ==> final(clock).waited() == Some(w + d * 1000)
        },
{
    let ghost w0 = clock.waited();
    let ghost s0 = cond.answers();
    let ghost limit: nat = (ms * 1000) as nat;
    let mut us = ms * 1000;
    loop
        invariant_except_break
            s0 matches Some(a) ==> {
                let j = (limit - us) as nat;
                &&& cond.answers() == Some(later(a, j))
                &&& first_other(a, want, 0, limit) == first_other(a, want, j, limit)
            },
        invariant
            us <= ms * 1000,
            limit == ms * 1000,
            w0 == old(clock).waited(),
            s0 == old(cond).answers(),
            w0 matches Some(w) ==> clock.waited() == Some(w + (ms * 1000 - us) * 1000),
        ensures
            us <= ms * 1000,
            w0 matches Some(w) ==> clock.waited() == Some(w + (ms * 1000 - us) * 1000),
            s0 matches Some(a) ==> {
                let j = (limit - us) as nat;
                &&& j == first_other(a, want, 0, limit)
                &&& cond.answers() == Some(later(a, j + 1))
            },
        decreases us,
    {
        let ghost before = cond.answers();
        let h = cond.holds();
        proof {
            if s0 is Some {
                let a = s0->Some_0;
                let j = (limit - us) as nat;
                assert(h == a(j));
                assert(later(later(a, j), 1) =~= later(a, j + 1));
            }
        }
        if !(h == want && us > 0) {
            break;
        }
        udelay(clock, 1);
        us = us - 1;
    }
    let r = cond.holds();
    proof {
        if s0 is Some {
            let a = s0->Some_0;
            let d = first_other(a, want, 0, limit);
            assert(r == later(a, d + 1)(0));
        }
    }
    r
}

/// Polls `cond` every microsecond while it holds, for `ms` milliseconds
/// at most; returns whether it still holds.
pub fn wait_while<C: Clock, P: Condition>(clock: &mut C, ms: u64, cond: &mut P) -> (r: bool)
    requires
        ms * 1000 <= u64::MAX,
    ensures
        old(clock).waited() matches Some(w) ==> (final(clock).waited() matches Some(w2) && w <= w2 <= w + ms
            * 1_000_000),
        old(cond).answers() matches Some(a) ==> {
            let d = first_other(a, true, 0, (ms * 1000) as nat);
            &&& r == a(d + 1)
            &&& old(clock).waited() matches Some(w) ==> final(clock).waited() == Some(w + d * 1000)
        },
{
    wait_while_is(clock, ms, cond, true)
}

/// Polls `cond` every microsecond until it holds, for `ms` milliseconds at
/// most; returns whether it holds.
pub fn wait_until<C: Clock, P: Condition>(clock: &mut C, ms: u64, cond: &mut P) -> (r: bool)
    requires
        ms * 1000 <= u64::MAX,
    ensures
        old(clock).waited() matches Some(w) ==> (final(clock).waited() matches Some(w2) && w <= w2 <= w + ms
            * 1_000_000),
        old(cond).answers() matches Some(a) ==> {
            let d = first_other(a, false, 0, (ms * 1000) as nat);
            &&& r == a(d + 1)
            &&& old(clock).waited() matches Some(w) ==> final(clock).waited() == Some(w + d * 1000)
        },
{
    wait_while_is(clock, ms, cond, false)
}

} // verus!
