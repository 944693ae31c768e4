//! A periodic timer: armed on its first poll, it fires at most once per poll
//! and coalesces every period that passed unobserved.
use vstd::prelude::*;

verus! {

/// What a timer callback asks for after it has run.
pub enum TimerRun {
    /// Keep firing.
    Continue,
    /// Fire no more: the timer reports closure from then on.
    Stop,
}

/// The first instant of `next`, `next + period`, `next + 2 * period`, ...
/// that lies strictly after `now` (`next` itself when it already does).
pub open spec fn catch_up(next: int, period: nat, now: int) -> int
    decreases (if now < next { 0 } else { now - next + 1 }),
{
    if now < next || period == 0 {
        next
    } else {
        catch_up(next + period, period, now)
    }
}

/// Periods missed between polls are coalesced: however far `now` has run
/// past the scheduled instant, one firing moves the schedule to a single
/// instant strictly after `now`, at most one period later.
pub proof fn missed_periods_coalesce(next: int, period: nat, now: int)
    requires
        period > 0,
        next <= now + period,
    ensures
        now < catch_up(next, period, now) <= now + period,
        catch_up(next, period, now) >= next,
    decreases (if now < next { 0 } else { now - next + 1 }),
{
    if now >= next {
        missed_periods_coalesce(next + period, period, now);
    }
}

/// Whether a poll of `t` at `now` fires it: it is live, armed and due.
pub open spec fn fires_at(t: Timer, now: u64) -> bool {
    t.is_on() && (t.next_spec() matches Some(n) && n <= now)
}

/// The next activation of `t` after a poll at `now`: unchanged for a
/// stopped timer or one not yet due; one period ahead when it arms; the
/// first period boundary after `now` when it fires.
pub open spec fn next_after_poll(t: Timer, now: u64) -> Option<u64> {
    if !t.is_on() {
        t.next_spec()
    } else {
        match t.next_spec() {
            None => Some((now + t.period_spec()) as u64),
            Some(n) => if now < n {
                Some(n)
            } else {
                Some(catch_up(n as int, t.period_spec() as nat, now as int) as u64)
            },
        }
    }
}

/// What one poll of a timer decided.
pub enum TimerPoll {
    /// The timer is stopped: permanently closed.
    Closed,
    /// Armed by this poll: a wakeup is to be registered at the instant.
    Armed(u64),
    /// Armed and not yet due: nothing to do.
    Waiting,
    /// Due: the callback runs once and a wakeup is to be registered at the
    /// instant, the next activation.
    Fired(u64),
}

/// A periodic timer's schedule.
pub struct Timer {
    period: u64,
    next_activation: Option<u64>,
    on: bool,
}

impl Timer {
    pub closed spec fn period_spec(&self) -> u64 {
        self.period
    }

    /// The instant of the next activation, once armed.
    pub closed spec fn next_spec(&self) -> Option<u64> {
        self.next_activation
    }

    /// Whether the timer is still live.
    pub closed spec fn is_on(&self) -> bool {
        self.on
    }

    /// The period is positive, so that catching up always ends.
    pub closed spec fn wf(&self) -> bool {
        self.period > 0
    }

    /// An unarmed, live timer with the given period.
    pub fn new(period: u64) -> (r: Timer)
        requires
            period > 0,
        ensures
            r.wf(),
            r.period_spec() == period,
            r.next_spec() is None,
            r.is_on(),
    {
        Timer { period, next_activation: None, on: true }
    }

    /// Whether the timer is still live.
    pub fn is_live(&self) -> (r: bool)
        ensures
            r == self.is_on(),
    {
        self.on
    }

    /// The period, in ticks.
    pub fn period(&self) -> (r: u64)
        ensures
            r == self.period_spec(),
    {
        self.period
    }

    /// Turns the timer off for good.
    pub fn stop(&mut self)
        ensures
            final(self).period_spec() == old(self).period_spec(),
            final(self).next_spec() == old(self).next_spec(),
            !final(self).is_on(),
            old(self).wf() ==> final(self).wf(),
    {
        self.on = false;
    }

    /// Decides what happens at instant `now`: a stopped timer is closed; an
    /// unarmed one arms itself one period ahead; an armed one that is due
    /// fires once and moves to the first period boundary after `now`.
    pub fn poll(&mut self, now: u64) -> (r: TimerPoll)
        requires
            old(self).wf(),
            old(self).is_on() ==> now + old(self).period_spec() <= u64::MAX,
        ensures
            final(self).wf(),
            final(self).next_spec() == next_after_poll(*old(self), now),
            r is Fired <==> fires_at(*old(self), now),
            r is Armed <==> old(self).is_on() && old(self).next_spec() is None,
            final(self).period_spec() == old(self).period_spec(),
            final(self).is_on() == old(self).is_on(),
            !old(self).is_on() ==> r is Closed && final(self).next_spec() == old(self).next_spec(),
            old(self).is_on() ==> match old(self).next_spec() {
                None => r == TimerPoll::Armed((now + old(self).period_spec()) as u64)
                    && final(self).next_spec() == Some((now + old(self).period_spec()) as u64),
                Some(n) => if now < n {
                    r is Waiting && final(self).next_spec() == old(self).next_spec()
                } else {
                    r == TimerPoll::Fired(
                        catch_up(n as int, old(self).period_spec() as nat, now as int) as u64,
                    ) && final(self).next_spec() == Some(
                        catch_up(n as int, old(self).period_spec() as nat, now as int) as u64,
                    )
                },
            },
            r matches TimerPoll::Fired(at) ==> now < at <= now + old(self).period_spec(),
            r matches TimerPoll::Armed(at) ==> now < at <= now + old(self).period_spec(),
    {
        if !self.on {
            return TimerPoll::Closed;
        }
        match self.next_activation {
            None => {
                let next = now + self.period;
                self.next_activation = Some(next);
                TimerPoll::Armed(next)
            },
            Some(n) => {
                if now < n {
                    TimerPoll::Waiting
                } else {
                    let next = next_after(n, self.period, now);
                    self.next_activation = Some(next);
                    TimerPoll::Fired(next)
                }
            },
        }
    }
}

/// Adds `period` to `next` until the result lies strictly after `now`.
fn next_after(next: u64, period: u64, now: u64) -> (r: u64)
    requires
        period > 0,
        next <= now + period,
        now + period <= u64::MAX,
    ensures
        r == catch_up(next as int, period as nat, now as int),
        now < r <= now + period,
{
    let mut n = next;
    proof {
        missed_periods_coalesce(next as int, period as nat, now as int);
    }
    while n <= now
        invariant
            period > 0,
            n <= now + period,
            now + period <= u64::MAX,
            catch_up(n as int, period as nat, now as int) == catch_up(
                next as int,
                period as nat,
                now as int,
            ),
        decreases now + period - n,
    {
        n = n + period;
    }
    proof {
        missed_periods_coalesce(n as int, period as nat, now as int);
    }
    n
}

} // verus!
