//! User-level timers, measured against the host's monotonic clock.
//!
//! A [`Timer`] records the instant of its registration and a deadline
//! duration, both in nanoseconds. The executor recomputes the elapsed
//! flag once per loop iteration; the comparison is strict, so a sample
//! taken exactly on the edge leaves the timer not yet elapsed.

use vstd::prelude::*;
use crate::engine::Reactor;
use crate::errors::RuntimeError;
use crate::host::HostApi;
use crate::task::GuestFuture;

verus! {

/// A registered timer: registration instant, deadline duration and the
/// elapsed flag that the executor refreshes each loop iteration.
#[derive(Clone, Copy, Debug)]
pub struct Timer {
    /// Monotonic instant of registration, in nanoseconds.
    pub at: u64,
    /// Deadline duration, in nanoseconds.
    pub deadline: u64,
    /// Whether `now - at` has strictly exceeded `deadline`.
    pub elapsed: bool,
}

/// What the elapsed flag of a timer registered at `at` with deadline
/// `deadline` must read when the clock shows `now`: elapsed holds only
/// strictly after `at + deadline`, so a timer never fires early.
pub open spec fn timer_elapsed_at(at: u64, deadline: u64, now: u64) -> bool {
    (now as int) > (at as int) + (deadline as int)
}

impl Timer {
    /// A fresh, not-yet-elapsed timer registered at instant `at`.
    pub fn new(at: u64, deadline: u64) -> (t: Timer)
        ensures
            t.at == at,
            t.deadline == deadline,
            !t.elapsed,
    {
        Timer { at, deadline, elapsed: false }
    }

    /// Recomputes the elapsed flag against the clock sample `now`.
    /// A sample earlier than the registration instant (only possible on
    /// a misbehaving clock) reads as not elapsed.
    pub fn update_elapsed(&mut self, now: u64)
        ensures
            final(self).at == old(self).at,
            final(self).deadline == old(self).deadline,
            final(self).elapsed == timer_elapsed_at(old(self).at, old(self).deadline, now),
    {
        if now >= self.at {
            self.elapsed = now - self.at > self.deadline;
        } else {
            self.elapsed = false;
        }
    }

    /// Reads the elapsed flag as last recomputed.
    pub fn elapsed(&self) -> (e: bool)
        ensures
            e == self.elapsed,
    {
        self.elapsed
    }
}

/// The future behind [`Timer::sleep`]: a named timer awaiting its
/// deadline.
///
/// Its first poll registers the timer at the clock sample of that
/// poll; later polls complete once the executor has marked the timer
/// elapsed, removing the timer on completion. Code that abandons a
/// sleep before completion must call [`TimeFuture::cancel`], or the
/// reactor never empties.
pub struct TimeFuture {
    timer_key: u64,
    duration: u64,
}

impl TimeFuture {
    /// The reactor key this sleep registers its timer under.
    pub closed spec fn key_spec(self) -> u64 {
        self.timer_key
    }

    /// The deadline duration, in nanoseconds.
    pub closed spec fn duration_spec(self) -> u64 {
        self.duration
    }

    /// One poll of the sleep under the owning task's waker.
    ///
    /// Completes exactly when the registered timer has been marked
    /// elapsed — by [`Reactor::update_timers`], so only strictly after
    /// `at + duration` on the executor's clock — and removes the timer
    /// then. An unregistered key registers a fresh timer at `now` and
    /// suspends.
    pub fn poll(&self, rt: &mut Reactor, waker: u64, now: u64) -> (r: Option<()>)
        requires
            old(rt).wf(),
        ensures
            final(rt).wf(),
            final(rt).sched_extends(*old(rt)),
            final(rt).pending_view() == old(rt).pending_view(),
            final(rt).finished_view() == old(rt).finished_view(),
            final(rt).slots_view() == old(rt).slots_view(),
            final(rt).ready_view() == old(rt).ready_view(),
            final(rt).next_id_spec() == old(rt).next_id_spec(),
            r is Some <==> old(rt).timers_view().contains_key(self.key_spec()) && old(
                rt,
            ).timers_view()[self.key_spec()].0.elapsed,
            r is Some ==> final(rt).timers_view() == old(rt).timers_view().remove(
                self.key_spec(),
            ),
            old(rt).timers_view().contains_key(self.key_spec()) && !old(
                rt,
            ).timers_view()[self.key_spec()].0.elapsed ==> final(rt).timers_view() == old(
                rt,
            ).timers_view(),
            !old(rt).timers_view().contains_key(self.key_spec()) ==> final(rt).timers_view()
                == old(rt).timers_view().insert(
                self.key_spec(),
                ((Timer { at: now, deadline: self.duration_spec(), elapsed: false }), waker),
            ),
    {
        if rt.is_timer_pollable(self.timer_key) {
            if rt.timer_has_elapsed(self.timer_key) {
                rt.remove_timer(self.timer_key);
                proof {
                    crate::engine::lemma_sched_extends_refl(*rt);
                }
                Some(())
            } else {
                proof {
                    crate::engine::lemma_sched_extends_refl(*rt);
                }
                None
            }
        } else {
            rt.register_timer(self.timer_key, (Timer::new(now, self.duration), waker));
            proof {
                crate::engine::lemma_sched_extends_refl(*rt);
            }
            None
        }
    }

    /// Deregisters the timer, if registered: the scoped release a
    /// dropped sleep owes the reactor.
    pub fn cancel(&self, rt: &mut Reactor)
        requires
            old(rt).wf(),
        ensures
            final(rt).wf(),
            final(rt).timers_view() == old(rt).timers_view().remove(self.key_spec()),
            final(rt).pending_view() == old(rt).pending_view(),
            final(rt).finished_view() == old(rt).finished_view(),
            final(rt).slots_view() == old(rt).slots_view(),
            final(rt).ready_view() == old(rt).ready_view(),
            final(rt).next_id_spec() == old(rt).next_id_spec(),
    {
        rt.remove_timer(self.timer_key);
    }
}

impl<H: HostApi> GuestFuture<H> for TimeFuture {
    type Output = ();

    fn poll_fut(&mut self, rt: &mut Reactor, host: &mut H, waker: u64, now: u64) -> (r: Option<
        (),
    >) {
        self.poll(rt, waker, now)
    }

    fn cancel_fut(&mut self, rt: &mut Reactor) {
        self.cancel(rt);
        proof {
            crate::engine::lemma_sched_extends_refl(*rt);
        }
    }
}

/// The race decision of one timeout poll, from the inner future's
/// answer and the deadline reading taken before it ran: an inner
/// completion wins, even on the same tick as the deadline; the timeout
/// error comes only when the inner suspended and the deadline had
/// fired; otherwise the race stays pending.
pub open spec fn timeout_outcome<V>(inner: Option<V>, fired: bool) -> Option<
    Result<V, RuntimeError>,
> {
    match inner {
        Option::Some(v) => Option::Some(Result::Ok(v)),
        Option::None => if fired {
            Option::Some(Result::Err(RuntimeError::TimedOut))
        } else {
            Option::None
        },
    }
}

/// Decides one round of the timeout race, exactly as
/// [`timeout_outcome`] states.
pub fn timeout_decision<V>(inner: Option<V>, fired: bool) -> (d: Option<Result<V, RuntimeError>>)
    ensures
        d == timeout_outcome(inner, fired),
{
    match inner {
        Some(v) => Some(Ok(v)),
        None => if fired {
            Some(Err(RuntimeError::TimedOut))
        } else {
            None
        },
    }
}

/// The future behind [`Timer::timeout`]: an inner future raced against
/// a sleep.
///
/// Each poll polls the inner future first, so an inner completion on
/// the same tick as the deadline wins; only if the inner is still
/// pending is the sleep polled. When the deadline fires first the
/// inner future is dropped before the error is returned, and the sleep
/// timer is removed when the timeout resolves either way.
pub struct TimeoutFuture<F> {
    timer_future: TimeFuture,
    fut: Option<F>,
}

impl<F> TimeoutFuture<F> {
    /// The sleep that carries the deadline.
    pub closed spec fn timer_spec(self) -> TimeFuture {
        self.timer_future
    }

    /// The inner future, until the timeout resolves.
    pub closed spec fn fut_spec(self) -> Option<F> {
        self.fut
    }

    /// One poll of the race under the owning task's waker.
    pub fn poll<H: HostApi>(&mut self, rt: &mut Reactor, host: &mut H, waker: u64, now: u64) -> (r:
        Option<Result<F::Output, RuntimeError>>) where F: GuestFuture<H>
        requires
            old(rt).wf(),
        ensures
            final(rt).wf(),
            final(rt).sched_extends(*old(rt)),
            final(self).timer_spec() == old(self).timer_spec(),
            old(self).fut_spec() is None ==> r is None && final(self).fut_spec() is None,
            r matches Some(res) ==> {
                &&& old(self).fut_spec() is Some
                &&& final(self).fut_spec() is None
                &&& !final(rt).timers_view().contains_key(old(self).timer_spec().key_spec())
                &&& (res matches Err(e) ==> e == RuntimeError::TimedOut)
                &&& (res is Err ==> old(rt).timers_view().contains_key(
                    old(self).timer_spec().key_spec(),
                ) && old(rt).timers_view()[old(self).timer_spec().key_spec()].0.elapsed)
            },
            r is None && old(self).fut_spec() is Some ==> final(self).fut_spec() is Some,
            old(self).fut_spec() is Some && old(rt).timers_view().contains_key(
                old(self).timer_spec().key_spec(),
            ) && old(rt).timers_view()[old(self).timer_spec().key_spec()].0.elapsed ==> r is Some,
    {
        let inner = self.fut.take();
        match inner {
            Some(mut f) => {
                let ghost rt_0 = *rt;
                // The deadline is read against the state before the
                // inner future runs, so a timeout error is only ever
                // grounded in a deadline that had already strictly
                // passed; the reading decides only if the inner future
                // suspends, so an inner completion on the same tick
                // still wins.
                let fired = self.timer_future.poll(rt, waker, now).is_some();
                let ghost rt_1 = *rt;
                let answer = f.poll_fut(rt, host, waker, now);
                let ghost rt_2 = *rt;
                let inner_suspended = answer.is_none();
                match timeout_decision(answer, fired) {
                    Some(res) => {
                        if inner_suspended {
                            f.cancel_fut(rt);
                        } else {
                            proof {
                                crate::engine::lemma_sched_extends_refl(*rt);
                            }
                        }
                        let ghost rt_3 = *rt;
                        self.timer_future.cancel(rt);
                        proof {
                            crate::engine::lemma_sched_extends_trans(rt_0, rt_1, rt_2);
                            crate::engine::lemma_sched_extends_trans(rt_0, rt_2, rt_3);
                            crate::engine::lemma_sched_extends_trans(rt_0, rt_3, *rt);
                            assert(!rt.timers_view().contains_key(
                                self.timer_future.key_spec(),
                            ));
                        }
                        Some(res)
                    },
                    None => {
                        self.fut = Some(f);
                        proof {
                            crate::engine::lemma_sched_extends_trans(rt_0, rt_1, *rt);
                        }
                        None
                    },
                }
            },
            None => {
                proof {
                    crate::engine::lemma_sched_extends_refl(*rt);
                }
                None
            },
        }
    }
}

impl<H: HostApi, F: GuestFuture<H>> GuestFuture<H> for TimeoutFuture<F> {
    type Output = Result<F::Output, RuntimeError>;

    fn poll_fut(&mut self, rt: &mut Reactor, host: &mut H, waker: u64, now: u64) -> (r: Option<
        Result<F::Output, RuntimeError>,
    >) {
        self.poll(rt, host, waker, now)
    }

    fn cancel_fut(&mut self, rt: &mut Reactor) {
        let ghost rt_0 = *rt;
        self.timer_future.cancel(rt);
        let ghost rt_1 = *rt;
        proof {
            crate::engine::lemma_sched_extends_refl(rt_1);
            assert(rt_1.sched_extends(rt_0));
        }
        match self.fut.take() {
            Some(mut f) => {
                f.cancel_fut(rt);
                proof {
                    crate::engine::lemma_sched_extends_trans(rt_0, rt_1, *rt);
                }
            },
            None => {},
        }
    }
}

impl Timer {
    /// A sleep: a future that resolves once `until` nanoseconds have
    /// strictly passed, against the executor's clock. The timer
    /// registers under a fresh reactor key at the sleep's first poll.
    pub fn sleep(rt: &mut Reactor, until: u64) -> (f: TimeFuture)
        requires
            old(rt).wf(),
        ensures
            final(rt).wf(),
            f.key_spec() == old(rt).next_id_spec(),
            f.duration_spec() == until,
            final(rt).next_id_spec() == if old(rt).next_id_spec() < u64::MAX {
                (old(rt).next_id_spec() + 1) as u64
            } else {
                u64::MAX
            },
            final(rt).pending_view() == old(rt).pending_view(),
            final(rt).finished_view() == old(rt).finished_view(),
            final(rt).timers_view() == old(rt).timers_view(),
            final(rt).slots_view() == old(rt).slots_view(),
            final(rt).ready_view() == old(rt).ready_view(),
    {
        TimeFuture { timer_key: rt.fresh_key(), duration: until }
    }

    /// Races `fut` against a deadline of `deadline` nanoseconds: the
    /// result is the inner value if it completes first, or a
    /// [`RuntimeError::TimedOut`] error once the deadline strictly
    /// passes.
    pub fn timeout<F>(rt: &mut Reactor, fut: F, deadline: u64) -> (t: TimeoutFuture<F>)
        requires
            old(rt).wf(),
        ensures
            final(rt).wf(),
            t.timer_spec().key_spec() == old(rt).next_id_spec(),
            t.timer_spec().duration_spec() == deadline,
            t.fut_spec() == Option::Some(fut),
            final(rt).next_id_spec() == if old(rt).next_id_spec() < u64::MAX {
                (old(rt).next_id_spec() + 1) as u64
            } else {
                u64::MAX
            },
            final(rt).pending_view() == old(rt).pending_view(),
            final(rt).finished_view() == old(rt).finished_view(),
            final(rt).timers_view() == old(rt).timers_view(),
            final(rt).slots_view() == old(rt).slots_view(),
            final(rt).ready_view() == old(rt).ready_view(),
    {
        TimeoutFuture { timer_future: Timer::sleep(rt, deadline), fut: Some(fut) }
    }
}

/// Law: a timer never fires early. An elapsed flag set against clock
/// sample `now` means the registration instant plus the deadline
/// duration lies strictly in the past.
pub proof fn lemma_timer_never_early(at: u64, deadline: u64, now: u64)
    requires
        timer_elapsed_at(at, deadline, now),
    ensures
        (now as int) > (at as int) + (deadline as int),
{
}

} // verus!
