//! The task model: the suspended state machines the executor drives.
//!
//! A task is a state machine with one operation — a single cooperative
//! step against the reactor — that either completes with a value or
//! suspends after arranging to be woken. Awaitable sub-computations
//! (sleeps, timeouts, subscriptions, join handles) follow the same
//! shape as [`GuestFuture`]s, polled within their owning task's step
//! under that task's waker.
//!
//! Both traits carry the scheduling frame
//! [`crate::engine::Reactor::sched_extends`]: a step may wake, spawn
//! and register, but never lose a queued wake or rewrite a resolved
//! completion slot. Every adapter of this crate proves it; state
//! machines written outside it are unverified impls, which these
//! obligations describe but no proof checks.

use vstd::prelude::*;
use crate::engine::Reactor;
use crate::host::HostApi;
use crate::timer::{TimeFuture, Timer};

verus! {

/// What one cooperative step of a task yielded.
pub enum TaskPoll {
    /// The task completed with this value; its slot is filled and it
    /// leaves the table.
    Ready(u64),
    /// The task suspended; it stays in the table until woken.
    Pending,
}

/// A task body paired with the id allocated for it by
/// [`crate::WasmRuntimeAsyncEngine::spawn`].
pub struct SpawnedTask<T> {
    pub id: u64,
    pub body: T,
}

/// Everything one poll of a task produced: its own outcome and the
/// tasks it spawned, which the executor inserts into the task table.
pub struct StepResult<T> {
    pub poll: TaskPoll,
    pub spawned: Vec<SpawnedTask<T>>,
}

/// A task: a state machine the executor polls until it completes.
///
/// `me` is the task's own id — its waker: pushing it onto the ready
/// queue schedules another poll. `now` is the executor's clock sample
/// for the current loop iteration.
pub trait GuestTask<H: HostApi>: Sized {
    /// One cooperative step.
    fn poll_step(&mut self, rt: &mut Reactor, host: &mut H, me: u64, now: u64) -> (r: StepResult<
        Self,
    >)
        requires
            old(rt).wf(),
        ensures
            final(rt).wf(),
            final(rt).sched_extends(*old(rt)),
    ;
}

/// An awaitable sub-computation, polled inside an owning task's step
/// with that task's waker: `None` suspends, `Some` completes with the
/// future's output.
pub trait GuestFuture<H: HostApi>: Sized {
    /// What the future resolves with.
    type Output;

    /// One poll under the owning task's waker.
    fn poll_fut(&mut self, rt: &mut Reactor, host: &mut H, waker: u64, now: u64) -> (r: Option<
        Self::Output,
    >)
        requires
            old(rt).wf(),
        ensures
            final(rt).wf(),
            final(rt).sched_extends(*old(rt)),
    ;

    /// Releases whatever the future holds in the reactor — its scoped
    /// release when it is dropped before completion, so that the
    /// reactor can still empty. A future that registers nothing keeps
    /// this default.
    fn cancel_fut(&mut self, rt: &mut Reactor)
        requires
            old(rt).wf(),
        ensures
            final(rt).wf(),
            final(rt).sched_extends(*old(rt)),
    {
        proof {
            crate::engine::lemma_sched_extends_refl(*rt);
        }
    }
}

/// A ready-made task: sleeps for a fixed duration, then completes with
/// a fixed value.
pub struct SleepingTask {
    sleep: TimeFuture,
    value: u64,
}

impl SleepingTask {
    /// The value the task completes with.
    pub closed spec fn value_spec(self) -> u64 {
        self.value
    }

    /// A task that sleeps `duration` nanoseconds and completes with
    /// `value`.
    pub fn new(rt: &mut Reactor, duration: u64, value: u64) -> (t: SleepingTask)
        requires
            old(rt).wf(),
        ensures
            final(rt).wf(),
            t.value_spec() == value,
            final(rt).pending_view() == old(rt).pending_view(),
            final(rt).finished_view() == old(rt).finished_view(),
            final(rt).timers_view() == old(rt).timers_view(),
            final(rt).slots_view() == old(rt).slots_view(),
            final(rt).ready_view() == old(rt).ready_view(),
    {
        SleepingTask { sleep: Timer::sleep(rt, duration), value }
    }
}

impl<H: HostApi> GuestTask<H> for SleepingTask {
    fn poll_step(&mut self, rt: &mut Reactor, host: &mut H, me: u64, now: u64) -> (r: StepResult<
        Self,
    >) {
        match self.sleep.poll(rt, me, now) {
            Some(_) => StepResult { poll: TaskPoll::Ready(self.value), spawned: Vec::new() },
            None => StepResult { poll: TaskPoll::Pending, spawned: Vec::new() },
        }
    }
}

} // verus!
