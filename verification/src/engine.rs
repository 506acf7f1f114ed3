//! The scheduler/reactor pair: the reactor that owns all scheduling
//! state, the executor loop that drives tasks, and the join handles and
//! wakers that connect them.
//!
//! The reactor aggregates the subscription tables, the timer table, the
//! ready queue of task ids and the per-task completion slots, and is
//! passed explicitly through every adapter: the runtime is single
//! instance per guest, but the single instance is a context object, not
//! a global.

use vstd::prelude::*;
use crossbeam::queue::SegQueue;
use crate::errors::RuntimeError;
use crate::host::HostApi;
use crate::keytable::KeyTable;
use crate::poll_tasks::{moved, wait_moves, EventWithWaker, PollTasks};
use crate::task::{GuestFuture, GuestTask, SpawnedTask, TaskPoll};
use crate::ready_queue::{queue_len, queue_new, queue_pop, queue_push, ready_ids};
use crate::timer::{timer_elapsed_at, Timer};

verus! {

/// What a completion slot holds: still awaited, completed with a value,
/// or cancelled.
#[derive(Clone, Copy, Debug, PartialEq, Eq, Structural)]
pub enum SlotState {
    /// The task is live; its result has not been written.
    Pending,
    /// The task completed with this value.
    Filled(u64),
    /// The task was cancelled through its join handle.
    Cancelled,
}

/// A completion slot: the task's state paired with the waker of the
/// task awaiting its join handle, if one registered.
#[derive(Clone, Copy, Debug, PartialEq, Eq, Structural)]
pub struct Slot {
    pub state: SlotState,
    pub waiter: Option<u64>,
}

/// The reactor: every piece of scheduling state of one runtime
/// instance.
pub struct Reactor {
    events: PollTasks,
    timers: KeyTable<EventWithWaker<Timer>>,
    ready: SegQueue<u64>,
    slots: KeyTable<Slot>,
    next_id: u64,
}

impl Reactor {
    /// The subscription tables.
    pub closed spec fn events_view(self) -> PollTasks {
        self.events
    }

    /// Pending subscriptions: name to (handle, waker).
    pub open spec fn pending_view(self) -> Map<u64, (u64, u64)> {
        self.events_view().pending_view()
    }

    /// Finished subscriptions: name to handle.
    pub open spec fn finished_view(self) -> Map<u64, u64> {
        self.events_view().finished_view()
    }

    /// Registered timers: name to (timer, waker).
    pub closed spec fn timers_view(self) -> Map<u64, (Timer, u64)> {
        self.timers@
    }

    /// The ready queue of task ids, front first.
    pub closed spec fn ready_view(self) -> Seq<u64> {
        ready_ids(self.ready)
    }

    /// The completion slots, by task id.
    pub closed spec fn slots_view(self) -> Map<u64, Slot> {
        self.slots@
    }

    /// The next token handed out for a task id or a registration key.
    pub closed spec fn next_id_spec(self) -> u64 {
        self.next_id
    }

    /// Well-formedness: every table keeps its keys unique, and every
    /// slot sits under an id the token counter has passed.
    pub closed spec fn wf(self) -> bool {
        &&& self.events.wf()
        &&& self.timers.wf()
        &&& self.slots.wf()
        &&& forall|id: u64| self.slots@.contains_key(id) ==> id < self.next_id
    }

    /// A task is live while its slot is still pending.
    pub open spec fn live(self, id: u64) -> bool {
        self.slots_view().contains_key(id) && self.slots_view()[id].state == SlotState::Pending
    }

    /// A slot is resolved once it is filled or cancelled.
    pub open spec fn slot_resolved(self, id: u64) -> bool {
        self.slots_view().contains_key(id) && self.slots_view()[id].state != SlotState::Pending
    }

    /// What any step of a task may do to the scheduler: mint new
    /// tokens, append to the ready queue, add slots — but never drop a
    /// queue entry, unresolve a slot, or rewrite a resolved slot.
    pub open spec fn sched_extends(self, prev: Reactor) -> bool {
        &&& self.next_id_spec() >= prev.next_id_spec()
        &&& prev.ready_view().is_prefix_of(self.ready_view())
        &&& forall|id: u64|
            prev.slots_view().contains_key(id) ==> self.slots_view().contains_key(id)
        &&& forall|id: u64|
            prev.slot_resolved(id) ==> self.slot_resolved(id) && self.slots_view()[id].state
                == prev.slots_view()[id].state
        &&& forall|id: u64|
            self.live(id) && !prev.live(id) ==> self.ready_view().skip(
                prev.ready_view().len() as int,
            ).contains(id)
    }

    /// As [`Reactor::sched_extends`], without the queue clause: what
    /// the executor's own bookkeeping (which also pops the queue)
    /// preserves.
    pub open spec fn completions_extend(self, prev: Reactor) -> bool {
        &&& self.next_id_spec() >= prev.next_id_spec()
        &&& forall|id: u64|
            prev.slots_view().contains_key(id) ==> self.slots_view().contains_key(id)
        &&& forall|id: u64|
            prev.slot_resolved(id) ==> self.slot_resolved(id) && self.slots_view()[id].state
                == prev.slots_view()[id].state
    }

    /// Quiescence: no pending or finished subscription, no timer, and
    /// no live task.
    pub open spec fn is_quiescent(self) -> bool {
        &&& self.pending_view() == Map::<u64, (u64, u64)>::empty()
        &&& self.finished_view() == Map::<u64, u64>::empty()
        &&& self.timers_view() == Map::<u64, (Timer, u64)>::empty()
        &&& forall|id: u64| !self.live(id)
    }
}

impl Default for Reactor {
    /// A fresh reactor: nothing registered, nothing queued, no task.
    fn default() -> (r: Reactor)
        ensures
            r.wf(),
            r.pending_view() == Map::<u64, (u64, u64)>::empty(),
            r.finished_view() == Map::<u64, u64>::empty(),
            r.timers_view() == Map::<u64, (Timer, u64)>::empty(),
            r.slots_view() == Map::<u64, Slot>::empty(),
            r.ready_view() == Seq::<u64>::empty(),
            r.next_id_spec() == 0,
    {
        Reactor {
            events: PollTasks::new(),
            timers: KeyTable::new(),
            ready: queue_new(),
            slots: KeyTable::new(),
            next_id: 0,
        }
    }
}

impl Reactor {
    /// Registers a subscription under `event_name`, or refuses it when
    /// that name is already pending.
    pub fn register(&mut self, event_name: u64, pollable: EventWithWaker<u64>) -> (r: Result<
        (),
        RuntimeError,
    >)
        requires
            old(self).wf(),
        ensures
            final(self).wf(),
            r.is_ok() <==> !old(self).pending_view().contains_key(event_name),
            r.is_ok() ==> final(self).pending_view() == old(self).pending_view().insert(
                event_name,
                pollable,
            ),
            r.is_err() ==> final(self).pending_view() == old(self).pending_view() && r
                == Result::<(), RuntimeError>::Err(RuntimeError::DuplicateName),
            final(self).finished_view() == old(self).finished_view(),
            final(self).timers_view() == old(self).timers_view(),
            final(self).slots_view() == old(self).slots_view(),
            final(self).ready_view() == old(self).ready_view(),
            final(self).next_id_spec() == old(self).next_id_spec(),
    {
        if self.events.contains(event_name) {
            Err(RuntimeError::DuplicateName)
        } else {
            self.events.push(event_name, pollable);
            Ok(())
        }
    }

    /// Whether a subscription under `key` is pending.
    pub fn is_pollable(&self, key: u64) -> (b: bool)
        requires
            self.wf(),
        ensures
            b == self.pending_view().contains_key(key),
    {
        self.events.contains(key)
    }

    /// Whether a timer is registered under `key`.
    pub fn is_timer_pollable(&self, key: u64) -> (b: bool)
        requires
            self.wf(),
        ensures
            b == self.timers_view().contains_key(key),
    {
        self.timers.contains(key)
    }

    /// Consumes the finished subscription under `event_name`,
    /// reporting whether it was ready.
    pub fn check_ready(&mut self, event_name: u64) -> (b: bool)
        requires
            old(self).wf(),
        ensures
            final(self).wf(),
            b == old(self).finished_view().contains_key(event_name),
            final(self).finished_view() == old(self).finished_view().remove(event_name),
            final(self).pending_view() == old(self).pending_view(),
            final(self).timers_view() == old(self).timers_view(),
            final(self).slots_view() == old(self).slots_view(),
            final(self).ready_view() == old(self).ready_view(),
            final(self).next_id_spec() == old(self).next_id_spec(),
    {
        self.events.check_if_ready(event_name)
    }

    /// Removes the subscription under `event_name` from both the
    /// pending and the finished table.
    pub fn remove_subscription(&mut self, event_name: u64)
        requires
            old(self).wf(),
        ensures
            final(self).wf(),
            final(self).pending_view() == old(self).pending_view().remove(event_name),
            final(self).finished_view() == old(self).finished_view().remove(event_name),
            final(self).timers_view() == old(self).timers_view(),
            final(self).slots_view() == old(self).slots_view(),
            final(self).ready_view() == old(self).ready_view(),
            final(self).next_id_spec() == old(self).next_id_spec(),
    {
        self.events.remove(event_name);
    }

    /// Whether the reactor is empty: no pending subscription, no
    /// finished subscription, and no timer.
    pub fn is_empty(&self) -> (b: bool)
        requires
            self.wf(),
        ensures
            b <==> (self.pending_view() == Map::<u64, (u64, u64)>::empty()
                && self.finished_view() == Map::<u64, u64>::empty() && self.timers_view()
                == Map::<u64, (Timer, u64)>::empty()),
    {
        self.events.is_empty() && self.timers.is_empty()
    }

    /// Removes the timer registered under `timer_key`, if any.
    pub fn remove_timer(&mut self, timer_key: u64)
        requires
            old(self).wf(),
        ensures
            final(self).wf(),
            final(self).timers_view() == old(self).timers_view().remove(timer_key),
            final(self).pending_view() == old(self).pending_view(),
            final(self).finished_view() == old(self).finished_view(),
            final(self).slots_view() == old(self).slots_view(),
            final(self).ready_view() == old(self).ready_view(),
            final(self).next_id_spec() == old(self).next_id_spec(),
    {
        let _ = self.timers.remove(timer_key);
    }

    /// Registers a timer with its waker under `timer_name`, replacing
    /// any previous entry under that name.
    pub fn register_timer(&mut self, timer_name: u64, event: EventWithWaker<Timer>)
        requires
            old(self).wf(),
        ensures
            final(self).wf(),
            final(self).timers_view() == old(self).timers_view().insert(timer_name, event),
            final(self).pending_view() == old(self).pending_view(),
            final(self).finished_view() == old(self).finished_view(),
            final(self).slots_view() == old(self).slots_view(),
            final(self).ready_view() == old(self).ready_view(),
            final(self).next_id_spec() == old(self).next_id_spec(),
    {
        self.timers.insert(timer_name, event);
    }

    /// Whether the timer under `timer_key` has elapsed; an unknown key
    /// reads as not elapsed.
    pub fn timer_has_elapsed(&self, timer_key: u64) -> (b: bool)
        requires
            self.wf(),
        ensures
            b == (self.timers_view().contains_key(timer_key)
                && self.timers_view()[timer_key].0.elapsed),
    {
        match self.timers.get(timer_key) {
            Some(tw) => tw.0.elapsed,
            None => false,
        }
    }

    /// Mints a fresh token for a task id or a registration key. Once
    /// the token space is exhausted the last token repeats; the runtime
    /// never reaches that point. Freshness is relative to this
    /// counter alone: a caller-chosen registration name at or above
    /// the counter can collide with a key minted later, so the
    /// adapters of this crate register only minted keys.
    pub fn fresh_key(&mut self) -> (k: u64)
        requires
            old(self).wf(),
        ensures
            final(self).wf(),
            k == old(self).next_id_spec(),
            final(self).next_id_spec() == if old(self).next_id_spec() < u64::MAX {
                (old(self).next_id_spec() + 1) as u64
            } else {
                u64::MAX
            },
            final(self).pending_view() == old(self).pending_view(),
            final(self).finished_view() == old(self).finished_view(),
            final(self).timers_view() == old(self).timers_view(),
            final(self).slots_view() == old(self).slots_view(),
            final(self).ready_view() == old(self).ready_view(),
    {
        let k = self.next_id;
        if self.next_id < u64::MAX {
            self.next_id = self.next_id + 1;
        }
        k
    }

    /// Pushes a task id onto the ready queue, scheduling the task for
    /// the next drain pass.
    pub fn wake_ready(&mut self, id: u64)
        requires
            old(self).wf(),
        ensures
            final(self).wf(),
            final(self).ready_view() == old(self).ready_view().push(id),
            final(self).pending_view() == old(self).pending_view(),
            final(self).finished_view() == old(self).finished_view(),
            final(self).timers_view() == old(self).timers_view(),
            final(self).slots_view() == old(self).slots_view(),
            final(self).next_id_spec() == old(self).next_id_spec(),
    {
        queue_push(&mut self.ready, id);
    }

    /// Pops the front of the ready queue.
    pub(crate) fn pop_ready(&mut self) -> (r: Option<u64>)
        requires
            old(self).wf(),
        ensures
            final(self).wf(),
            match r {
                Some(id) => old(self).ready_view().len() > 0 && id == old(self).ready_view()[0]
                    && final(self).ready_view() == old(self).ready_view().subrange(
                    1,
                    old(self).ready_view().len() as int,
                ),
                None => old(self).ready_view().len() == 0 && final(self).ready_view() == old(self).ready_view(),
            },
            final(self).pending_view() == old(self).pending_view(),
            final(self).finished_view() == old(self).finished_view(),
            final(self).timers_view() == old(self).timers_view(),
            final(self).slots_view() == old(self).slots_view(),
            final(self).next_id_spec() == old(self).next_id_spec(),
    {
        queue_pop(&mut self.ready)
    }

    /// The number of ids waiting in the ready queue.
    pub(crate) fn ready_len(&self) -> (n: usize)
        ensures
            n == self.ready_view().len(),
    {
        queue_len(&self.ready)
    }

    /// The state of the completion slot under `id`, if one exists.
    pub fn task_status(&self, id: u64) -> (r: Option<SlotState>)
        requires
            self.wf(),
        ensures
            match r {
                Some(s) => self.slots_view().contains_key(id) && s == self.slots_view()[id].state,
                None => !self.slots_view().contains_key(id),
            },
    {
        match self.slots.get(id) {
            Some(s) => Some(s.state),
            None => None,
        }
    }

    /// Whether the task under `id` is live.
    pub fn is_live(&self, id: u64) -> (b: bool)
        requires
            self.wf(),
        ensures
            b == self.live(id),
    {
        match self.slots.get(id) {
            Some(s) => match s.state {
                SlotState::Pending => true,
                _ => false,
            },
            None => false,
        }
    }

    /// Whether no live task remains.
    pub fn no_live_tasks(&self) -> (b: bool)
        requires
            self.wf(),
        ensures
            b <==> forall|id: u64| !self.live(id),
    {
        let n = self.slots.len();
        let mut i: usize = 0;
        while i < n
            invariant
                self.wf(),
                n == self.slots.entry_seq().len(),
                i <= n,
                forall|j: int|
                    0 <= j < i ==> (#[trigger] self.slots.entry_seq()[j]).1.state
                        != SlotState::Pending,
            decreases n - i,
        {
            let e = self.slots.entry_at(i);
            match e.1.state {
                SlotState::Pending => {
                    proof {
                        assert(self.live(e.0));
                    }
                    return false;
                },
                _ => {},
            }
            i = i + 1;
        }
        proof {
            assert forall|id: u64| !self.live(id) by {
                if self.slots_view().contains_key(id) {
                    self.slots.lemma_view_is_entries();
                    crate::keytable::lemma_map_of_contains(self.slots.entry_seq(), id);
                    let j = choose|j: int|
                        0 <= j < self.slots.entry_seq().len() && self.slots.entry_seq()[j].0 == id;
                    crate::keytable::lemma_map_of_index(self.slots.entry_seq(), j);
                }
            }
        }
        true
    }
}

/// A handle on a spawned task, backed by the task's completion slot.
///
/// Awaiting it (through its future adapter) resolves with the task's
/// value once the slot is filled, or with a cancellation error;
/// cancelling it removes the task.
#[derive(Clone, Copy, Debug)]
pub struct JoinHandle {
    pub(crate) id: u64,
}

impl JoinHandle {
    /// The id of the task this handle joins.
    pub closed spec fn id_spec(self) -> u64 {
        self.id
    }

    /// The id of the task this handle joins.
    pub fn id(&self) -> (id: u64)
        ensures
            id == self.id_spec(),
    {
        self.id
    }

    /// Cancels the task: its slot resolves to cancelled and any joiner
    /// is woken; the executor drops the task's state machine.
    pub fn cancel(&self, rt: &mut Reactor)
        requires
            old(rt).wf(),
        ensures
            final(rt).wf(),
            old(rt).live(self.id_spec()) ==> final(rt).slots_view() == old(rt).slots_view().insert(
                self.id_spec(),
                (Slot { state: SlotState::Cancelled, waiter: Option::None }),
            ),
            !old(rt).live(self.id_spec()) ==> final(rt).slots_view() == old(rt).slots_view()
                && final(rt).ready_view() == old(rt).ready_view(),
            old(rt).ready_view().is_prefix_of(final(rt).ready_view()),
            final(rt).pending_view() == old(rt).pending_view(),
            final(rt).finished_view() == old(rt).finished_view(),
            final(rt).timers_view() == old(rt).timers_view(),
            final(rt).next_id_spec() == old(rt).next_id_spec(),
    {
        rt.remove_task(self.id);
    }
}

impl Reactor {
    /// Allocates a task: a fresh id with a pending completion slot,
    /// enqueued for its first poll. The caller pairs the returned
    /// handle's id with the task's state machine so the executor can
    /// drive it.
    pub fn push_task(&mut self) -> (h: JoinHandle)
        requires
            old(self).wf(),
        ensures
            final(self).wf(),
            h.id_spec() == old(self).next_id_spec(),
            old(self).next_id_spec() < u64::MAX ==> {
                &&& !old(self).slots_view().contains_key(h.id_spec())
                &&& final(self).next_id_spec() == old(self).next_id_spec() + 1
                &&& final(self).slots_view() == old(self).slots_view().insert(
                    h.id_spec(),
                    (Slot { state: SlotState::Pending, waiter: Option::None }),
                )
                &&& final(self).ready_view() == old(self).ready_view().push(h.id_spec())
                &&& final(self).live(h.id_spec())
            },
            old(self).next_id_spec() == u64::MAX ==> {
                &&& final(self).slots_view() == old(self).slots_view()
                &&& final(self).ready_view() == old(self).ready_view()
                &&& final(self).next_id_spec() == old(self).next_id_spec()
            },
            final(self).pending_view() == old(self).pending_view(),
            final(self).finished_view() == old(self).finished_view(),
            final(self).timers_view() == old(self).timers_view(),
            final(self).sched_extends(*old(self)),
    {
        if self.next_id == u64::MAX {
            proof {
                lemma_sched_extends_refl(*self);
            }
            return JoinHandle { id: u64::MAX };
        }
        let id = self.next_id;
        self.next_id = self.next_id + 1;
        self.slots.insert(id, Slot { state: SlotState::Pending, waiter: Option::None });
        queue_push(&mut self.ready, id);
        proof {
            assert(old(self).ready_view().is_prefix_of(self.ready_view()));
            assert(self.ready_view()[self.ready_view().len() - 1] == id);
            let appended = self.ready_view().skip(old(self).ready_view().len() as int);
            assert(appended[0] == id);
            assert(appended.contains(id));
        }
        JoinHandle { id }
    }

    /// Resolves the slot of a live task to cancelled and wakes any
    /// joiner; on a task that is not live it does nothing.
    pub fn remove_task(&mut self, id: u64)
        requires
            old(self).wf(),
        ensures
            final(self).wf(),
            old(self).live(id) ==> final(self).slots_view() == old(self).slots_view().insert(
                id,
                (Slot { state: SlotState::Cancelled, waiter: Option::None }),
            ) && final(self).ready_view() == (match old(self).slots_view()[id].waiter {
                Option::Some(w) => old(self).ready_view().push(w),
                Option::None => old(self).ready_view(),
            }),
            !old(self).live(id) ==> final(self).slots_view() == old(self).slots_view() && final(self).ready_view() == old(self).ready_view(),
            old(self).ready_view().is_prefix_of(final(self).ready_view()),
            final(self).pending_view() == old(self).pending_view(),
            final(self).finished_view() == old(self).finished_view(),
            final(self).timers_view() == old(self).timers_view(),
            final(self).next_id_spec() == old(self).next_id_spec(),
    {
        let slot = match self.slots.get(id) {
            Some(s) => *s,
            None => {
                proof {
                    lemma_sched_extends_refl(*self);
                }
                return ;
            },
        };
        match slot.state {
            SlotState::Pending => {
                self.slots.insert(
                    id,
                    (Slot { state: SlotState::Cancelled, waiter: Option::None }),
                );
                match slot.waiter {
                    Some(w) => {
                        queue_push(&mut self.ready, w);
                        proof {
                            assert(old(self).ready_view().is_prefix_of(self.ready_view()));
                        }
                    },
                    None => {
                        proof {
                            lemma_sched_extends_refl(*self);
                        }
                    },
                }
            },
            _ => {
                proof {
                    lemma_sched_extends_refl(*self);
                }
            },
        }
    }

    /// Writes a live task's completion slot with its value — the one
    /// write the slot ever receives — and wakes any joiner; on a task
    /// that is not live it does nothing, so a resolved slot is never
    /// written again. Only the executor writes slots, with the value a
    /// task's final poll returned.
    pub(crate) fn complete(&mut self, id: u64, value: u64)
        requires
            old(self).wf(),
        ensures
            final(self).wf(),
            old(self).live(id) ==> final(self).slots_view() == old(self).slots_view().insert(
                id,
                (Slot { state: SlotState::Filled(value), waiter: Option::None }),
            ) && final(self).ready_view() == (match old(self).slots_view()[id].waiter {
                Option::Some(w) => old(self).ready_view().push(w),
                Option::None => old(self).ready_view(),
            }),
            !old(self).live(id) ==> final(self).slots_view() == old(self).slots_view() && final(self).ready_view() == old(self).ready_view(),
            old(self).ready_view().is_prefix_of(final(self).ready_view()),
            final(self).pending_view() == old(self).pending_view(),
            final(self).finished_view() == old(self).finished_view(),
            final(self).timers_view() == old(self).timers_view(),
            final(self).next_id_spec() == old(self).next_id_spec(),
    {
        let slot = match self.slots.get(id) {
            Some(s) => *s,
            None => {
                proof {
                    lemma_sched_extends_refl(*self);
                }
                return ;
            },
        };
        match slot.state {
            SlotState::Pending => {
                self.slots.insert(
                    id,
                    (Slot { state: SlotState::Filled(value), waiter: Option::None }),
                );
                match slot.waiter {
                    Some(w) => {
                        queue_push(&mut self.ready, w);
                        proof {
                            assert(old(self).ready_view().is_prefix_of(self.ready_view()));
                        }
                    },
                    None => {
                        proof {
                            lemma_sched_extends_refl(*self);
                        }
                    },
                }
            },
            _ => {
                proof {
                    lemma_sched_extends_refl(*self);
                }
            },
        }
    }

    /// Records the waker to fire when the task under `id` resolves; on
    /// a task that is not live it does nothing.
    pub(crate) fn set_join_waiter(&mut self, id: u64, waker: u64)
        requires
            old(self).wf(),
        ensures
            final(self).wf(),
            old(self).live(id) ==> final(self).slots_view() == old(self).slots_view().insert(
                id,
                (Slot { state: SlotState::Pending, waiter: Option::Some(waker) }),
            ),
            !old(self).live(id) ==> final(self).slots_view() == old(self).slots_view(),
            final(self).pending_view() == old(self).pending_view(),
            final(self).finished_view() == old(self).finished_view(),
            final(self).timers_view() == old(self).timers_view(),
            final(self).ready_view() == old(self).ready_view(),
            final(self).next_id_spec() == old(self).next_id_spec(),
    {
        let live = self.is_live(id);
        if live {
            self.slots.insert(id, Slot { state: SlotState::Pending, waiter: Some(waker) });
        }
    }

    /// Advances every registered timer against the clock sample `now`
    /// and wakes each timer whose elapsed flag transitions to true: a
    /// waker fires exactly once per transition, and only for a timer
    /// whose deadline has strictly passed.
    pub fn update_timers(&mut self, now: u64)
        requires
            old(self).wf(),
        ensures
            final(self).wf(),
            forall|k: u64| final(self).timers_view().contains_key(k) <==> old(self).timers_view().contains_key(k),
            forall|k: u64| #[trigger] old(self).timers_view().contains_key(k) ==> {
                &&& final(self).timers_view()[k].0.at == old(self).timers_view()[k].0.at
                &&& final(self).timers_view()[k].0.deadline == old(self).timers_view()[k].0.deadline
                &&& final(self).timers_view()[k].1 == old(self).timers_view()[k].1
                &&& final(self).timers_view()[k].0.elapsed == timer_elapsed_at(
                    old(self).timers_view()[k].0.at,
                    old(self).timers_view()[k].0.deadline,
                    now,
                )
            },
            old(self).ready_view().is_prefix_of(final(self).ready_view()),
            forall|k: u64|
                old(self).timers_view().contains_key(k) && !old(self).timers_view()[k].0.elapsed
                    && timer_elapsed_at(
                    old(self).timers_view()[k].0.at,
                    old(self).timers_view()[k].0.deadline,
                    now,
                ) ==> final(self).ready_view().contains(#[trigger] old(self).timers_view()[k].1),
            final(self).pending_view() == old(self).pending_view(),
            final(self).finished_view() == old(self).finished_view(),
            final(self).slots_view() == old(self).slots_view(),
            final(self).next_id_spec() == old(self).next_id_spec(),
    {
        let n = self.timers.len();
        let ghost t0 = self.timers.entry_seq();
        let ghost r0 = self.ready_view();
        let mut i: usize = 0;
        while i < n
            invariant
                self.wf(),
                n == t0.len(),
                self.timers.entry_seq().len() == t0.len(),
                i <= n,
                forall|j: int| i <= j < n ==> self.timers.entry_seq()[j] == t0[j],
                forall|j: int| 0 <= j < i ==> {
                    &&& (#[trigger] self.timers.entry_seq()[j]).0 == t0[j].0
                    &&& self.timers.entry_seq()[j].1.0.at == t0[j].1.0.at
                    &&& self.timers.entry_seq()[j].1.0.deadline == t0[j].1.0.deadline
                    &&& self.timers.entry_seq()[j].1.1 == t0[j].1.1
                    &&& self.timers.entry_seq()[j].1.0.elapsed == timer_elapsed_at(
                        t0[j].1.0.at,
                        t0[j].1.0.deadline,
                        now,
                    )
                },
                r0 == old(self).ready_view(),
                t0 == old(self).timers.entry_seq(),
                r0.is_prefix_of(self.ready_view()),
                forall|j: int|
                    0 <= j < i && !t0[j].1.0.elapsed && timer_elapsed_at(
                        t0[j].1.0.at,
                        t0[j].1.0.deadline,
                        now,
                    ) ==> self.ready_view().contains((#[trigger] t0[j]).1.1),
                self.pending_view() == old(self).pending_view(),
                self.finished_view() == old(self).finished_view(),
                self.slots_view() == old(self).slots_view(),
                self.next_id_spec() == old(self).next_id_spec(),
            decreases n - i,
        {
            let ghost rpre = self.ready_view();
            let e = self.timers.entry_at(i);
            let was = e.1.0.elapsed;
            let mut t = e.1.0;
            t.update_elapsed(now);
            self.timers.set_at(i, (t, e.1.1));
            if !was && t.elapsed {
                queue_push(&mut self.ready, e.1.1);
                proof {
                    assert(self.ready_view() == rpre.push(t0[i as int].1.1));
                    assert(r0.is_prefix_of(self.ready_view()));
                    assert(self.ready_view()[self.ready_view().len() - 1] == t0[i as int].1.1);
                    assert forall|j: int|
                        0 <= j < i + 1 && !t0[j].1.0.elapsed && timer_elapsed_at(
                            t0[j].1.0.at,
                            t0[j].1.0.deadline,
                            now,
                        ) implies self.ready_view().contains((#[trigger] t0[j]).1.1) by {
                        if j < i {
                            let ii = choose|ii: int|
                                0 <= ii < rpre.len() && rpre[ii] == t0[j].1.1;
                            assert(self.ready_view()[ii] == t0[j].1.1);
                        } else {
                            assert(self.ready_view()[self.ready_view().len() - 1] == t0[j].1.1);
                        }
                    }
                }
            }
            i = i + 1;
        }
        proof {
            self.timers.lemma_view_is_entries();
            old(self).timers.lemma_view_is_entries();
            assert forall|k: u64|
                old(self).timers_view().contains_key(k) implies final_timer_shape(
                *old(self),
                *self,
                k,
                now,
            ) by {
                crate::keytable::lemma_map_of_contains(t0, k);
                let j = choose|j: int| 0 <= j < t0.len() && t0[j].0 == k;
                crate::keytable::lemma_map_of_index(t0, j);
                crate::keytable::lemma_map_of_index(self.timers.entry_seq(), j);
            }
            assert forall|k: u64|
                self.timers_view().contains_key(k) implies old(self).timers_view().contains_key(
                k,
            ) by {
                crate::keytable::lemma_map_of_contains(self.timers.entry_seq(), k);
                let j = choose|j: int|
                    0 <= j < self.timers.entry_seq().len() && self.timers.entry_seq()[j].0 == k;
                crate::keytable::lemma_map_of_index(t0, j);
                assert(t0[j].0 == k);
            }
            assert forall|k: u64|
                old(self).timers_view().contains_key(k) && !old(self).timers_view()[k].0.elapsed
                    && timer_elapsed_at(
                    old(self).timers_view()[k].0.at,
                    old(self).timers_view()[k].0.deadline,
                    now,
                ) implies self.ready_view().contains(#[trigger] old(self).timers_view()[k].1) by {
                crate::keytable::lemma_map_of_contains(t0, k);
                let j = choose|j: int| 0 <= j < t0.len() && t0[j].0 == k;
                crate::keytable::lemma_map_of_index(t0, j);
            }
        }
    }

    /// Waits for external progress: blocks in the host's batched poll
    /// over all pending subscriptions, moves every handle the host
    /// reports ready into the finished set, and enqueues the waker of
    /// each. With nothing pending it returns at once; an interrupted
    /// wait changes nothing and the next loop iteration retries.
    pub fn wait_for_io<H: HostApi>(&mut self, host: &mut H) -> (r: Result<(), RuntimeError>)
        requires
            old(self).wf(),
        ensures
            final(self).wf(),
            old(self).pending_view() == Map::<u64, (u64, u64)>::empty() ==> r is Ok,
            final(self).timers_view() == old(self).timers_view(),
            final(self).slots_view() == old(self).slots_view(),
            final(self).next_id_spec() == old(self).next_id_spec(),
            old(self).ready_view().is_prefix_of(final(self).ready_view()),
            final(self).pending_view().submap_of(old(self).pending_view()),
            forall|k: u64| #[trigger] old(self).finished_view().contains_key(k) ==> final(self).finished_view().contains_key(k)
                && (final(self).finished_view()[k] == old(self).finished_view()[k] || moved(
                old(self).events_view(),
                final(self).events_view(),
                k,
            )),
            old(self).pending_view().dom().disjoint(old(self).finished_view().dom())
                ==> final(self).pending_view().dom().disjoint(final(self).finished_view().dom()),
            r matches Ok(_) ==> exists|w: Seq<u64>|
                wait_moves(old(self).events_view(), final(self).events_view(), w) && final(self).ready_view() == old(self).ready_view() + w,
            r matches Err(e) ==> e == RuntimeError::HostPollFailure && final(self).pending_view()
                == old(self).pending_view() && final(self).finished_view() == old(self).finished_view() && final(self).ready_view() == old(self).ready_view(),
    {
        let wakers = match self.events.wait_for_pollables(host) {
            Ok(w) => w,
            Err(e) => {
                proof {
                    lemma_sched_extends_refl(*self);
                }
                return Err(RuntimeError::HostPollFailure);
            },
        };
        let ghost wseq = wakers@;
        let ghost r0 = self.ready_view();
        let ghost ev1 = self.events_view();
        let mut i: usize = 0;
        while i < wakers.len()
            invariant
                self.wf(),
                i <= wakers@.len(),
                wseq == wakers@,
                r0 == old(self).ready_view(),
                self.ready_view() == r0 + wseq.subrange(0, i as int),
                self.events_view() == ev1,
                wait_moves(old(self).events_view(), ev1, wseq),
                self.pending_view().submap_of(old(self).pending_view()),
                forall|k: u64| old(self).finished_view().contains_key(k) ==> self
                    .finished_view().contains_key(k),
                self.timers_view() == old(self).timers_view(),
                self.slots_view() == old(self).slots_view(),
                self.next_id_spec() == old(self).next_id_spec(),
            decreases wakers@.len() - i,
        {
            let ghost rpre = self.ready_view();
            let w = wakers[i];
            queue_push(&mut self.ready, w);
            proof {
                assert(self.ready_view() == rpre.push(wseq[i as int]));
                assert(self.ready_view() =~= r0 + wseq.subrange(0, i as int + 1));
            }
            i = i + 1;
        }
        proof {
            assert(wseq.subrange(0, wseq.len() as int) =~= wseq);
            assert(self.ready_view() == r0 + wseq);
            assert(r0.is_prefix_of(self.ready_view())) by {
                assert((r0 + wseq).subrange(0, r0.len() as int) =~= r0);
            }
        }
        Ok(())
    }
}

/// The shape `update_timers` leaves a timer in: registration data and
/// waker unchanged, elapsed recomputed against `now`.
pub open spec fn final_timer_shape(pre: Reactor, post: Reactor, k: u64, now: u64) -> bool {
    &&& post.timers_view().contains_key(k)
    &&& post.timers_view()[k].0.at == pre.timers_view()[k].0.at
    &&& post.timers_view()[k].0.deadline == pre.timers_view()[k].0.deadline
    &&& post.timers_view()[k].1 == pre.timers_view()[k].1
    &&& post.timers_view()[k].0.elapsed == timer_elapsed_at(
        pre.timers_view()[k].0.at,
        pre.timers_view()[k].0.deadline,
        now,
    )
}


/// The scheduling frame is reflexive: leaving the reactor untouched
/// is an admissible step.
pub proof fn lemma_sched_extends_refl(rt: Reactor)
    ensures
        rt.sched_extends(rt),
{
    assert(rt.ready_view().is_prefix_of(rt.ready_view()));
}

/// Prefix extension of the ready queue is transitive.
pub proof fn lemma_prefix_trans(s1: Seq<u64>, s2: Seq<u64>, s3: Seq<u64>)
    requires
        s1.is_prefix_of(s2),
        s2.is_prefix_of(s3),
    ensures
        s1.is_prefix_of(s3),
{
    assert(s1 =~= s3.subrange(0, s1.len() as int));
}

/// The scheduling frame composes: two steps in a row still form one
/// admissible step.
pub proof fn lemma_sched_extends_trans(a: Reactor, b: Reactor, c: Reactor)
    requires
        b.sched_extends(a),
        c.sched_extends(b),
    ensures
        c.sched_extends(a),
{
    lemma_prefix_trans(a.ready_view(), b.ready_view(), c.ready_view());
    assert forall|id: u64| c.live(id) && !a.live(id) implies c.ready_view().skip(
        a.ready_view().len() as int,
    ).contains(id) by {
        let la = a.ready_view().len() as int;
        let lb = b.ready_view().len() as int;
        if b.live(id) {
            let j = choose|j: int|
                0 <= j < b.ready_view().skip(la).len() && b.ready_view().skip(la)[j] == id;
            assert(b.ready_view()[la + j] == id);
            assert(c.ready_view()[la + j] == id);
            assert(c.ready_view().skip(la)[j] == id);
        } else {
            let j = choose|j: int|
                0 <= j < c.ready_view().skip(lb).len() && c.ready_view().skip(lb)[j] == id;
            assert(c.ready_view()[lb + j] == id);
            assert(c.ready_view().skip(la)[lb - la + j] == id);
        }
    }
}

/// The completion frame composes.
pub proof fn lemma_completions_extend_trans(a: Reactor, b: Reactor, c: Reactor)
    requires
        b.completions_extend(a),
        c.completions_extend(b),
    ensures
        c.completions_extend(a),
{
}

/// A reference-countable token carrying a task id; waking it schedules
/// another poll of that task by pushing the id onto the ready queue.
#[derive(Clone, Copy, Debug)]
pub struct FutureWaker {
    id: u64,
}

impl FutureWaker {
    /// The task this waker wakes.
    pub closed spec fn id_spec(self) -> u64 {
        self.id
    }

    /// A waker for the task under `id`.
    pub fn new(id: u64) -> (w: FutureWaker)
        ensures
            w.id_spec() == id,
    {
        FutureWaker { id }
    }

    /// Pushes the task id onto the ready queue.
    fn wake_inner(&self, rt: &mut Reactor)
        requires
            old(rt).wf(),
        ensures
            final(rt).wf(),
            final(rt).ready_view() == old(rt).ready_view().push(self.id_spec()),
            final(rt).pending_view() == old(rt).pending_view(),
            final(rt).finished_view() == old(rt).finished_view(),
            final(rt).timers_view() == old(rt).timers_view(),
            final(rt).slots_view() == old(rt).slots_view(),
            final(rt).next_id_spec() == old(rt).next_id_spec(),
    {
        rt.wake_ready(self.id);
    }

    /// Wakes the task: requests another poll. Safe from any context,
    /// duplicates tolerated at drain time.
    pub fn wake(&self, rt: &mut Reactor)
        requires
            old(rt).wf(),
        ensures
            final(rt).wf(),
            final(rt).ready_view() == old(rt).ready_view().push(self.id_spec()),
            final(rt).pending_view() == old(rt).pending_view(),
            final(rt).finished_view() == old(rt).finished_view(),
            final(rt).timers_view() == old(rt).timers_view(),
            final(rt).slots_view() == old(rt).slots_view(),
            final(rt).next_id_spec() == old(rt).next_id_spec(),
    {
        self.wake_inner(rt);
    }
}

/// The id `id` sits in the ready queue at or behind position
/// `remaining` — the portion of the queue a running drain pass will
/// not pop.
pub open spec fn queued_behind(rt: Reactor, remaining: int, id: u64) -> bool {
    exists|j: int| remaining <= j < rt.ready_view().len() && rt.ready_view()[j] == id
}

/// A wake of task `id` counts as served by a drain pass when the task
/// was polled, or is no longer live, or its body is not in the table
/// (never delivered, or dropped on cancellation), or the id sits in
/// the queue again, behind what the pass still pops.
pub open spec fn wake_served<T>(
    rt: Reactor,
    table: Map<u64, T>,
    polled: Seq<u64>,
    remaining: int,
    id: u64,
) -> bool {
    ||| polled.contains(id)
    ||| !rt.live(id)
    ||| !table.contains_key(id)
    ||| queued_behind(rt, remaining, id)
}

/// A queue prefix extension keeps every element in place.
pub proof fn lemma_prefix_pointwise(pre: Seq<u64>, post: Seq<u64>)
    requires
        pre.is_prefix_of(post),
    ensures
        post.len() >= pre.len(),
        forall|j: int| 0 <= j < pre.len() ==> post[j] == #[trigger] pre[j],
{
    assert forall|j: int| 0 <= j < pre.len() implies post[j] == #[trigger] pre[j] by {
        assert(pre[j] == post.subrange(0, pre.len() as int)[j]);
    }
}

/// Serving survives a task step: the step may only append to the
/// queue, resolve slots forward, and enqueue any task it makes live.
pub proof fn lemma_served_after_extends<T>(
    pre: Reactor,
    post: Reactor,
    table: Map<u64, T>,
    polled: Seq<u64>,
    remaining: int,
    id: u64,
)
    requires
        post.sched_extends(pre),
        wake_served(pre, table, polled, remaining, id),
        0 <= remaining <= pre.ready_view().len(),
    ensures
        wake_served(post, table, polled, remaining, id),
{
    lemma_prefix_pointwise(pre.ready_view(), post.ready_view());
    if polled.contains(id) || !table.contains_key(id) {
    } else if !pre.live(id) {
        if post.live(id) {
            let skipped = post.ready_view().skip(pre.ready_view().len() as int);
            let jj = choose|jj: int| 0 <= jj < skipped.len() && skipped[jj] == id;
            assert(post.ready_view()[pre.ready_view().len() + jj] == id);
            assert(queued_behind(post, remaining, id));
        }
    } else {
        let j = choose|j: int|
            remaining <= j < pre.ready_view().len() && pre.ready_view()[j] == id;
        assert(post.ready_view()[j] == id);
    }
}

/// Serving survives the executor's own bookkeeping between pops: the
/// queue is only appended to, no task comes back to life, and a body
/// enters the table only for a task just polled or just re-queued.
pub proof fn lemma_served_after_bookkeeping<T>(
    pre: Reactor,
    post: Reactor,
    tpre: Map<u64, T>,
    tpost: Map<u64, T>,
    polled: Seq<u64>,
    remaining: int,
    id: u64,
)
    requires
        post.ready_view().len() >= pre.ready_view().len(),
        forall|j: int|
            0 <= j < pre.ready_view().len() ==> post.ready_view()[j] == #[trigger] pre.ready_view()[j],
        forall|x: u64| post.live(x) ==> pre.live(x),
        forall|x: u64|
            tpost.contains_key(x) ==> tpre.contains_key(x) || polled.contains(x)
                || queued_behind(post, remaining, x),
        wake_served(pre, tpre, polled, remaining, id),
        0 <= remaining,
    ensures
        wake_served(post, tpost, polled, remaining, id),
{
    if polled.contains(id) {
    } else if !pre.live(id) {
    } else if !tpre.contains_key(id) {
        if tpost.contains_key(id) {
        }
    } else {
        let j = choose|j: int|
            remaining <= j < pre.ready_view().len() && pre.ready_view()[j] == id;
        assert(post.ready_view()[j] == id);
    }
}

/// Serving survives a pop at the front of the queue.
pub proof fn lemma_served_after_pop<T>(
    pre: Reactor,
    post: Reactor,
    table: Map<u64, T>,
    polled: Seq<u64>,
    remaining: int,
    id: u64,
)
    requires
        pre.ready_view().len() > 0,
        post.ready_view() == pre.ready_view().subrange(1, pre.ready_view().len() as int),
        post.slots_view() == pre.slots_view(),
        wake_served(pre, table, polled, remaining, id),
        1 <= remaining,
    ensures
        wake_served(post, table, polled, remaining - 1, id),
{
    if !polled.contains(id) && pre.live(id) && table.contains_key(id) {
        let j = choose|j: int|
            remaining <= j < pre.ready_view().len() && pre.ready_view()[j] == id;
        assert(post.ready_view()[j - 1] == id);
    }
}

/// What applying a pass's spawned pairings leaves of the task table
/// and the ready queue: walking the pairings in order, a body is
/// inserted under its id and the id enqueued when its slot is live and
/// no body sits under that id yet; any other pairing is dropped.
pub open spec fn drained_spawns<T>(
    table: Map<u64, T>,
    queue: Seq<u64>,
    rt: Reactor,
    sp: Seq<SpawnedTask<T>>,
) -> (Map<u64, T>, Seq<u64>)
    decreases sp.len(),
{
    if sp.len() == 0 {
        (table, queue)
    } else if rt.live(sp[0].id) && !table.contains_key(sp[0].id) {
        drained_spawns(
            table.insert(sp[0].id, sp[0].body),
            queue.push(sp[0].id),
            rt,
            sp.skip(1),
        )
    } else {
        drained_spawns(table, queue, rt, sp.skip(1))
    }
}

/// Applying spawned pairings only appends to the queue, and every body
/// it adds to the table has its id among the appended queue entries.
pub proof fn lemma_drained_spawns_extends<T>(
    table: Map<u64, T>,
    queue: Seq<u64>,
    rt: Reactor,
    sp: Seq<SpawnedTask<T>>,
)
    ensures
        drained_spawns(table, queue, rt, sp).1.len() >= queue.len(),
        forall|j: int|
            0 <= j < queue.len() ==> drained_spawns(table, queue, rt, sp).1[j] == #[trigger] queue[j],
        forall|x: u64|
            drained_spawns(table, queue, rt, sp).0.contains_key(x) ==> table.contains_key(x)
                || exists|j: int|
                queue.len() <= j < drained_spawns(table, queue, rt, sp).1.len() && drained_spawns(
                    table,
                    queue,
                    rt,
                    sp,
                ).1[j] == x,
        forall|x: u64|
            table.contains_key(x) ==> drained_spawns(table, queue, rt, sp).0.contains_key(x),
    decreases sp.len(),
{
    if sp.len() == 0 {
    } else if rt.live(sp[0].id) && !table.contains_key(sp[0].id) {
        let t1 = table.insert(sp[0].id, sp[0].body);
        let q1 = queue.push(sp[0].id);
        lemma_drained_spawns_extends(t1, q1, rt, sp.skip(1));
        let r = drained_spawns(table, queue, rt, sp);
        assert forall|j: int| 0 <= j < queue.len() implies r.1[j] == #[trigger] queue[j] by {
            assert(r.1[j] == q1[j]);
            assert(q1[j] == queue[j]);
        }
        assert forall|x: u64| table.contains_key(x) implies r.0.contains_key(x) by {
            assert(t1.contains_key(x));
        }
        assert forall|x: u64| r.0.contains_key(x) implies table.contains_key(x) || exists|j: int|
            queue.len() <= j < r.1.len() && r.1[j] == x by {
            if !table.contains_key(x) {
                if x == sp[0].id {
                    assert(r.1[queue.len() as int] == q1[queue.len() as int] == x);
                } else {
                    assert(t1.contains_key(x) ==> table.contains_key(x) || x == sp[0].id);
                    let j = choose|j: int| q1.len() <= j < r.1.len() && r.1[j] == x;
                    assert(queue.len() <= j < r.1.len() && r.1[j] == x);
                }
            }
        }
    } else {
        lemma_drained_spawns_extends(table, queue, rt, sp.skip(1));
    }
}

/// The async engine: the executor that drives tasks to completion.
pub struct WasmRuntimeAsyncEngine;

impl WasmRuntimeAsyncEngine {
    /// Creates a task for `future`: allocates its id and pending slot,
    /// enqueues it for its first poll, and returns the join handle
    /// together with the body paired to its id. A poll hands the
    /// pairing back in [`crate::task::StepResult`] so the executor can
    /// insert the body into its table.
    ///
    /// The fresh slot starts pending and is written exactly once:
    /// only the executor fills it, with the value of the task's final
    /// poll, and once resolved no admissible step rewrites it
    /// ([`lemma_slot_written_once`]).
    pub fn spawn<T>(rt: &mut Reactor, future: T) -> (res: (JoinHandle, SpawnedTask<T>))
        requires
            old(rt).wf(),
        ensures
            final(rt).wf(),
            final(rt).sched_extends(*old(rt)),
            res.0.id_spec() == old(rt).next_id_spec(),
            res.1.id == res.0.id_spec(),
            res.1.body == future,
            old(rt).next_id_spec() < u64::MAX ==> !old(rt).slots_view().contains_key(
                res.0.id_spec(),
            ),
            old(rt).next_id_spec() < u64::MAX ==> {
                &&& final(rt).next_id_spec() == old(rt).next_id_spec() + 1
                &&& final(rt).slots_view() == old(rt).slots_view().insert(
                    res.0.id_spec(),
                    (Slot { state: SlotState::Pending, waiter: Option::None }),
                )
                &&& final(rt).ready_view() == old(rt).ready_view().push(res.0.id_spec())
                &&& final(rt).live(res.0.id_spec())
            },
            final(rt).pending_view() == old(rt).pending_view(),
            final(rt).finished_view() == old(rt).finished_view(),
            final(rt).timers_view() == old(rt).timers_view(),
    {
        let handle = rt.push_task();
        let id = handle.id();
        (handle, SpawnedTask { id, body: future })
    }

    /// Inserts the tasks one poll spawned into the task table: walking
    /// the pairings in order, a body whose slot is live and whose id
    /// has no body under it yet is inserted and its id enqueued for
    /// the next pass; any other pairing is dropped — exactly
    /// [`drained_spawns`] of the spawned sequence.
    pub fn drain_queue<T>(rt: &mut Reactor, table: &mut KeyTable<T>, spawned: Vec<SpawnedTask<T>>)
        requires
            old(rt).wf(),
            old(table).wf(),
        ensures
            final(rt).wf(),
            final(table).wf(),
            (final(table)@, final(rt).ready_view()) == drained_spawns(
                old(table)@,
                old(rt).ready_view(),
                *old(rt),
                spawned@,
            ),
            final(rt).pending_view() == old(rt).pending_view(),
            final(rt).finished_view() == old(rt).finished_view(),
            final(rt).timers_view() == old(rt).timers_view(),
            final(rt).slots_view() == old(rt).slots_view(),
            final(rt).next_id_spec() == old(rt).next_id_spec(),
    {
        let mut rest = spawned;
        while rest.len() > 0
            invariant
                rt.wf(),
                table.wf(),
                rt.slots_view() == old(rt).slots_view(),
                rt.pending_view() == old(rt).pending_view(),
                rt.finished_view() == old(rt).finished_view(),
                rt.timers_view() == old(rt).timers_view(),
                rt.next_id_spec() == old(rt).next_id_spec(),
                drained_spawns(table@, rt.ready_view(), *old(rt), rest@) == drained_spawns(
                    old(table)@,
                    old(rt).ready_view(),
                    *old(rt),
                    spawned@,
                ),
            decreases rest@.len(),
        {
            let ghost rest0 = rest@;
            let ghost tpre = table@;
            let ghost qpre = rt.ready_view();
            let sp = rest.remove(0);
            proof {
                assert(rest@ =~= rest0.skip(1));
                assert(sp == rest0[0]);
            }
            if rt.is_live(sp.id) && !table.contains(sp.id) {
                proof {
                    assert(old(rt).live(sp.id));
                }
                let ghost spid = sp.id;
                let ghost spbody = sp.body;
                table.insert(sp.id, sp.body);
                rt.wake_ready(sp.id);
                proof {
                    assert(table@ == tpre.insert(spid, spbody));
                    assert(rt.ready_view() == qpre.push(spid));
                    assert(drained_spawns(tpre, qpre, *old(rt), rest0) == drained_spawns(
                        table@,
                        rt.ready_view(),
                        *old(rt),
                        rest0.skip(1),
                    ));
                }
            } else {
                proof {
                    assert(drained_spawns(tpre, qpre, *old(rt), rest0) == drained_spawns(
                        table@,
                        rt.ready_view(),
                        *old(rt),
                        rest0.skip(1),
                    ));
                }
            }
        }
        proof {
            assert(drained_spawns(table@, rt.ready_view(), *old(rt), rest@) == (
                table@,
                rt.ready_view(),
            ));
        }
    }

    /// One drain pass: pops exactly the ids that were queued when the
    /// pass began, polls each whose task is live and whose body is in
    /// the table, fills the slot of each task that completed, and
    /// inserts (and schedules) the tasks spawned during the pass.
    /// Wakes issued during the pass stay queued for the next one.
    ///
    /// The contract is the wake-serving guarantee: every id that was
    /// in the queue has, by the end of the pass, been polled, or
    /// belongs to a task no longer live, or has no body in the table,
    /// or sits in the queue again for the next pass; and a task that
    /// was live with a body when the pass began and is still live when
    /// it ends was polled during it. The run loop alternates such
    /// passes until quiescence, so an id a pass leaves queued is part
    /// of the next pass's snapshot: no wake of a live, delivered task
    /// is ever lost.
    pub fn drain_ready<T: GuestTask<H>, H: HostApi>(
        rt: &mut Reactor,
        table: &mut KeyTable<T>,
        host: &mut H,
        now: u64,
    ) -> (polled: Ghost<Seq<u64>>)
        requires
            old(rt).wf(),
            old(table).wf(),
        ensures
            final(rt).wf(),
            final(table).wf(),
            final(rt).completions_extend(*old(rt)),
            forall|i: int|
                #![trigger old(rt).ready_view()[i]]
                0 <= i < old(rt).ready_view().len() ==> wake_served(
                    *final(rt),
                    final(table)@,
                    polled@,
                    0,
                    old(rt).ready_view()[i],
                ),
            forall|i: int|
                #![trigger old(rt).ready_view()[i]]
                0 <= i < old(rt).ready_view().len() ==> (old(table)@.contains_key(
                    old(rt).ready_view()[i],
                ) && old(rt).live(old(rt).ready_view()[i]) && final(rt).live(
                    old(rt).ready_view()[i],
                ) ==> polled@.contains(old(rt).ready_view()[i])),
    {
        let budget = rt.ready_len();
        let ghost q0 = rt.ready_view();
        let ghost mut polled: Seq<u64> = Seq::empty();
        let mut step: usize = 0;
        while step < budget
            invariant
                rt.wf(),
                table.wf(),
                budget == q0.len(),
                step <= budget,
                q0 == old(rt).ready_view(),
                rt.completions_extend(*old(rt)),
                rt.ready_view().len() >= q0.len() - step,
                forall|i: int|
                    step <= i < q0.len() ==> rt.ready_view()[i - step] == #[trigger] q0[i],
                forall|i: int|
                    #![trigger q0[i]]
                    0 <= i < step ==> wake_served(
                        *rt,
                        table@,
                        polled,
                        q0.len() - step,
                        q0[i],
                    ),
                forall|id: u64|
                    old(table)@.contains_key(id) && old(rt).live(id) && rt.live(id)
                        && !polled.contains(id) ==> table@.contains_key(id),
                forall|i: int|
                    #![trigger q0[i]]
                    0 <= i < step ==> (old(table)@.contains_key(q0[i]) && old(rt).live(q0[i])
                        && rt.live(q0[i]) ==> polled.contains(q0[i])),
            decreases budget - step,
        {
            let ghost rem: int = q0.len() - step;
            let ghost rt_a = *rt;
            let id = match rt.pop_ready() {
                Some(id) => id,
                None => {
                    proof {
                        assert(false);
                    }
                    0
                },
            };
            proof {
                assert(id == q0[step as int]);
                assert forall|i: int|
                    step + 1 <= i < q0.len() implies rt.ready_view()[i - step - 1]
                    == #[trigger] q0[i] by {
                    assert(rt.ready_view()[i - step - 1] == rt_a.ready_view()[i - step]);
                }
                assert forall|i: int| #![trigger q0[i]] 0 <= i < step implies wake_served(
                    *rt,
                    table@,
                    polled,
                    rem - 1,
                    q0[i],
                ) by {
                    lemma_served_after_pop(rt_a, *rt, table@, polled, rem, q0[i]);
                }
            }
            let ghost rt_b = *rt;
            let ghost table_b = table@;
            match table.remove(id) {
                Some(mut body) => {
                    if rt.is_live(id) {
                        let res = body.poll_step(rt, host, id, now);
                        let ghost rt_c = *rt;
                        let ghost polled_old = polled;
                        proof {
                            polled = polled.push(id);
                            assert(polled[polled.len() - 1] == id);
                            assert(polled.contains(id));
                            lemma_completions_extend_trans(*old(rt), rt_b, rt_c);
                            lemma_prefix_pointwise(rt_b.ready_view(), rt_c.ready_view());
                            assert forall|id2: u64|
                                old(table)@.contains_key(id2) && old(rt).live(id2) && rt.live(id2)
                                    && !polled.contains(id2) implies table@.contains_key(id2) by {
                                if polled_old.contains(id2) {
                                    let jj = choose|jj: int|
                                        0 <= jj < polled_old.len() && polled_old[jj] == id2;
                                    assert(polled[jj] == id2);
                                }
                                assert(!polled_old.contains(id2) && id2 != id);
                                if !rt_b.live(id2) {
                                    assert(rt_b.slot_resolved(id2));
                                    assert(rt_c.slot_resolved(id2));
                                }
                                assert(rt_b.live(id2));
                            }
                            assert forall|i: int|
                                #![trigger q0[i]]
                                0 <= i < step && old(table)@.contains_key(q0[i]) && old(rt).live(
                                    q0[i],
                                ) && rt.live(q0[i]) implies polled.contains(q0[i]) by {
                                if !rt_b.live(q0[i]) {
                                    assert(rt_b.slot_resolved(q0[i]));
                                    assert(rt_c.slot_resolved(q0[i]));
                                }
                                assert(rt_b.live(q0[i]));
                                assert(polled_old.contains(q0[i]));
                                let jj = choose|jj: int|
                                    0 <= jj < polled_old.len() && polled_old[jj] == q0[i];
                                assert(polled[jj] == q0[i]);
                            }
                            assert forall|i: int|
                                step + 1 <= i < q0.len() implies rt.ready_view()[i - step - 1]
                                == #[trigger] q0[i] by {
                                assert(rt_c.ready_view()[i - step - 1] == rt_b.ready_view()[
                                    i - step - 1
                                ]);
                            }
                            assert(rt.ready_view().len() >= q0.len() - step - 1);
                            assert forall|i: int| #![trigger q0[i]] 0 <= i < step implies
                                wake_served(*rt, table@, polled, rem - 1, q0[i]) by {
                                if polled_old.contains(q0[i]) {
                                    let jj = choose|jj: int|
                                        0 <= jj < polled_old.len() && polled_old[jj] == q0[i];
                                    assert(polled[jj] == q0[i]);
                                } else {
                                    lemma_served_after_extends(
                                        rt_b,
                                        rt_c,
                                        table@,
                                        polled_old,
                                        rem - 1,
                                        q0[i],
                                    );
                                    assert(wake_served(rt_c, table@, polled_old, rem - 1, q0[i]));
                                }
                            }
                        }
                        let ghost rt_d = *rt;
                        let ghost table_d = table@;
                        let ghost spn = res.spawned@;
                        Self::drain_queue(rt, table, res.spawned);
                        proof {
                            lemma_drained_spawns_extends(table_d, rt_d.ready_view(), rt_d, spn);
                            assert(rt.completions_extend(*old(rt)));
                            assert forall|i: int|
                                step + 1 <= i < q0.len() implies rt.ready_view()[i - step - 1]
                                == #[trigger] q0[i] by {
                                assert(rt.ready_view()[i - step - 1] == rt_d.ready_view()[
                                    i - step - 1
                                ]);
                            }
                            assert forall|i: int| #![trigger q0[i]] 0 <= i < step implies
                                wake_served(*rt, table@, polled, rem - 1, q0[i]) by {
                                assert forall|x: u64| table@.contains_key(x) implies
                                    table_d.contains_key(x) || queued_behind(*rt, rem - 1, x) by {
                                    if !table_d.contains_key(x) {
                                        let j = choose|j: int|
                                            rt_d.ready_view().len() <= j < rt.ready_view().len()
                                                && rt.ready_view()[j] == x;
                                        assert(rem - 1 <= j);
                                        assert(queued_behind(*rt, rem - 1, x));
                                    }
                                }
                                lemma_served_after_bookkeeping(
                                    rt_d,
                                    *rt,
                                    table_d,
                                    table@,
                                    polled,
                                    rem - 1,
                                    q0[i],
                                );
                            }
                        }
                        let ghost rt_e = *rt;
                        let ghost table_e = table@;
                        match res.poll {
                            TaskPoll::Ready(v) => {
                                rt.complete(id, v);
                            },
                            TaskPoll::Pending => {
                                table.insert(id, body);
                            },
                        }
                        proof {
                            lemma_prefix_pointwise(rt_e.ready_view(), rt.ready_view());
                            assert forall|i: int| #![trigger q0[i]] 0 <= i < step + 1 implies
                                wake_served(*rt, table@, polled, rem - 1, q0[i]) by {
                                if q0[i] == id {
                                    assert(polled.contains(q0[i]));
                                } else {
                                    lemma_served_after_bookkeeping(
                                        rt_e,
                                        *rt,
                                        table_e,
                                        table@,
                                        polled,
                                        rem - 1,
                                        q0[i],
                                    );
                                }
                            }
                        }
                    } else {
                        proof {
                            assert(!rt.live(id));
                            assert forall|i: int| #![trigger q0[i]] 0 <= i < step + 1 implies
                                wake_served(*rt, table@, polled, rem - 1, q0[i]) by {
                                lemma_served_after_bookkeeping(
                                    rt_b,
                                    *rt,
                                    table_b,
                                    table@,
                                    polled,
                                    rem - 1,
                                    q0[i],
                                );
                            }
                        }
                    }
                },
                None => {
                    proof {
                        assert(!table@.contains_key(id));
                    }
                },
            }
            step = step + 1;
        }
        proof {
            assert forall|i: int|
                #![trigger q0[i]]
                0 <= i < q0.len() implies wake_served(*rt, table@, polled, 0, q0[i]) by {
                assert(wake_served(*rt, table@, polled, q0.len() - step, q0[i]));
            }
        }
        Ghost(polled)
    }
}

impl WasmRuntimeAsyncEngine {
    /// Drives tasks until quiescence and returns the root task's
    /// value.
    ///
    /// The root is allocated a task like any spawned one. Each loop
    /// iteration advances the timers against the host clock, waits for
    /// external progress, drains one pass of the ready queue, and
    /// drops the bodies of cancelled tasks; the loop exits only when
    /// no live task, no subscription and no timer remains. The root
    /// completing does not end the loop: the runtime keeps driving
    /// spawned tasks and returns the stored root value at quiescence.
    /// `fuel` bounds the number of loop iterations, since a livelocked
    /// guest could otherwise spin forever; a run that has not reached
    /// quiescence after `fuel` iterations ends with
    /// [`RuntimeError::Exhausted`].
    pub fn block_on<T: GuestTask<H>, H: HostApi>(
        rt: &mut Reactor,
        future: T,
        host: &mut H,
        fuel: u64,
    ) -> (r: Result<u64, RuntimeError>)
        requires
            old(rt).wf(),
            old(rt).next_id_spec() < u64::MAX,
        ensures
            final(rt).wf(),
            final(rt).completions_extend(*old(rt)),
            r matches Ok(v) ==> final(rt).is_quiescent() && final(rt).slots_view().contains_key(
                old(rt).next_id_spec(),
            ) && final(rt).slots_view()[old(rt).next_id_spec()].state == SlotState::Filled(v),
            r matches Err(e) ==> e == RuntimeError::Cancelled || e == RuntimeError::HostPollFailure
                || e == RuntimeError::Exhausted,
            r == Result::<u64, RuntimeError>::Err(RuntimeError::Cancelled) ==> final(rt).is_quiescent()
                && final(rt).slots_view().contains_key(old(rt).next_id_spec())
                && final(rt).slots_view()[old(rt).next_id_spec()].state == SlotState::Cancelled,
            fuel == 0 ==> r == Result::<u64, RuntimeError>::Err(RuntimeError::Exhausted),
    {
        let handle = rt.push_task();
        let root_id = handle.id();
        let mut table: KeyTable<T> = KeyTable::new();
        table.insert(root_id, future);
        let mut turns: u64 = 0;
        while turns < fuel
            invariant
                rt.wf(),
                table.wf(),
                root_id == old(rt).next_id_spec(),
                rt.slots_view().contains_key(root_id),
                rt.completions_extend(*old(rt)),
                turns <= fuel,
            decreases fuel - turns,
        {
            let now = host.now();
            rt.update_timers(now);
            let ghost rt_0 = *rt;
            match rt.wait_for_io(host) {
                Ok(_) => {},
                Err(_) => {
                    return Err(RuntimeError::HostPollFailure);
                },
            }
            let ghost rt_1 = *rt;
            proof {
                assert(rt_1.completions_extend(*old(rt)));
            }
            let _polled = Self::drain_ready(rt, &mut table, host, now);
            proof {
                lemma_completions_extend_trans(*old(rt), rt_1, *rt);
            }
            let keys = table.keys();
            let mut ki: usize = 0;
            while ki < keys.len()
                invariant
                    rt.wf(),
                    table.wf(),
                    ki <= keys@.len(),
                decreases keys@.len() - ki,
            {
                let k = keys[ki];
                if !rt.is_live(k) {
                    let _ = table.remove(k);
                }
                ki = ki + 1;
            }
            if table.is_empty() {
                if rt.no_live_tasks() {
                    if rt.is_empty() {
                        proof {
                            assert(rt.is_quiescent());
                        }
                        return match rt.task_status(root_id) {
                            Some(SlotState::Filled(v)) => Ok(v),
                            Some(SlotState::Cancelled) => Err(RuntimeError::Cancelled),
                            Some(SlotState::Pending) => {
                                proof {
                                    assert(!rt.live(root_id));
                                    assert(rt.slots_view().contains_key(root_id));
                                    assert(false);
                                }
                                Err(RuntimeError::Cancelled)
                            },
                            None => {
                                proof {
                                    assert(false);
                                }
                                Err(RuntimeError::Cancelled)
                            },
                        };
                    }
                }
            }
            turns = turns + 1;
        }
        Err(RuntimeError::Exhausted)
    }
}

impl JoinHandle {
    /// One poll of the join: reads the completion slot. A filled slot
    /// resolves with the task's value, a cancelled one with a
    /// cancellation error; while the task is live the caller's waker
    /// is recorded so completion or cancellation wakes it.
    pub fn poll(&self, rt: &mut Reactor, waker: u64) -> (r: Option<Result<u64, RuntimeError>>)
        requires
            old(rt).wf(),
        ensures
            final(rt).wf(),
            final(rt).sched_extends(*old(rt)),
            final(rt).pending_view() == old(rt).pending_view(),
            final(rt).finished_view() == old(rt).finished_view(),
            final(rt).timers_view() == old(rt).timers_view(),
            final(rt).ready_view() == old(rt).ready_view(),
            final(rt).next_id_spec() == old(rt).next_id_spec(),
            r == Option::<Result<u64, RuntimeError>>::None <==> !old(rt).slot_resolved(
                self.id_spec(),
            ),
            forall|v: u64|
                r == Option::<Result<u64, RuntimeError>>::Some(Result::<
                    u64,
                    RuntimeError,
                >::Ok(v)) <==> old(rt).slots_view().contains_key(self.id_spec()) && old(
                    rt,
                ).slots_view()[self.id_spec()].state == SlotState::Filled(v),
            r matches Some(res) ==> (res matches Err(e) ==> e == RuntimeError::Cancelled && old(
                rt,
            ).slots_view()[self.id_spec()].state == SlotState::Cancelled),
            old(rt).live(self.id_spec()) ==> final(rt).slots_view() == old(
                rt,
            ).slots_view().insert(
                self.id_spec(),
                (Slot { state: SlotState::Pending, waiter: Option::Some(waker) }),
            ),
            !old(rt).live(self.id_spec()) ==> final(rt).slots_view() == old(rt).slots_view(),
    {
        match rt.task_status(self.id) {
            Some(SlotState::Filled(v)) => {
                proof {
                    lemma_sched_extends_refl(*rt);
                }
                Some(Ok(v))
            },
            Some(SlotState::Cancelled) => {
                proof {
                    lemma_sched_extends_refl(*rt);
                }
                Some(Err(RuntimeError::Cancelled))
            },
            Some(SlotState::Pending) => {
                rt.set_join_waiter(self.id, waker);
                proof {
                    lemma_sched_extends_refl(*rt);
                }
                None
            },
            None => {
                proof {
                    lemma_sched_extends_refl(*rt);
                }
                None
            },
        }
    }
}

impl<H: HostApi> GuestFuture<H> for JoinHandle {
    type Output = Result<u64, RuntimeError>;

    fn poll_fut(&mut self, rt: &mut Reactor, host: &mut H, waker: u64, now: u64) -> (r: Option<
        Result<u64, RuntimeError>,
    >) {
        self.poll(rt, waker)
    }
}

/// Law: a completion slot is written at most once. Once a slot is
/// resolved — filled or cancelled — no admissible step of the
/// scheduler changes its state again, so the one write that resolved
/// it was the only one.
pub proof fn lemma_slot_written_once(pre: Reactor, post: Reactor, id: u64)
    requires
        post.completions_extend(pre),
        pre.slot_resolved(id),
    ensures
        post.slot_resolved(id),
        post.slots_view()[id].state == pre.slots_view()[id].state,
{
}

/// Law: at quiescence every allocated completion slot has been
/// written: no slot is still pending when the run loop exits.
pub proof fn lemma_quiescent_slots_resolved(rt: Reactor, id: u64)
    requires
        rt.is_quiescent(),
        rt.slots_view().contains_key(id),
    ensures
        rt.slot_resolved(id),
{
    assert(!rt.live(id));
}

} // verus!
