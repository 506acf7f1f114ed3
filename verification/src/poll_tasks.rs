//! The reactor's subscription tables.
//!
//! A subscription is a named pair of an opaque host handle and the waker
//! of the task waiting on it. Pending subscriptions are the ones whose
//! handles the next batched host poll covers; once the host reports a
//! handle ready its entry moves to the finished table, where the owning
//! future consumes it.

use vstd::prelude::*;
use crate::engine::Reactor;
use crate::errors::RuntimeError;
use crate::host::HostApi;
use crate::keytable::KeyTable;
use crate::task::GuestFuture;

verus! {

/// A reactor entry: the event payload paired with the waker (a task id)
/// to signal when the event fires.
pub type EventWithWaker<T> = (T, u64);

/// A subscription moved from pending to finished between two states.
pub open spec fn moved(pre: PollTasks, post: PollTasks, k: u64) -> bool {
    pre.pending_view().contains_key(k) && !post.pending_view().contains_key(k)
}

/// What a wait did: every moved subscription sits in the finished table
/// under its handle with its waker reported, every waker reported
/// belongs to a moved subscription, and when no waker is reported (the
/// host's wait was interrupted, or nothing was pending) the tables are
/// unchanged.
pub open spec fn wait_moves(pre: PollTasks, post: PollTasks, wakers: Seq<u64>) -> bool {
    &&& forall|k: u64| moved(pre, post, k) ==> {
        &&& post.finished_view().contains_key(k)
        &&& post.finished_view()[k] == pre.pending_view()[k].0
        &&& wakers.contains(pre.pending_view()[k].1)
    }
    &&& forall|k: u64| post.finished_view().contains_key(k)
        ==> pre.finished_view().contains_key(k) || moved(pre, post, k)
    &&& forall|x: u64| wakers.contains(x)
        ==> exists|k: u64| moved(pre, post, k) && x == pre.pending_view()[k].1
    &&& (wakers.len() == 0 ==> post.pending_view() == pre.pending_view()
        && post.finished_view() == pre.finished_view())
}

/// One marking step: when `name` is pending, its entry moves to the
/// finished table under its handle and its waker is reported;
/// otherwise nothing changes.
pub open spec fn mark_step(
    pend: Map<u64, (u64, u64)>,
    fin: Map<u64, u64>,
    wakers: Seq<u64>,
    name: u64,
) -> (Map<u64, (u64, u64)>, Map<u64, u64>, Seq<u64>) {
    if pend.contains_key(name) {
        (pend.remove(name), fin.insert(name, pend[name].0), wakers.push(pend[name].1))
    } else {
        (pend, fin, wakers)
    }
}

/// What processing the host's answer leaves of the tables and the
/// reported wakers: one [`mark_step`] for the name at each in-range
/// index, in answer order; an out-of-range index changes nothing.
pub open spec fn marked_ready(
    pend: Map<u64, (u64, u64)>,
    fin: Map<u64, u64>,
    wakers: Seq<u64>,
    names: Seq<u64>,
    indices: Seq<usize>,
) -> (Map<u64, (u64, u64)>, Map<u64, u64>, Seq<u64>)
    decreases indices.len(),
{
    if indices.len() == 0 {
        (pend, fin, wakers)
    } else {
        let st = if (indices[0] as int) < names.len() {
            mark_step(pend, fin, wakers, names[indices[0] as int])
        } else {
            (pend, fin, wakers)
        };
        marked_ready(st.0, st.1, st.2, names, indices.skip(1))
    }
}

/// The accounting a marking pass keeps, relative to the tables it
/// started from: no pending entry is lost — each is still pending
/// unchanged or finished under its handle with its waker reported;
/// previously finished entries survive, their values intact unless the
/// name moved again; every reported waker belongs to a move; no waker
/// means no change; and disjoint tables stay disjoint.
pub open spec fn mark_inv(
    pend0: Map<u64, (u64, u64)>,
    fin0: Map<u64, u64>,
    pend: Map<u64, (u64, u64)>,
    fin: Map<u64, u64>,
    w: Seq<u64>,
) -> bool {
    &&& pend.submap_of(pend0)
    &&& forall|k: u64| #[trigger] pend0.contains_key(k) && !pend.contains_key(k) ==> {
        &&& fin.contains_key(k)
        &&& fin[k] == pend0[k].0
        &&& w.contains(pend0[k].1)
    }
    &&& forall|k: u64| #[trigger] fin.contains_key(k)
        ==> fin0.contains_key(k) || (pend0.contains_key(k) && !pend.contains_key(k))
    &&& forall|k: u64| #[trigger] fin0.contains_key(k) ==> fin.contains_key(k) && (fin[k]
        == fin0[k] || (pend0.contains_key(k) && !pend.contains_key(k)))
    &&& forall|x: u64| #[trigger] w.contains(x) ==> exists|k: u64|
        pend0.contains_key(k) && !pend.contains_key(k) && x == pend0[k].1
    &&& (w.len() == 0 ==> pend == pend0 && fin == fin0)
    &&& (pend0.dom().disjoint(fin0.dom()) ==> pend.dom().disjoint(fin.dom()))
}

/// A marking pass keeps its accounting.
pub proof fn lemma_marked_ready_inv(
    pend0: Map<u64, (u64, u64)>,
    fin0: Map<u64, u64>,
    pend: Map<u64, (u64, u64)>,
    fin: Map<u64, u64>,
    w: Seq<u64>,
    names: Seq<u64>,
    indices: Seq<usize>,
)
    requires
        mark_inv(pend0, fin0, pend, fin, w),
    ensures
        mark_inv(
            pend0,
            fin0,
            marked_ready(pend, fin, w, names, indices).0,
            marked_ready(pend, fin, w, names, indices).1,
            marked_ready(pend, fin, w, names, indices).2,
        ),
    decreases indices.len(),
{
    if indices.len() > 0 {
        let i = indices[0] as int;
        if i < names.len() && pend.contains_key(names[i]) {
            let name = names[i];
            let p1 = pend.remove(name);
            let f1 = fin.insert(name, pend[name].0);
            let w1 = w.push(pend[name].1);
            assert(w1[w.len() as int] == pend[name].1);
            assert(mark_inv(pend0, fin0, p1, f1, w1)) by {
                assert forall|k: u64|
                    pend0.contains_key(k) && !p1.contains_key(k) implies {
                    &&& f1.contains_key(k)
                    &&& f1[k] == pend0[k].0
                    &&& w1.contains(pend0[k].1)
                } by {
                    if k == name {
                        assert(pend.dom().contains(name));
                        assert(pend[name] == pend0[name]);
                        assert(w1.contains(pend0[k].1));
                    } else {
                        assert(!pend.dom().contains(k));
                        assert(!pend.contains_key(k));
                        assert(pend0.contains_key(k) && !pend.contains_key(k));
                        assert(fin.contains_key(k));
                        assert(fin[k] == pend0[k].0);
                        assert(w.contains(pend0[k].1));
                        let jj = choose|jj: int| 0 <= jj < w.len() && w[jj] == pend0[k].1;
                        assert(w1[jj] == pend0[k].1);
                    }
                }
                assert forall|x: u64| w1.contains(x) implies exists|k: u64|
                    pend0.contains_key(k) && !p1.contains_key(k) && x == pend0[k].1 by {
                    let jj = choose|jj: int| 0 <= jj < w1.len() && w1[jj] == x;
                    if jj < w.len() {
                        assert(w[jj] == x);
                        assert(w.contains(x));
                        let k = choose|k: u64|
                            pend0.contains_key(k) && !pend.contains_key(k) && x == pend0[k].1;
                        assert(pend0.contains_key(k) && !p1.contains_key(k) && x == pend0[k].1);
                    } else {
                        assert(jj == w.len());
                        assert(w1 == w.push(pend[name].1));
                        assert(w1[w.len() as int] == pend[name].1);
                        assert(x == pend[name].1);
                        assert(pend.submap_of(pend0));
                        assert(pend.dom().contains(name));
                        assert(pend0.dom().contains(name) && pend[name] == pend0[name]);
                        assert(pend0.contains_key(name) && !p1.contains_key(name));
                    }
                }
                if pend0.dom().disjoint(fin0.dom()) {
                    assert forall|x: u64| !(p1.dom().contains(x) && f1.dom().contains(x)) by {
                        if x != name && p1.dom().contains(x) && f1.dom().contains(x) {
                            assert(pend.dom().contains(x) && fin.dom().contains(x));
                        }
                    }
                    assert(p1.dom().disjoint(f1.dom()));
                }
            }
            lemma_marked_ready_inv(pend0, fin0, p1, f1, w1, names, indices.skip(1));
        } else {
            lemma_marked_ready_inv(pend0, fin0, pend, fin, w, names, indices.skip(1));
        }
    }
}

/// The pending and finished subscription tables, keyed by name.
pub struct PollTasks {
    pendings: KeyTable<EventWithWaker<u64>>,
    finished: KeyTable<u64>,
}

impl PollTasks {
    /// Pending subscriptions: name to (handle, waker).
    pub closed spec fn pending_view(self) -> Map<u64, (u64, u64)> {
        self.pendings@
    }

    /// Finished subscriptions: name to handle, awaiting consumption.
    pub closed spec fn finished_view(self) -> Map<u64, u64> {
        self.finished@
    }

    /// Both tables keep their keys unique.
    pub closed spec fn wf(self) -> bool {
        self.pendings.wf() && self.finished.wf()
    }

    /// An empty pair of tables.
    pub fn new() -> (t: PollTasks)
        ensures
            t.wf(),
            t.pending_view() == Map::<u64, (u64, u64)>::empty(),
            t.finished_view() == Map::<u64, u64>::empty(),
    {
        PollTasks { pendings: KeyTable::new(), finished: KeyTable::new() }
    }

    /// Records a pending subscription, replacing any previous entry
    /// under the same name.
    pub fn push(&mut self, event_name: u64, pollable: EventWithWaker<u64>)
        requires
            old(self).wf(),
        ensures
            final(self).wf(),
            final(self).pending_view() == old(self).pending_view().insert(event_name, pollable),
            final(self).finished_view() == old(self).finished_view(),
    {
        self.pendings.insert(event_name, pollable);
    }

    /// Whether a subscription under `key` is pending.
    pub fn contains(&self, key: u64) -> (b: bool)
        requires
            self.wf(),
        ensures
            b == self.pending_view().contains_key(key),
    {
        self.pendings.contains(key)
    }

    /// Consumes the finished entry under `key`, reporting whether there
    /// was one.
    pub fn check_if_ready(&mut self, key: u64) -> (b: bool)
        requires
            old(self).wf(),
        ensures
            final(self).wf(),
            b == old(self).finished_view().contains_key(key),
            final(self).finished_view() == old(self).finished_view().remove(key),
            final(self).pending_view() == old(self).pending_view(),
    {
        self.finished.remove(key).is_some()
    }

    /// Removes the subscription under `key` from both tables: the
    /// scoped release of a subscription future dropped before its
    /// readiness was consumed.
    pub fn remove(&mut self, key: u64)
        requires
            old(self).wf(),
        ensures
            final(self).wf(),
            final(self).pending_view() == old(self).pending_view().remove(key),
            final(self).finished_view() == old(self).finished_view().remove(key),
    {
        let _ = self.pendings.remove(key);
        let _ = self.finished.remove(key);
    }

    /// Whether no subscription, pending or finished, remains.
    pub fn is_empty(&self) -> (b: bool)
        ensures
            b <==> (self.pending_view() == Map::<u64, (u64, u64)>::empty()
                && self.finished_view() == Map::<u64, u64>::empty()),
    {
        self.finished.is_empty() && self.pendings.is_empty()
    }

    /// The pending subscriptions materialized for a batched host
    /// poll: parallel vectors of exactly the pending names and their
    /// handles, index-aligned.
    pub fn pending_entries(&self) -> (r: (Vec<u64>, Vec<u64>))
        requires
            self.wf(),
        ensures
            r.0@.len() == r.1@.len(),
            forall|j: int|
                0 <= j < r.0@.len() ==> self.pending_view().contains_key(#[trigger] r.0@[j])
                    && self.pending_view()[r.0@[j]].0 == r.1@[j],
            forall|k: u64| self.pending_view().contains_key(k) ==> r.0@.contains(k),
    {
        let n = self.pendings.len();
        let mut names: Vec<u64> = Vec::new();
        let mut handles: Vec<u64> = Vec::new();
        let mut i: usize = 0;
        while i < n
            invariant
                self.wf(),
                n == self.pendings.entry_seq().len(),
                i <= n,
                names@.len() == i,
                handles@.len() == i,
                forall|j: int| 0 <= j < i ==> names@[j] == self.pendings.entry_seq()[j].0,
                forall|j: int|
                    0 <= j < i ==> self.pending_view().contains_key(#[trigger] names@[j])
                        && self.pending_view()[names@[j]].0 == handles@[j],
            decreases n - i,
        {
            let e = self.pendings.entry_at(i);
            names.push(e.0);
            handles.push(e.1.0);
            i = i + 1;
        }
        proof {
            assert forall|k: u64| self.pending_view().contains_key(k) implies names@.contains(
                k,
            ) by {
                self.pendings.lemma_view_is_entries();
                crate::keytable::lemma_map_of_contains(self.pendings.entry_seq(), k);
                let j = choose|j: int|
                    0 <= j < self.pendings.entry_seq().len() && self.pendings.entry_seq()[j].0
                        == k;
                assert(names@[j] == k);
            }
        }
        (names, handles)
    }

    /// Processes a host answer: one marking step for the name at each
    /// in-range index, in answer order — exactly [`marked_ready`] of
    /// the answer. Returns the wakers of the entries that moved.
    pub fn mark_ready(&mut self, names: &Vec<u64>, indices: &Vec<usize>) -> (wakers: Vec<u64>)
        requires
            old(self).wf(),
        ensures
            final(self).wf(),
            (final(self).pending_view(), final(self).finished_view(), wakers@) == marked_ready(
                old(self).pending_view(),
                old(self).finished_view(),
                Seq::<u64>::empty(),
                names@,
                indices@,
            ),
    {
        let ghost pend0 = self.pending_view();
        let ghost fin0 = self.finished_view();
        let mut wakers: Vec<u64> = Vec::new();
        let mut j: usize = 0;
        proof {
            assert(indices@.skip(0) =~= indices@);
        }
        while j < indices.len()
            invariant
                self.wf(),
                j <= indices@.len(),
                pend0 == old(self).pending_view(),
                fin0 == old(self).finished_view(),
                marked_ready(
                    self.pending_view(),
                    self.finished_view(),
                    wakers@,
                    names@,
                    indices@.skip(j as int),
                ) == marked_ready(pend0, fin0, Seq::<u64>::empty(), names@, indices@),
            decreases indices@.len() - j,
        {
            let ghost pend_j = self.pending_view();
            let ghost fin_j = self.finished_view();
            let ghost w_j = wakers@;
            let ghost rest = indices@.skip(j as int);
            let idx = indices[j];
            proof {
                assert(rest[0] == indices@[j as int]);
                assert(rest.skip(1) =~= indices@.skip(j as int + 1));
            }
            if idx < names.len() {
                let name = names[idx];
                match self.pendings.remove(name) {
                    Some(ev) => {
                        self.finished.insert(name, ev.0);
                        wakers.push(ev.1);
                        proof {
                            assert((self.pending_view(), self.finished_view(), wakers@)
                                == mark_step(pend_j, fin_j, w_j, name));
                        }
                    },
                    None => {
                        proof {
                            assert((self.pending_view(), self.finished_view(), wakers@)
                                == mark_step(pend_j, fin_j, w_j, name));
                        }
                    },
                }
            }
            j = j + 1;
        }
        proof {
            assert(indices@.skip(indices@.len() as int) =~= Seq::<usize>::empty());
        }
        wakers
    }

    /// Waits in the host for pending subscriptions to become ready,
    /// moves every reported entry to the finished table, and returns
    /// the wakers to fire.
    ///
    /// With no pending subscription it succeeds at once, without
    /// touching the host. Otherwise the pending entries are handed to
    /// the host's batched poll ([`PollTasks::pending_entries`]) and
    /// its answer is processed by [`PollTasks::mark_ready`], whose
    /// contract pins the move of every entry at a reported in-range
    /// index. An empty or wholly invalid answer is an interrupted
    /// wait: no waker is returned, the tables are unchanged, and the
    /// caller's next loop iteration retries. No subscription is ever
    /// lost: each stays pending or sits finished under its handle with
    /// its waker reported, previously finished entries keep their
    /// values unless their name moved again, and disjoint tables stay
    /// disjoint. An error from the host is handed back with the
    /// tables unchanged.
    pub fn wait_for_pollables<H: HostApi>(&mut self, host: &mut H) -> (r: Result<Vec<u64>, RuntimeError>)
        requires
            old(self).wf(),
        ensures
            final(self).wf(),
            old(self).pending_view() == Map::<u64, (u64, u64)>::empty() ==> r is Ok,
            final(self).pending_view().submap_of(old(self).pending_view()),
            forall|k: u64| #[trigger] old(self).finished_view().contains_key(k) ==> final(self).finished_view().contains_key(k) && (final(self).finished_view()[k] == old(self).finished_view()[k] || moved(*old(self), *final(self), k)),
            old(self).pending_view().dom().disjoint(old(self).finished_view().dom()) ==> final(self).pending_view().dom().disjoint(final(self).finished_view().dom()),
            match r {
                Ok(wakers) => wait_moves(*old(self), *final(self), wakers@),
                Err(e) => {
                    &&& e == RuntimeError::HostPollFailure
                    &&& final(self).pending_view() == old(self).pending_view()
                    &&& final(self).finished_view() == old(self).finished_view()
                },
            },
    {
        if self.pendings.is_empty() {
            return Ok(Vec::new());
        }
        let entries = self.pending_entries();
        let names = entries.0;
        let handles = entries.1;
        let indices = match host.poll(&handles) {
            Ok(v) => v,
            Err(_) => {
                return Err(RuntimeError::HostPollFailure);
            },
        };
        let ghost pend0 = self.pending_view();
        let ghost fin0 = self.finished_view();
        let wakers = self.mark_ready(&names, &indices);
        proof {
            lemma_marked_ready_inv(
                pend0,
                fin0,
                pend0,
                fin0,
                Seq::<u64>::empty(),
                names@,
                indices@,
            );
            assert(mark_inv(pend0, fin0, self.pending_view(), self.finished_view(), wakers@));
            assert forall|k: u64| moved(*old(self), *self, k) implies {
                &&& self.finished_view().contains_key(k)
                &&& self.finished_view()[k] == old(self).pending_view()[k].0
                &&& wakers@.contains(old(self).pending_view()[k].1)
            } by {
                assert(pend0.contains_key(k) && !self.pending_view().contains_key(k));
            }
            assert forall|x: u64| wakers@.contains(x) implies exists|k: u64|
                moved(*old(self), *self, k) && x == old(self).pending_view()[k].1 by {
                let k = choose|k: u64|
                    pend0.contains_key(k) && !self.pending_view().contains_key(k) && x
                        == pend0[k].1;
                assert(moved(*old(self), *self, k) && x == old(self).pending_view()[k].1);
            }
            assert(wait_moves(*old(self), *self, wakers@));
        }
        Ok(wakers)
    }
}

/// The future behind a host-handle subscription
/// The future behind a host-handle subscription: registers an opaque
/// handle with the reactor on its first poll and completes once the
/// batched host poll has reported the handle ready.
pub struct SubscribeFuture {
    event_key: u64,
    handle: u64,
    registered: bool,
}

impl SubscribeFuture {
    /// The reactor name this subscription registers under.
    pub closed spec fn key_spec(self) -> u64 {
        self.event_key
    }

    /// The opaque host handle awaited.
    pub closed spec fn handle_spec(self) -> u64 {
        self.handle
    }

    /// Whether the first poll has registered the subscription.
    pub closed spec fn registered_spec(self) -> bool {
        self.registered
    }

    /// A subscription future for `handle`, under a fresh reactor name.
    pub fn subscribe(rt: &mut Reactor, handle: u64) -> (f: SubscribeFuture)
        requires
            old(rt).wf(),
        ensures
            final(rt).wf(),
            f.key_spec() == old(rt).next_id_spec(),
            f.handle_spec() == handle,
            !f.registered_spec(),
            final(rt).next_id_spec() == if old(rt).next_id_spec() < u64::MAX {
                (old(rt).next_id_spec() + 1) as u64
            } else {
                u64::MAX
            },
            final(rt).pending_view() == old(rt).pending_view(),
            final(rt).finished_view() == old(rt).finished_view(),
            final(rt).timers_view() == old(rt).timers_view(),
            final(rt).slots_view() == old(rt).slots_view(),
            final(rt).ready_view() == old(rt).ready_view(),
    {
        SubscribeFuture { event_key: rt.fresh_key(), handle, registered: false }
    }

    /// One poll of the subscription under the owning task's waker.
    ///
    /// The first poll registers the handle with the waker and
    /// suspends; later polls complete exactly when the handle's
    /// readiness sits in the finished set, consuming it.
    pub fn poll(&mut self, rt: &mut Reactor, waker: u64) -> (r: Option<()>)
        requires
            old(rt).wf(),
        ensures
            final(rt).wf(),
            final(rt).sched_extends(*old(rt)),
            final(rt).timers_view() == old(rt).timers_view(),
            final(rt).slots_view() == old(rt).slots_view(),
            final(rt).ready_view() == old(rt).ready_view(),
            final(rt).next_id_spec() == old(rt).next_id_spec(),
            final(self).key_spec() == old(self).key_spec(),
            final(self).handle_spec() == old(self).handle_spec(),
            !old(self).registered_spec() ==> {
                &&& r is None
                &&& final(self).registered_spec() == !old(rt).pending_view().contains_key(
                    old(self).key_spec(),
                )
                &&& (final(self).registered_spec() ==> final(rt).pending_view() == old(
                    rt,
                ).pending_view().insert(
                    old(self).key_spec(),
                    (old(self).handle_spec(), waker),
                ))
                &&& (!final(self).registered_spec() ==> final(rt).pending_view() == old(
                    rt,
                ).pending_view())
                &&& final(rt).finished_view() == old(rt).finished_view()
            },
            old(self).registered_spec() ==> {
                &&& final(self).registered_spec()
                &&& (r is Some <==> old(rt).finished_view().contains_key(old(self).key_spec()))
                &&& final(rt).finished_view() == old(rt).finished_view().remove(
                    old(self).key_spec(),
                )
                &&& final(rt).pending_view() == old(rt).pending_view()
            },
    {
        if !self.registered {
            match rt.register(self.event_key, (self.handle, waker)) {
                Ok(_) => {
                    self.registered = true;
                },
                Err(_) => {},
            }
            proof {
                crate::engine::lemma_sched_extends_refl(*rt);
            }
            None
        } else {
            let ready = rt.check_ready(self.event_key);
            proof {
                crate::engine::lemma_sched_extends_refl(*rt);
            }
            if ready {
                Some(())
            } else {
                None
            }
        }
    }
}

impl SubscribeFuture {
    /// Deregisters the subscription from both tables: the scoped
    /// release a dropped subscription owes the reactor.
    pub fn cancel(&self, rt: &mut Reactor)
        requires
            old(rt).wf(),
        ensures
            final(rt).wf(),
            final(rt).pending_view() == old(rt).pending_view().remove(self.key_spec()),
            final(rt).finished_view() == old(rt).finished_view().remove(self.key_spec()),
            final(rt).timers_view() == old(rt).timers_view(),
            final(rt).slots_view() == old(rt).slots_view(),
            final(rt).ready_view() == old(rt).ready_view(),
            final(rt).next_id_spec() == old(rt).next_id_spec(),
    {
        rt.remove_subscription(self.event_key);
    }
}

impl<H: HostApi> GuestFuture<H> for SubscribeFuture {
    type Output = ();

    fn poll_fut(&mut self, rt: &mut Reactor, host: &mut H, waker: u64, now: u64) -> (r: Option<
        (),
    >) {
        self.poll(rt, waker)
    }

    fn cancel_fut(&mut self, rt: &mut Reactor) {
        self.cancel(rt);
        proof {
            crate::engine::lemma_sched_extends_refl(*rt);
        }
    }
}

} // verus!
