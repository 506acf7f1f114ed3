use std::cell::{Cell, RefCell};
use std::rc::Rc;
use std::sync::atomic::{AtomicBool, Ordering};
use std::sync::Arc;

use tiny_wasm_runtime::engine::{
    FutureWaker, JoinHandle, Reactor, SlotState, WasmRuntimeAsyncEngine,
};
use tiny_wasm_runtime::errors::RuntimeError;
use tiny_wasm_runtime::host::HostApi;
use tiny_wasm_runtime::keytable::KeyTable;
use tiny_wasm_runtime::net::{
    socket_address_of, IoErrorKind, IpAddress, IpAddressFamily, IpSocketAddress, Ipv4Address,
    Ipv4SocketAddress, TcpErrorCode, TcpStream,
};
use tiny_wasm_runtime::poll_tasks::{PollTasks, SubscribeFuture};
use tiny_wasm_runtime::task::{GuestFuture, GuestTask, SleepingTask, SpawnedTask, StepResult, TaskPoll};
use tiny_wasm_runtime::timer::{TimeFuture, Timer, TimeoutFuture};

const MS: u64 = 1_000_000;
const SEC: u64 = 1_000_000_000;

/// A deterministic stand-in for the sandbox host: virtual monotonic
/// time that advances one millisecond per clock sample, and duration
/// handles that become ready once their deadline passes. The batched
/// poll jumps the clock to the nearest deadline among the polled
/// handles, as a blocking host would sleep until then.
struct SimHost {
    now_ns: u64,
    tick: u64,
    deadlines: Vec<(u64, u64)>,
    next_handle: u64,
}

impl SimHost {
    fn new() -> SimHost {
        SimHost { now_ns: 0, tick: MS, deadlines: Vec::new(), next_handle: 1 }
    }

    fn deadline_of(&self, handle: u64) -> Option<u64> {
        self.deadlines.iter().find(|(h, _)| *h == handle).map(|(_, d)| *d)
    }
}

impl HostApi for SimHost {
    fn now(&mut self) -> u64 {
        self.now_ns += self.tick;
        self.now_ns
    }

    fn poll(&mut self, handles: &Vec<u64>) -> Result<Vec<usize>, RuntimeError> {
        let mut nearest: Option<u64> = None;
        for h in handles.iter() {
            if let Some(d) = self.deadline_of(*h) {
                nearest = Some(match nearest {
                    Some(n) if n <= d => n,
                    _ => d,
                });
            }
        }
        if let Some(n) = nearest {
            if self.now_ns < n {
                self.now_ns = n;
            }
        }
        let mut ready = Vec::new();
        for (i, h) in handles.iter().enumerate() {
            if let Some(d) = self.deadline_of(*h) {
                if d <= self.now_ns {
                    ready.push(i);
                }
            }
        }
        Ok(ready)
    }

    fn subscribe_duration(&mut self, nanoseconds: u64) -> u64 {
        let h = self.next_handle;
        self.next_handle += 1;
        self.deadlines.push((h, self.now_ns + nanoseconds));
        h
    }

    fn instance_network(&mut self) -> u64 {
        90
    }

    fn create_tcp_socket(&mut self, _family: IpAddressFamily) -> Result<u64, TcpErrorCode> {
        let h = self.next_handle;
        self.next_handle += 1;
        Ok(h)
    }

    fn subscribe_socket(&mut self, _socket: u64) -> u64 {
        let h = self.next_handle;
        self.next_handle += 1;
        self.deadlines.push((h, self.now_ns + MS));
        h
    }

    fn start_connect(
        &mut self,
        _socket: u64,
        _network: u64,
        _address: IpSocketAddress,
    ) -> Result<(), TcpErrorCode> {
        Ok(())
    }

    fn finish_connect(&mut self, _socket: u64) -> Result<(u64, u64), TcpErrorCode> {
        Ok((71, 72))
    }
}

/// Counts from `min` up to `max`, waking itself after each step.
struct CountFuture {
    min: u8,
    max: u8,
}

impl<H: HostApi> GuestTask<H> for CountFuture {
    fn poll_step(
        &mut self,
        rt: &mut Reactor,
        _host: &mut H,
        me: u64,
        _now: u64,
    ) -> StepResult<Self> {
        if self.min == self.max {
            return StepResult { poll: TaskPoll::Ready(self.min as u64), spawned: Vec::new() };
        }
        self.min += 1;
        FutureWaker::new(me).wake(rt);
        StepResult { poll: TaskPoll::Pending, spawned: Vec::new() }
    }
}

#[test]
fn test_enqueue() {
    let count_future = CountFuture { max: 3, min: 0 };
    let mut reactor = Reactor::default();
    let mut host = SimHost::new();
    let handle = reactor.push_task();
    let mut task = count_future;
    let now = host.now();
    let _ = task.poll_step(&mut reactor, &mut host, handle.id(), now);
}

#[test]
fn test_block_on() {
    let count_future = CountFuture { max: 3, min: 0 };
    let mut reactor = Reactor::default();
    let mut host = SimHost::new();
    let result =
        WasmRuntimeAsyncEngine::block_on(&mut reactor, count_future, &mut host, 1_000_000);
    assert_eq!(result, Ok(3));
}

/// The root of the return-value test: sleeps 200 ms, spawns a child
/// that sleeps 100 ms and returns 999, awaits it, and returns the
/// child's value plus one.
enum ReturnTask {
    Root(ReturnPhase),
    Child(SleepingTask),
}

enum ReturnPhase {
    Sleeping(TimeFuture),
    Waiting(JoinHandle),
    Done,
}

impl<H: HostApi> GuestTask<H> for ReturnTask {
    fn poll_step(&mut self, rt: &mut Reactor, host: &mut H, me: u64, now: u64) -> StepResult<Self> {
        match self {
            ReturnTask::Child(t) => {
                let r = t.poll_step(rt, host, me, now);
                StepResult { poll: r.poll, spawned: Vec::new() }
            }
            ReturnTask::Root(phase) => {
                let cur = std::mem::replace(phase, ReturnPhase::Done);
                match cur {
                    ReturnPhase::Sleeping(f) => {
                        if f.poll(rt, me, now).is_some() {
                            println!("Slept 200ms.");
                            println!("[Spawned Task] Sleeping 100ms...");
                            let child = SleepingTask::new(rt, 100 * MS, 999);
                            let (handle, spawned) =
                                WasmRuntimeAsyncEngine::spawn(rt, ReturnTask::Child(child));
                            println!("wait for result");
                            let _ = handle.poll(rt, me);
                            *phase = ReturnPhase::Waiting(handle);
                            return StepResult {
                                poll: TaskPoll::Pending,
                                spawned: vec![spawned],
                            };
                        }
                        *phase = ReturnPhase::Sleeping(f);
                        StepResult { poll: TaskPoll::Pending, spawned: Vec::new() }
                    }
                    ReturnPhase::Waiting(handle) => match handle.poll(rt, me) {
                        Some(Ok(spawned_result)) => {
                            println!("[Main] Spawned task returned: {spawned_result}");
                            StepResult {
                                poll: TaskPoll::Ready(spawned_result + 1),
                                spawned: Vec::new(),
                            }
                        }
                        Some(Err(_)) => panic!("Could not join result"),
                        None => {
                            *phase = ReturnPhase::Waiting(handle);
                            StepResult { poll: TaskPoll::Pending, spawned: Vec::new() }
                        }
                    },
                    ReturnPhase::Done => StepResult { poll: TaskPoll::Pending, spawned: Vec::new() },
                }
            }
        }
    }
}

#[test]
fn test_block_on_return_value() {
    println!("=== Block On Return Value Test Start ===");
    let mut reactor = Reactor::default();
    let mut host = SimHost::new();
    let root = ReturnTask::Root(ReturnPhase::Sleeping(Timer::sleep(&mut reactor, 200 * MS)));
    let result = WasmRuntimeAsyncEngine::block_on(&mut reactor, root, &mut host, 1_000_000);
    println!("=== Block On Return Value Test Done ===");
    assert_eq!(result, Ok(1000), "The final result should be 1000");
}

/// A sleep that resolves with a fixed string, with a flag observing
/// its drop.
struct StrSleep {
    sleep: TimeFuture,
    value: &'static str,
    dropped: Rc<Cell<bool>>,
}

impl<H: HostApi> GuestFuture<H> for StrSleep {
    type Output = &'static str;

    fn poll_fut(
        &mut self,
        rt: &mut Reactor,
        _host: &mut H,
        waker: u64,
        now: u64,
    ) -> Option<&'static str> {
        if self.sleep.poll(rt, waker, now).is_some() {
            Some(self.value)
        } else {
            None
        }
    }

    fn cancel_fut(&mut self, rt: &mut Reactor) {
        self.sleep.cancel(rt);
    }
}

impl Drop for StrSleep {
    fn drop(&mut self) {
        self.dropped.set(true);
    }
}

/// A root that drives one timeout to resolution and stores the result.
struct TimeoutRoot {
    tf: Option<TimeoutFuture<StrSleep>>,
    out: Rc<RefCell<Option<Result<&'static str, RuntimeError>>>>,
}

impl<H: HostApi> GuestTask<H> for TimeoutRoot {
    fn poll_step(&mut self, rt: &mut Reactor, host: &mut H, me: u64, now: u64) -> StepResult<Self> {
        let mut tf = match self.tf.take() {
            Some(tf) => tf,
            None => return StepResult { poll: TaskPoll::Ready(0), spawned: Vec::new() },
        };
        match tf.poll_fut(rt, host, me, now) {
            Some(res) => {
                *self.out.borrow_mut() = Some(res);
                StepResult { poll: TaskPoll::Ready(0), spawned: Vec::new() }
            }
            None => {
                self.tf = Some(tf);
                StepResult { poll: TaskPoll::Pending, spawned: Vec::new() }
            }
        }
    }
}

fn run_timeout_case(
    sleep_ms: u64,
    timeout_ms: u64,
    value: &'static str,
) -> (Result<&'static str, RuntimeError>, bool) {
    let mut reactor = Reactor::default();
    let mut host = SimHost::new();
    let dropped = Rc::new(Cell::new(false));
    let out = Rc::new(RefCell::new(None));
    let inner = StrSleep {
        sleep: Timer::sleep(&mut reactor, sleep_ms * MS),
        value,
        dropped: dropped.clone(),
    };
    let tf = Timer::timeout(&mut reactor, inner, timeout_ms * MS);
    let root = TimeoutRoot { tf: Some(tf), out: out.clone() };
    let result = WasmRuntimeAsyncEngine::block_on(&mut reactor, root, &mut host, 1_000_000);
    assert_eq!(result, Ok(0));
    assert!(reactor.is_empty());
    let res = out.borrow_mut().take().expect("the timeout resolved");
    (res, dropped.get())
}

#[test]
fn test_timeout_behavior() {
    println!("=== Timeout Behavior Test Start ===");
    println!("[Fast Future] Sleeping 100ms...");
    let (result_fast, _) = run_timeout_case(100, 1000, "fast_result");
    assert!(result_fast.is_ok(), "Fast future should complete before timeout");
    assert_eq!(result_fast.unwrap(), "fast_result");
    println!("[Slow Future] Sleeping 2s...");
    let (result_slow, slow_dropped) = run_timeout_case(2000, 500, "slow_result");
    assert!(result_slow.is_err(), "Slow future should time out");
    let err = result_slow.unwrap_err();
    assert_eq!(err, RuntimeError::TimedOut);
    assert!(slow_dropped, "the slow inner future is dropped when the deadline fires");
    println!("[Edge Future] Sleeping 500ms...");
    let (result_edge, _) = run_timeout_case(500, 600, "edge_result");
    assert!(result_edge.is_ok(), "Edge future should complete before timeout");
    assert_eq!(result_edge.unwrap(), "edge_result");
    println!("=== Timeout Behavior Test Complete ===");
}

/// A sleeping task that raises a flag when it completes.
struct FlagTask {
    sleep: TimeFuture,
    flag: Arc<AtomicBool>,
}

/// The root of the full-engine test: spawns two flag tasks (1 s and
/// 500 ms) and races a 2 s sleep against a 1 s timeout.
struct FullRoot {
    started: bool,
    tf: Option<TimeoutFuture<StrSleep>>,
    a: Arc<AtomicBool>,
    b: Arc<AtomicBool>,
}

enum FullTask {
    Root(FullRoot),
    Flag(FlagTask),
}

impl<H: HostApi> GuestTask<H> for FullTask {
    fn poll_step(&mut self, rt: &mut Reactor, host: &mut H, me: u64, now: u64) -> StepResult<Self> {
        match self {
            FullTask::Flag(t) => {
                if t.sleep.poll(rt, me, now).is_some() {
                    t.flag.store(true, Ordering::SeqCst);
                    StepResult { poll: TaskPoll::Ready(1), spawned: Vec::new() }
                } else {
                    StepResult { poll: TaskPoll::Pending, spawned: Vec::new() }
                }
            }
            FullTask::Root(root) => {
                if !root.started {
                    root.started = true;
                    let task_a = FlagTask {
                        sleep: Timer::sleep(rt, 1 * SEC),
                        flag: root.a.clone(),
                    };
                    let (_ha, sp_a) = WasmRuntimeAsyncEngine::spawn(rt, FullTask::Flag(task_a));
                    let task_b = FlagTask {
                        sleep: Timer::sleep(rt, 500 * MS),
                        flag: root.b.clone(),
                    };
                    let (_hb, sp_b) = WasmRuntimeAsyncEngine::spawn(rt, FullTask::Flag(task_b));
                    let slow = StrSleep {
                        sleep: Timer::sleep(rt, 2 * SEC),
                        value: "completed",
                        dropped: Rc::new(Cell::new(false)),
                    };
                    let mut tf = Timer::timeout(rt, slow, 1 * SEC);
                    let first = tf.poll_fut(rt, host, me, now);
                    assert!(first.is_none());
                    root.tf = Some(tf);
                    return StepResult { poll: TaskPoll::Pending, spawned: vec![sp_a, sp_b] };
                }
                let mut tf = match root.tf.take() {
                    Some(tf) => tf,
                    None => return StepResult { poll: TaskPoll::Ready(0), spawned: Vec::new() },
                };
                match tf.poll_fut(rt, host, me, now) {
                    Some(res) => {
                        assert!(res.is_err(), "Expected the main future to time out");
                        assert!(
                            root.a.load(Ordering::SeqCst) || root.b.load(Ordering::SeqCst),
                            "At least one background task should have completed by now"
                        );
                        StepResult { poll: TaskPoll::Ready(0), spawned: Vec::new() }
                    }
                    None => {
                        root.tf = Some(tf);
                        StepResult { poll: TaskPoll::Pending, spawned: Vec::new() }
                    }
                }
            }
        }
    }
}

#[test]
fn test_full_engine_runtime() {
    let mut reactor = Reactor::default();
    let mut host = SimHost::new();
    let a = Arc::new(AtomicBool::new(false));
    let b = Arc::new(AtomicBool::new(false));
    let root = FullTask::Root(FullRoot { started: false, tf: None, a: a.clone(), b: b.clone() });
    let result = WasmRuntimeAsyncEngine::block_on(&mut reactor, root, &mut host, 1_000_000);
    assert_eq!(result, Ok(0));
    assert!(a.load(Ordering::SeqCst) && b.load(Ordering::SeqCst));
    assert!(reactor.is_empty());
}

/// A sleeping task that logs its label when it completes.
struct LogSleeper {
    sleep: TimeFuture,
    label: u64,
    log: Rc<RefCell<Vec<u64>>>,
}

enum OrderTask {
    Root(bool, Rc<RefCell<Vec<u64>>>),
    Sleeper(LogSleeper),
}

impl<H: HostApi> GuestTask<H> for OrderTask {
    fn poll_step(
        &mut self,
        rt: &mut Reactor,
        _host: &mut H,
        me: u64,
        now: u64,
    ) -> StepResult<Self> {
        match self {
            OrderTask::Sleeper(t) => {
                if t.sleep.poll(rt, me, now).is_some() {
                    t.log.borrow_mut().push(t.label);
                    StepResult { poll: TaskPoll::Ready(t.label), spawned: Vec::new() }
                } else {
                    StepResult { poll: TaskPoll::Pending, spawned: Vec::new() }
                }
            }
            OrderTask::Root(started, log) => {
                if *started {
                    return StepResult { poll: TaskPoll::Ready(0), spawned: Vec::new() };
                }
                *started = true;
                let mut spawned = Vec::new();
                for (dur, label) in [(5 * SEC, 5u64), (2 * SEC, 2u64), (7 * SEC, 7u64)] {
                    let t = LogSleeper {
                        sleep: Timer::sleep(rt, dur),
                        label,
                        log: log.clone(),
                    };
                    let (_h, sp) = WasmRuntimeAsyncEngine::spawn(rt, OrderTask::Sleeper(t));
                    spawned.push(sp);
                }
                StepResult { poll: TaskPoll::Ready(0), spawned }
            }
        }
    }
}

#[test]
fn test_multi_timer_ordering() {
    let mut reactor = Reactor::default();
    let mut host = SimHost::new();
    let log = Rc::new(RefCell::new(Vec::new()));
    let root = OrderTask::Root(false, log.clone());
    let result = WasmRuntimeAsyncEngine::block_on(&mut reactor, root, &mut host, 1_000_000);
    assert_eq!(result, Ok(0));
    assert_eq!(*log.borrow(), vec![2, 5, 7]);
    assert!(host.now_ns >= 7 * SEC);
    assert!(host.now_ns < 8 * SEC);
    assert!(reactor.is_empty());
}

/// The quiescence root: spawns two sleeping tasks and completes at
/// once; the runtime still runs both to completion before returning.
enum QuiTask {
    Root(bool),
    Child(SleepingTask),
}

impl<H: HostApi> GuestTask<H> for QuiTask {
    fn poll_step(&mut self, rt: &mut Reactor, host: &mut H, me: u64, now: u64) -> StepResult<Self> {
        match self {
            QuiTask::Child(t) => {
                let r = t.poll_step(rt, host, me, now);
                StepResult { poll: r.poll, spawned: Vec::new() }
            }
            QuiTask::Root(started) => {
                if *started {
                    return StepResult { poll: TaskPoll::Ready(7), spawned: Vec::new() };
                }
                *started = true;
                let c1 = SleepingTask::new(rt, 1 * SEC, 111);
                let (_h1, sp1) = WasmRuntimeAsyncEngine::spawn(rt, QuiTask::Child(c1));
                let c2 = SleepingTask::new(rt, 500 * MS, 222);
                let (_h2, sp2) = WasmRuntimeAsyncEngine::spawn(rt, QuiTask::Child(c2));
                StepResult { poll: TaskPoll::Ready(7), spawned: vec![sp1, sp2] }
            }
        }
    }
}

#[test]
fn test_quiescence_after_root() {
    let mut reactor = Reactor::default();
    let mut host = SimHost::new();
    let result =
        WasmRuntimeAsyncEngine::block_on(&mut reactor, QuiTask::Root(false), &mut host, 1_000_000);
    assert_eq!(result, Ok(7));
    // ids by allocation order: root 0, first child's timer key 1, its
    // task id 2, second child's timer key 3, its task id 4
    assert_eq!(reactor.task_status(2), Some(SlotState::Filled(111)));
    assert_eq!(reactor.task_status(4), Some(SlotState::Filled(222)));
    assert!(reactor.is_empty());
    assert!(reactor.no_live_tasks());
}

/// The subscription root: awaits three host handles and logs the
/// order their readiness arrives in.
struct SubRoot {
    subs: Vec<Option<SubscribeFuture>>,
    labels: Vec<u64>,
    log: Rc<RefCell<Vec<u64>>>,
}

impl<H: HostApi> GuestTask<H> for SubRoot {
    fn poll_step(
        &mut self,
        rt: &mut Reactor,
        _host: &mut H,
        me: u64,
        _now: u64,
    ) -> StepResult<Self> {
        let mut all_done = true;
        for i in 0..self.subs.len() {
            if let Some(mut sf) = self.subs[i].take() {
                match sf.poll(rt, me) {
                    Some(()) => {
                        self.log.borrow_mut().push(self.labels[i]);
                    }
                    None => {
                        self.subs[i] = Some(sf);
                        all_done = false;
                    }
                }
            }
        }
        if all_done {
            StepResult { poll: TaskPoll::Ready(0), spawned: Vec::new() }
        } else {
            StepResult { poll: TaskPoll::Pending, spawned: Vec::new() }
        }
    }
}

#[test]
fn test_host_handle_subscription() {
    let mut reactor = Reactor::default();
    let mut host = SimHost::new();
    let h1 = host.subscribe_duration(1 * MS);
    let h2 = host.subscribe_duration(5 * MS);
    let h3 = host.subscribe_duration(2 * MS);
    let subs = vec![
        Some(SubscribeFuture::subscribe(&mut reactor, h1)),
        Some(SubscribeFuture::subscribe(&mut reactor, h2)),
        Some(SubscribeFuture::subscribe(&mut reactor, h3)),
    ];
    let log = Rc::new(RefCell::new(Vec::new()));
    let root = SubRoot { subs, labels: vec![1, 2, 3], log: log.clone() };
    let result = WasmRuntimeAsyncEngine::block_on(&mut reactor, root, &mut host, 1_000_000);
    assert_eq!(result, Ok(0));
    assert_eq!(*log.borrow(), vec![1, 3, 2]);
    assert!(reactor.is_empty());
}

/// A task that completes on its first poll and logs its label.
enum FifoTask {
    Root(bool, Rc<RefCell<Vec<u64>>>),
    Imm(u64, Rc<RefCell<Vec<u64>>>),
}

impl<H: HostApi> GuestTask<H> for FifoTask {
    fn poll_step(
        &mut self,
        rt: &mut Reactor,
        _host: &mut H,
        _me: u64,
        _now: u64,
    ) -> StepResult<Self> {
        match self {
            FifoTask::Imm(label, log) => {
                log.borrow_mut().push(*label);
                StepResult { poll: TaskPoll::Ready(*label), spawned: Vec::new() }
            }
            FifoTask::Root(started, log) => {
                if *started {
                    return StepResult { poll: TaskPoll::Ready(0), spawned: Vec::new() };
                }
                *started = true;
                let mut spawned = Vec::new();
                for label in [1u64, 2, 3] {
                    let (_h, sp) =
                        WasmRuntimeAsyncEngine::spawn(rt, FifoTask::Imm(label, log.clone()));
                    spawned.push(sp);
                }
                StepResult { poll: TaskPoll::Ready(0), spawned }
            }
        }
    }
}

#[test]
fn test_ready_queue_fifo() {
    let mut reactor = Reactor::default();
    let mut host = SimHost::new();
    let log = Rc::new(RefCell::new(Vec::new()));
    let root = FifoTask::Root(false, log.clone());
    let result = WasmRuntimeAsyncEngine::block_on(&mut reactor, root, &mut host, 1_000_000);
    assert_eq!(result, Ok(0));
    assert_eq!(*log.borrow(), vec![1, 2, 3]);
}

/// A root that spawns a long sleeper, cancels it at once, and resolves
/// the join to the cancellation error.
enum CancelTask {
    Root(bool),
    Child(SleepingTask),
}

impl<H: HostApi> GuestTask<H> for CancelTask {
    fn poll_step(&mut self, rt: &mut Reactor, host: &mut H, me: u64, now: u64) -> StepResult<Self> {
        match self {
            CancelTask::Child(t) => {
                let r = t.poll_step(rt, host, me, now);
                StepResult { poll: r.poll, spawned: Vec::new() }
            }
            CancelTask::Root(started) => {
                if !*started {
                    *started = true;
                    let child = SleepingTask::new(rt, 10 * SEC, 5);
                    let (h, sp) = WasmRuntimeAsyncEngine::spawn(rt, CancelTask::Child(child));
                    h.cancel(rt);
                    match h.poll(rt, me) {
                        Some(Err(RuntimeError::Cancelled)) => {
                            return StepResult {
                                poll: TaskPoll::Ready(9),
                                spawned: vec![sp],
                            };
                        }
                        _ => panic!("a cancelled join resolves to the cancellation error"),
                    }
                }
                StepResult { poll: TaskPoll::Pending, spawned: Vec::new() }
            }
        }
    }
}

#[test]
fn test_cancel_spawned_task() {
    let mut reactor = Reactor::default();
    let mut host = SimHost::new();
    let root = CancelTask::Root(false);
    let result = WasmRuntimeAsyncEngine::block_on(&mut reactor, root, &mut host, 1_000_000);
    assert_eq!(result, Ok(9));
    // ids by allocation order: root 0, child's timer key 1, child id 2
    assert_eq!(reactor.task_status(2), Some(SlotState::Cancelled));
    assert!(reactor.is_empty());
}

/// A host whose batched poll always fails.
struct FailingPollHost {
    inner: SimHost,
}

impl HostApi for FailingPollHost {
    fn now(&mut self) -> u64 {
        self.inner.now()
    }

    fn poll(&mut self, _handles: &Vec<u64>) -> Result<Vec<usize>, RuntimeError> {
        Err(RuntimeError::HostPollFailure)
    }

    fn subscribe_duration(&mut self, nanoseconds: u64) -> u64 {
        self.inner.subscribe_duration(nanoseconds)
    }

    fn instance_network(&mut self) -> u64 {
        self.inner.instance_network()
    }

    fn create_tcp_socket(&mut self, family: IpAddressFamily) -> Result<u64, TcpErrorCode> {
        self.inner.create_tcp_socket(family)
    }

    fn subscribe_socket(&mut self, socket: u64) -> u64 {
        self.inner.subscribe_socket(socket)
    }

    fn start_connect(
        &mut self,
        socket: u64,
        network: u64,
        address: IpSocketAddress,
    ) -> Result<(), TcpErrorCode> {
        self.inner.start_connect(socket, network, address)
    }

    fn finish_connect(&mut self, socket: u64) -> Result<(u64, u64), TcpErrorCode> {
        self.inner.finish_connect(socket)
    }
}

struct WaitingRoot {
    sub: Option<SubscribeFuture>,
}

impl<H: HostApi> GuestTask<H> for WaitingRoot {
    fn poll_step(
        &mut self,
        rt: &mut Reactor,
        _host: &mut H,
        me: u64,
        _now: u64,
    ) -> StepResult<Self> {
        if let Some(mut sf) = self.sub.take() {
            match sf.poll(rt, me) {
                Some(()) => {}
                None => {
                    self.sub = Some(sf);
                    return StepResult { poll: TaskPoll::Pending, spawned: Vec::new() };
                }
            }
        }
        StepResult { poll: TaskPoll::Ready(0), spawned: Vec::new() }
    }
}

#[test]
fn test_host_poll_failure() {
    let mut reactor = Reactor::default();
    let mut host = FailingPollHost { inner: SimHost::new() };
    let handle = host.subscribe_duration(1 * MS);
    let sub = SubscribeFuture::subscribe(&mut reactor, handle);
    let root = WaitingRoot { sub: Some(sub) };
    let result = WasmRuntimeAsyncEngine::block_on(&mut reactor, root, &mut host, 1_000_000);
    assert_eq!(result, Err(RuntimeError::HostPollFailure));
}

#[test]
fn test_exhausted_budget() {
    let mut reactor = Reactor::default();
    let mut host = SimHost::new();
    let result = WasmRuntimeAsyncEngine::block_on(
        &mut reactor,
        CountFuture { max: 3, min: 0 },
        &mut host,
        0,
    );
    assert_eq!(result, Err(RuntimeError::Exhausted));
}

#[test]
fn test_duplicate_subscription_name() {
    let mut reactor = Reactor::default();
    assert_eq!(reactor.register(7, (1, 2)), Ok(()));
    assert_eq!(reactor.register(7, (3, 4)), Err(RuntimeError::DuplicateName));
    assert!(reactor.is_pollable(7));
}

#[test]
fn test_timer_strict_elapse() {
    let mut t = Timer::new(100, 50);
    assert!(!t.elapsed());
    t.update_elapsed(150);
    assert!(!t.elapsed(), "an on-edge sample stays not elapsed");
    t.update_elapsed(151);
    assert!(t.elapsed());
    t.update_elapsed(90);
    assert!(!t.elapsed(), "a sample before registration reads not elapsed");
}

#[test]
fn test_reactor_timer_edge() {
    let mut reactor = Reactor::default();
    reactor.register_timer(5, (Timer::new(0, 10), 0));
    assert!(reactor.is_timer_pollable(5));
    reactor.update_timers(10);
    assert!(!reactor.timer_has_elapsed(5));
    reactor.update_timers(11);
    assert!(reactor.timer_has_elapsed(5));
    reactor.remove_timer(5);
    assert!(!reactor.is_timer_pollable(5));
    assert!(!reactor.timer_has_elapsed(5));
}

#[test]
fn test_error_kind_mapping() {
    assert_eq!(TcpErrorCode::Timeout.kind(), IoErrorKind::TimedOut);
    assert_eq!(TcpErrorCode::AccessDenied.kind(), IoErrorKind::PermissionDenied);
    assert_eq!(TcpErrorCode::ConnectionRefused.kind(), IoErrorKind::ConnectionRefused);
    assert_eq!(TcpErrorCode::DatagramTooLarge.kind(), IoErrorKind::Other);
    let e = tiny_wasm_runtime::net::IoError::from_code(TcpErrorCode::AddressInUse);
    assert_eq!(e.kind, IoErrorKind::AddrInUse);
    assert_eq!(e.code, TcpErrorCode::AddressInUse);
}

#[test]
fn test_socket_address_shape() {
    let sa = socket_address_of(IpAddress::Ipv4(Ipv4Address(127, 0, 0, 1)), 63000);
    assert_eq!(
        sa,
        IpSocketAddress::Ipv4(Ipv4SocketAddress {
            port: 63000,
            address: Ipv4Address(127, 0, 0, 1)
        })
    );
}

#[test]
fn test_tcp_stream_connect_simulated() {
    let mut reactor = Reactor::default();
    let mut host = SimHost::new();
    let mut stream = TcpStream::new_ipv4(&mut host).expect("Failed to create TCP stream");
    let mut fut =
        TcpStream::connect(&mut reactor, IpAddress::Ipv4(Ipv4Address(127, 0, 0, 1)), 63000);
    let first = fut.poll(&mut stream, &mut reactor, &mut host, 0);
    assert!(first.is_none(), "the first poll starts the connect and suspends");
    reactor.wait_for_io(&mut host).expect("the simulated wait succeeds");
    let second = fut.poll(&mut stream, &mut reactor, &mut host, 0);
    assert_eq!(second, Some(Ok(())));
    assert!(reactor.is_empty());
}

/// A host that refuses to create sockets.
struct RefusingTcpHost {
    inner: SimHost,
}

impl HostApi for RefusingTcpHost {
    fn now(&mut self) -> u64 {
        self.inner.now()
    }

    fn poll(&mut self, handles: &Vec<u64>) -> Result<Vec<usize>, RuntimeError> {
        self.inner.poll(handles)
    }

    fn subscribe_duration(&mut self, nanoseconds: u64) -> u64 {
        self.inner.subscribe_duration(nanoseconds)
    }

    fn instance_network(&mut self) -> u64 {
        self.inner.instance_network()
    }

    fn create_tcp_socket(&mut self, _family: IpAddressFamily) -> Result<u64, TcpErrorCode> {
        Err(TcpErrorCode::AccessDenied)
    }

    fn subscribe_socket(&mut self, socket: u64) -> u64 {
        self.inner.subscribe_socket(socket)
    }

    fn start_connect(
        &mut self,
        socket: u64,
        network: u64,
        address: IpSocketAddress,
    ) -> Result<(), TcpErrorCode> {
        self.inner.start_connect(socket, network, address)
    }

    fn finish_connect(&mut self, socket: u64) -> Result<(u64, u64), TcpErrorCode> {
        self.inner.finish_connect(socket)
    }
}

#[test]
fn test_tcp_create_refused() {
    let mut host = RefusingTcpHost { inner: SimHost::new() };
    let r = TcpStream::new_ipv4(&mut host);
    match r {
        Err(e) => {
            assert_eq!(e.kind, IoErrorKind::PermissionDenied);
            assert_eq!(e.code, TcpErrorCode::AccessDenied);
        }
        Ok(_) => panic!("a refused socket creation reports an error"),
    }
}

#[test]
fn test_keytable_map_semantics() {
    let mut t: KeyTable<u64> = KeyTable::new();
    assert!(t.is_empty());
    assert_eq!(t.len(), 0);
    t.insert(3, 30);
    t.insert(5, 50);
    t.insert(3, 31);
    assert_eq!(t.len(), 2);
    assert!(t.contains(3));
    assert!(!t.contains(4));
    assert_eq!(t.get(3), Some(&31));
    assert_eq!(t.get(5), Some(&50));
    assert_eq!(t.get(4), None);
    let keys = t.keys();
    assert_eq!(keys, vec![3, 5]);
    assert_eq!(t.remove(3), Some(31));
    assert_eq!(t.remove(3), None);
    assert_eq!(t.len(), 1);
    assert!(!t.is_empty());
}

#[test]
fn test_poll_tasks_tables() {
    let mut p = PollTasks::new();
    assert!(p.is_empty());
    p.push(1, (10, 100));
    assert!(p.contains(1));
    assert!(!p.contains(2));
    assert!(!p.is_empty());
    assert!(!p.check_if_ready(1), "a pending subscription is not yet ready");
    p.remove(1);
    assert!(p.is_empty());
}

#[test]
fn test_slot_states() {
    assert_eq!(SlotState::Filled(3), SlotState::Filled(3));
    assert_ne!(SlotState::Pending, SlotState::Cancelled);
}

#[test]
fn test_mark_ready_processing() {
    let mut p = PollTasks::new();
    p.push(10, (100, 7));
    p.push(11, (101, 8));
    let names = vec![10u64, 11];
    let indices = vec![1usize, 5, 1];
    let wakers = p.mark_ready(&names, &indices);
    assert_eq!(wakers, vec![8], "one move: the out-of-range and repeated indices do nothing");
    assert!(p.contains(10));
    assert!(!p.contains(11));
    assert!(p.check_if_ready(11));
}

#[test]
fn test_drain_queue_handoff() {
    let mut reactor = Reactor::default();
    let mut table: KeyTable<u64> = KeyTable::new();
    let live = reactor.push_task();
    let cancelled = reactor.push_task();
    cancelled.cancel(&mut reactor);
    let spawned = vec![
        SpawnedTask { id: live.id(), body: 40u64 },
        SpawnedTask { id: cancelled.id(), body: 41 },
        SpawnedTask { id: live.id(), body: 42 },
        SpawnedTask { id: 99, body: 43 },
    ];
    WasmRuntimeAsyncEngine::drain_queue(&mut reactor, &mut table, spawned);
    assert_eq!(table.len(), 1, "only the live, not-yet-delivered pairing is inserted");
    assert_eq!(table.get(live.id()), Some(&40));
}
