//! A single-threaded cooperative task runtime for sandboxed guests.
//!
//! The runtime drives suspended state machines to completion by repeated
//! polling. External readiness arrives through a host-provided batched
//! poll over opaque handles; user-level timers are advanced against the
//! host's monotonic clock.

pub mod errors;
pub mod host;
pub mod keytable;
pub mod net;
pub mod poll_tasks;
pub mod ready_queue;
pub mod engine;
pub mod task;
pub mod timer;

pub use engine::WasmRuntimeAsyncEngine;
pub use errors::RuntimeError;
pub use timer::Timer;
