//! The host boundary.
//!
//! The runtime runs inside a sandbox and may block only through the
//! host's batched poll over opaque handles. [`HostApi`] names the host
//! primitives the core consumes: a monotonic clock, the batched poll,
//! duration subscriptions, and the socket operations behind
//! [`crate::net::TcpStream`]. The trait carries no contract: nothing is
//! assumed of the host, and every verified caller states only what holds
//! of its own state whatever the host answers.

use vstd::prelude::*;
use crate::errors::RuntimeError;
use crate::net::{IpAddressFamily, IpSocketAddress, TcpErrorCode};

verus! {

/// The primitives the sandbox host provides.
///
/// `poll` is the only blocking call: it takes an ordered sequence of
/// opaque handles and returns indices into that sequence that are
/// ready, blocking until at least one is; an empty answer means it was
/// interrupted and the caller retries. The remaining methods are
/// non-blocking host services.
pub trait HostApi {
    /// A sample of the host's monotonic clock, in nanoseconds.
    fn now(&mut self) -> u64;

    /// Blocks until at least one of `handles` is ready and returns the
    /// ready indices; an empty answer means an interrupted wait.
    fn poll(&mut self, handles: &Vec<u64>) -> Result<Vec<usize>, RuntimeError>;

    /// A handle that becomes ready after at least `nanoseconds`.
    fn subscribe_duration(&mut self, nanoseconds: u64) -> u64;

    /// The handle of the sandbox's network instance.
    fn instance_network(&mut self) -> u64;

    /// Creates a TCP socket of the given family, as an opaque handle.
    fn create_tcp_socket(&mut self, family: IpAddressFamily) -> Result<u64, TcpErrorCode>;

    /// A pollable handle that becomes ready when the socket does.
    fn subscribe_socket(&mut self, socket: u64) -> u64;

    /// Starts connecting the socket to the given address.
    fn start_connect(
        &mut self,
        socket: u64,
        network: u64,
        address: IpSocketAddress,
    ) -> Result<(), TcpErrorCode>;

    /// Finishes a started connect, yielding the input and output stream
    /// handles.
    fn finish_connect(&mut self, socket: u64) -> Result<(u64, u64), TcpErrorCode>;
}

} // verus!
