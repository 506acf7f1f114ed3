//! The TCP connection surface over the host's socket primitives.
//!
//! The host owns the sockets; the core sees them only as opaque `u64`
//! handles obtained through [`crate::host::HostApi`]. This module keeps
//! the connection state machine: creating a socket with its pollable,
//! starting a connect, registering the pollable with the reactor, and
//! finishing the connect once the reactor reports readiness.

use vstd::prelude::*;
use crate::engine::Reactor;
use crate::host::HostApi;

verus! {

/// The address family a socket is created for.
#[derive(Clone, Copy, Debug, PartialEq, Eq, Structural)]
pub enum IpAddressFamily {
    Ipv4,
    Ipv6,
}

/// An IPv4 address as plain octets.
#[derive(Clone, Copy, Debug, PartialEq, Eq, Structural)]
pub struct Ipv4Address(pub u8, pub u8, pub u8, pub u8);

/// An IPv6 address as plain segments.
#[derive(Clone, Copy, Debug, PartialEq, Eq, Structural)]
pub struct Ipv6Address(
    pub u16,
    pub u16,
    pub u16,
    pub u16,
    pub u16,
    pub u16,
    pub u16,
    pub u16,
);

/// An IP address of either family.
#[derive(Clone, Copy, Debug, PartialEq, Eq, Structural)]
pub enum IpAddress {
    Ipv4(Ipv4Address),
    Ipv6(Ipv6Address),
}

/// An IPv4 socket address.
#[derive(Clone, Copy, Debug, PartialEq, Eq, Structural)]
pub struct Ipv4SocketAddress {
    pub port: u16,
    pub address: Ipv4Address,
}

/// An IPv6 socket address.
#[derive(Clone, Copy, Debug, PartialEq, Eq, Structural)]
pub struct Ipv6SocketAddress {
    pub port: u16,
    pub flow_info: u32,
    pub address: Ipv6Address,
    pub scope_id: u32,
}

/// A socket address of either family.
#[derive(Clone, Copy, Debug, PartialEq, Eq, Structural)]
pub enum IpSocketAddress {
    Ipv4(Ipv4SocketAddress),
    Ipv6(Ipv6SocketAddress),
}

/// The error codes the host's socket operations report.
#[derive(Clone, Copy, Debug, PartialEq, Eq, Structural)]
pub enum TcpErrorCode {
    Unknown,
    AccessDenied,
    NotSupported,
    InvalidArgument,
    OutOfMemory,
    Timeout,
    ConcurrencyConflict,
    NotInProgress,
    WouldBlock,
    InvalidState,
    NewSocketLimit,
    AddressNotBindable,
    AddressInUse,
    RemoteUnreachable,
    ConnectionRefused,
    ConnectionReset,
    ConnectionAborted,
    DatagramTooLarge,
    NameUnresolvable,
    TemporaryResolverFailure,
    PermanentResolverFailure,
}

/// The I/O error categories the core reports for socket failures.
#[derive(Clone, Copy, Debug, PartialEq, Eq, Structural)]
pub enum IoErrorKind {
    Other,
    PermissionDenied,
    Unsupported,
    InvalidInput,
    OutOfMemory,
    TimedOut,
    WouldBlock,
    AddrInUse,
    NotFound,
    ConnectionRefused,
    ConnectionReset,
    ConnectionAborted,
}

/// The category a host error code falls under.
pub open spec fn kind_of_code(code: TcpErrorCode) -> IoErrorKind {
    match code {
        TcpErrorCode::Unknown => IoErrorKind::Other,
        TcpErrorCode::AccessDenied => IoErrorKind::PermissionDenied,
        TcpErrorCode::NotSupported => IoErrorKind::Unsupported,
        TcpErrorCode::InvalidArgument => IoErrorKind::InvalidInput,
        TcpErrorCode::OutOfMemory => IoErrorKind::OutOfMemory,
        TcpErrorCode::Timeout => IoErrorKind::TimedOut,
        TcpErrorCode::ConcurrencyConflict => IoErrorKind::Other,
        TcpErrorCode::NotInProgress => IoErrorKind::Other,
        TcpErrorCode::WouldBlock => IoErrorKind::WouldBlock,
        TcpErrorCode::InvalidState => IoErrorKind::Other,
        TcpErrorCode::NewSocketLimit => IoErrorKind::Other,
        TcpErrorCode::AddressNotBindable => IoErrorKind::Other,
        TcpErrorCode::AddressInUse => IoErrorKind::AddrInUse,
        TcpErrorCode::RemoteUnreachable => IoErrorKind::NotFound,
        TcpErrorCode::ConnectionRefused => IoErrorKind::ConnectionRefused,
        TcpErrorCode::ConnectionReset => IoErrorKind::ConnectionReset,
        TcpErrorCode::ConnectionAborted => IoErrorKind::ConnectionAborted,
        TcpErrorCode::DatagramTooLarge => IoErrorKind::Other,
        TcpErrorCode::NameUnresolvable => IoErrorKind::Other,
        TcpErrorCode::TemporaryResolverFailure => IoErrorKind::Other,
        TcpErrorCode::PermanentResolverFailure => IoErrorKind::Other,
    }
}

impl TcpErrorCode {
    /// The I/O error category of this host error code.
    pub fn kind(&self) -> (k: IoErrorKind)
        ensures
            k == kind_of_code(*self),
    {
        match self {
            TcpErrorCode::Unknown => IoErrorKind::Other,
            TcpErrorCode::AccessDenied => IoErrorKind::PermissionDenied,
            TcpErrorCode::NotSupported => IoErrorKind::Unsupported,
            TcpErrorCode::InvalidArgument => IoErrorKind::InvalidInput,
            TcpErrorCode::OutOfMemory => IoErrorKind::OutOfMemory,
            TcpErrorCode::Timeout => IoErrorKind::TimedOut,
            TcpErrorCode::ConcurrencyConflict => IoErrorKind::Other,
            TcpErrorCode::NotInProgress => IoErrorKind::Other,
            TcpErrorCode::WouldBlock => IoErrorKind::WouldBlock,
            TcpErrorCode::InvalidState => IoErrorKind::Other,
            TcpErrorCode::NewSocketLimit => IoErrorKind::Other,
            TcpErrorCode::AddressNotBindable => IoErrorKind::Other,
            TcpErrorCode::AddressInUse => IoErrorKind::AddrInUse,
            TcpErrorCode::RemoteUnreachable => IoErrorKind::NotFound,
            TcpErrorCode::ConnectionRefused => IoErrorKind::ConnectionRefused,
            TcpErrorCode::ConnectionReset => IoErrorKind::ConnectionReset,
            TcpErrorCode::ConnectionAborted => IoErrorKind::ConnectionAborted,
            TcpErrorCode::DatagramTooLarge => IoErrorKind::Other,
            TcpErrorCode::NameUnresolvable => IoErrorKind::Other,
            TcpErrorCode::TemporaryResolverFailure => IoErrorKind::Other,
            TcpErrorCode::PermanentResolverFailure => IoErrorKind::Other,
        }
    }
}

/// An I/O error: the category the core assigns, with the host's code
/// kept as payload.
#[derive(Clone, Copy, Debug, PartialEq, Eq, Structural)]
pub struct IoError {
    pub kind: IoErrorKind,
    pub code: TcpErrorCode,
}

impl IoError {
    /// Wraps a host error code, assigning its category.
    pub fn from_code(code: TcpErrorCode) -> (e: IoError)
        ensures
            e.kind == kind_of_code(code),
            e.code == code,
    {
        IoError { kind: code.kind(), code }
    }
}

/// The socket address for connecting `address`:`port`: an IPv6 address
/// carries zero scope id and flow info.
pub open spec fn socket_address_spec(address: IpAddress, port: u16) -> IpSocketAddress {
    match address {
        IpAddress::Ipv4(a) => IpSocketAddress::Ipv4(Ipv4SocketAddress { port, address: a }),
        IpAddress::Ipv6(a) => IpSocketAddress::Ipv6(
            Ipv6SocketAddress { port, flow_info: 0, address: a, scope_id: 0 },
        ),
    }
}

/// Builds the socket address for connecting `address`:`port`.
pub fn socket_address_of(address: IpAddress, port: u16) -> (sa: IpSocketAddress)
    ensures
        sa == socket_address_spec(address, port),
{
    match address {
        IpAddress::Ipv4(a) => IpSocketAddress::Ipv4(Ipv4SocketAddress { port, address: a }),
        IpAddress::Ipv6(a) => IpSocketAddress::Ipv6(
            Ipv6SocketAddress { port, flow_info: 0, address: a, scope_id: 0 },
        ),
    }
}

/// A TCP stream: the host-owned socket with its pollable and, once
/// connected, its input and output stream handles.
pub struct TcpStream {
    socket: u64,
    pollable: u64,
    input_stream: Option<u64>,
    output_stream: Option<u64>,
    network: u64,
}

impl TcpStream {
    /// The socket handle.
    pub closed spec fn socket_spec(self) -> u64 {
        self.socket
    }

    /// The pollable handle the reactor subscribes to.
    pub closed spec fn pollable_spec(self) -> u64 {
        self.pollable
    }

    /// The input stream handle, once connected.
    pub closed spec fn input_spec(self) -> Option<u64> {
        self.input_stream
    }

    /// The output stream handle, once connected.
    pub closed spec fn output_spec(self) -> Option<u64> {
        self.output_stream
    }

    /// The network instance handle.
    pub closed spec fn network_spec(self) -> u64 {
        self.network
    }

    /// A fresh IPv4 stream.
    pub fn new_ipv4<H: HostApi>(host: &mut H) -> (r: Result<TcpStream, IoError>)
        ensures
            r matches Ok(s) ==> s.input_spec() is None && s.output_spec() is None,
            r matches Err(e) ==> e.kind == kind_of_code(e.code),
    {
        Self::new_inner(host, IpAddressFamily::Ipv4)
    }

    /// A fresh IPv6 stream.
    pub fn new_ipv6<H: HostApi>(host: &mut H) -> (r: Result<TcpStream, IoError>)
        ensures
            r matches Ok(s) ==> s.input_spec() is None && s.output_spec() is None,
            r matches Err(e) ==> e.kind == kind_of_code(e.code),
    {
        Self::new_inner(host, IpAddressFamily::Ipv6)
    }

    /// Creates a socket of the given family, subscribes its pollable,
    /// and binds the network instance. A host refusal is reported under
    /// the matching I/O error category.
    pub fn new_inner<H: HostApi>(host: &mut H, address: IpAddressFamily) -> (r: Result<
        TcpStream,
        IoError,
    >)
        ensures
            r matches Ok(s) ==> s.input_spec() is None && s.output_spec() is None,
            r matches Err(e) ==> e.kind == kind_of_code(e.code),
    {
        let socket = match host.create_tcp_socket(address) {
            Ok(s) => s,
            Err(code) => {
                return Err(IoError::from_code(code));
            },
        };
        let pollable = host.subscribe_socket(socket);
        let network = host.instance_network();
        Ok(
            TcpStream {
                socket,
                pollable,
                input_stream: None,
                output_stream: None,
                network,
            },
        )
    }

    /// Asks the host to start connecting the socket to
    /// `address`:`port`. A host refusal is reported under the matching
    /// I/O error category.
    pub fn start_connect<H: HostApi>(&self, host: &mut H, address: IpAddress, port: u16) -> (r:
        Result<(), IoError>)
        ensures
            r matches Err(e) ==> e.kind == kind_of_code(e.code),
    {
        let sa = socket_address_of(address, port);
        match host.start_connect(self.socket, self.network, sa) {
            Ok(_) => Ok(()),
            Err(code) => Err(IoError::from_code(code)),
        }
    }

    /// Finishes a started connect: takes the stream handles from the
    /// host and stores each side that is not already set.
    pub fn finish_connecting<H: HostApi>(&mut self, host: &mut H) -> (r: Result<(), IoError>)
        ensures
            final(self).socket_spec() == old(self).socket_spec(),
            final(self).pollable_spec() == old(self).pollable_spec(),
            final(self).network_spec() == old(self).network_spec(),
            r matches Ok(_) ==> final(self).input_spec() is Some && final(self).output_spec()
                is Some,
            r matches Err(e) ==> e.kind == kind_of_code(e.code) && final(self).input_spec()
                == old(self).input_spec() && final(self).output_spec() == old(
                self,
            ).output_spec(),
            old(self).input_spec() is Some ==> final(self).input_spec() == old(self).input_spec(),
            old(self).output_spec() is Some ==> final(self).output_spec() == old(
                self,
            ).output_spec(),
    {
        let streams = match host.finish_connect(self.socket) {
            Ok(io) => io,
            Err(code) => {
                return Err(IoError::from_code(code));
            },
        };
        if self.input_stream.is_none() {
            self.input_stream = Some(streams.0);
        }
        if self.output_stream.is_none() {
            self.output_stream = Some(streams.1);
        }
        Ok(())
    }

    /// Begins an asynchronous connect to `address`:`port`: the
    /// returned future drives the connection against this stream.
    pub fn connect(rt: &mut Reactor, address: IpAddress, port: u16) -> (f: ConnectionFuture)
        requires
            old(rt).wf(),
        ensures
            final(rt).wf(),
            f.key_spec() == old(rt).next_id_spec(),
            f.address_spec() == address,
            f.port_spec() == port,
            !f.started_spec(),
            final(rt).next_id_spec() == if old(rt).next_id_spec() < u64::MAX {
                (old(rt).next_id_spec() + 1) as u64
            } else {
                u64::MAX
            },
            final(rt).pending_view() == old(rt).pending_view(),
            final(rt).finished_view() == old(rt).finished_view(),
            final(rt).timers_view() == old(rt).timers_view(),
            final(rt).slots_view() == old(rt).slots_view(),
            final(rt).ready_view() == old(rt).ready_view(),
    {
        ConnectionFuture { async_key: rt.fresh_key(), address, port, started: false }
    }
}

/// The future behind [`TcpStream::connect`]: starts the connect and
/// registers the stream's pollable on its first poll, and finishes the
/// connect once the reactor reports the pollable ready.
pub struct ConnectionFuture {
    async_key: u64,
    address: IpAddress,
    port: u16,
    started: bool,
}

impl ConnectionFuture {
    /// The reactor name the connection registers under.
    pub closed spec fn key_spec(self) -> u64 {
        self.async_key
    }

    /// The address being connected to.
    pub closed spec fn address_spec(self) -> IpAddress {
        self.address
    }

    /// The port being connected to.
    pub closed spec fn port_spec(self) -> u16 {
        self.port
    }

    /// Whether the first poll has started the connect and registered
    /// the pollable.
    pub closed spec fn started_spec(self) -> bool {
        self.started
    }

    /// One poll of the connection under the owning task's waker.
    ///
    /// The first poll starts the connect and registers the stream's
    /// pollable under this future's name; later polls complete —
    /// finishing the connect — exactly when the batched host poll has
    /// reported the pollable ready. A connected result is only ever
    /// returned after that readiness was consumed.
    pub fn poll<H: HostApi>(
        &mut self,
        stream: &mut TcpStream,
        rt: &mut Reactor,
        host: &mut H,
        waker: u64,
    ) -> (r: Option<Result<(), IoError>>)
        requires
            old(rt).wf(),
        ensures
            final(rt).wf(),
            final(rt).sched_extends(*old(rt)),
            final(rt).timers_view() == old(rt).timers_view(),
            final(rt).slots_view() == old(rt).slots_view(),
            final(rt).ready_view() == old(rt).ready_view(),
            final(rt).next_id_spec() == old(rt).next_id_spec(),
            final(self).key_spec() == old(self).key_spec(),
            final(self).address_spec() == old(self).address_spec(),
            final(self).port_spec() == old(self).port_spec(),
            old(self).started_spec() ==> final(self).started_spec(),
            r matches Some(res) ==> (res matches Ok(_) ==> old(self).started_spec() && old(
                rt,
            ).finished_view().contains_key(old(self).key_spec())),
            old(self).started_spec() ==> {
                &&& final(rt).pending_view() == old(rt).pending_view()
                &&& final(rt).finished_view() == old(rt).finished_view().remove(
                    old(self).key_spec(),
                )
                &&& (r is Some <==> old(rt).finished_view().contains_key(old(self).key_spec()))
            },
            !old(self).started_spec() ==> {
                &&& final(rt).finished_view() == old(rt).finished_view()
                &&& (final(self).started_spec() ==> final(rt).pending_view() == old(
                    rt,
                ).pending_view().insert(
                    old(self).key_spec(),
                    (old(stream).pollable_spec(), waker),
                ))
                &&& (!final(self).started_spec() ==> final(rt).pending_view() == old(
                    rt,
                ).pending_view())
                &&& (r matches Some(res) ==> res is Err)
                &&& (r is None ==> (final(self).started_spec() <==> !old(
                    rt,
                ).pending_view().contains_key(old(self).key_spec())))
            },
    {
        if !self.started {
            match stream.start_connect(host, self.address, self.port) {
                Ok(_) => {},
                Err(e) => {
                    proof {
                        crate::engine::lemma_sched_extends_refl(*rt);
                    }
                    return Some(Err(e));
                },
            }
            match rt.register(self.async_key, (stream.pollable(), waker)) {
                Ok(_) => {
                    self.started = true;
                },
                Err(_) => {},
            }
            proof {
                crate::engine::lemma_sched_extends_refl(*rt);
            }
            None
        } else {
            let ready = rt.check_ready(self.async_key);
            proof {
                crate::engine::lemma_sched_extends_refl(*rt);
            }
            if ready {
                match stream.finish_connecting(host) {
                    Ok(_) => Some(Ok(())),
                    Err(e) => Some(Err(e)),
                }
            } else {
                None
            }
        }
    }
}

impl TcpStream {
    /// The pollable handle the reactor subscribes to.
    pub fn pollable(&self) -> (p: u64)
        ensures
            p == self.pollable_spec(),
    {
        self.pollable
    }
}

} // verus!
