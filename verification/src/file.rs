//! Open-file and socket entries of a process's file-descriptor table.
//!
//! File handles and socket handles belong to external subsystems (the file
//! system and the network driver); the table only stores them. They are
//! held as plain values: a handle id plus the state this core itself
//! remembers (open-mode bits, endpoints, the listening flag).

use vstd::prelude::*;

verus! {

/// Open-mode option bits of a file handle.
#[derive(Clone, Copy, PartialEq, Eq, Structural)]
pub struct OpenOptions {
    pub read: bool,
    pub write: bool,
    pub append: bool,
}

/// A handle to an open file: the backing file's id and the mode it was
/// opened with.
#[derive(Clone, Copy, PartialEq, Eq, Structural)]
pub struct FileHandle {
    pub file: usize,
    pub options: OpenOptions,
}

/// A transport-layer endpoint remembered for a socket.
#[derive(Clone, Copy)]
pub struct IpEndpoint {
    pub addr: [u8; 16],
    pub port: u16,
}

/// State kept for a TCP socket.
#[derive(Clone, Copy)]
pub struct TcpSocketState {
    /// Local endpoint remembered for bind.
    pub local_endpoint: Option<IpEndpoint>,
    pub is_listening: bool,
}

/// State kept for a UDP socket.
#[derive(Clone, Copy)]
pub struct UdpSocketState {
    /// Remote endpoint remembered for connect.
    pub remote_endpoint: Option<IpEndpoint>,
}

/// Kind tag of a socket, with the per-kind state this core remembers.
#[derive(Clone, Copy)]
pub enum SocketType {
    Raw,
    Tcp(TcpSocketState),
    Udp(UdpSocketState),
    Icmp,
}

/// Id of a socket within the network driver's socket set.
#[derive(Clone, Copy, PartialEq, Eq, Structural)]
pub struct SocketHandle {
    pub id: usize,
}

/// A socket entry: the driver's handle plus its kind tag.
#[derive(Clone, Copy)]
pub struct SocketWrapper {
    pub handle: SocketHandle,
    pub socket_type: SocketType,
}

/// One entry of the file-descriptor table: an open file or a socket.
#[derive(Clone, Copy)]
pub enum FileLike {
    File(FileHandle),
    Socket(SocketWrapper),
}

impl FileLike {
    /// A short name of the entry's kind, as a descriptor listing shows it.
    pub fn kind_name(&self) -> (r: &'static str)
        ensures
            r@ == match self {
                FileLike::File(_) => "File"@,
                FileLike::Socket(w) => match w.socket_type {
                    SocketType::Raw => "RawSocket"@,
                    SocketType::Tcp(_) => "TcpSocket"@,
                    SocketType::Udp(_) => "UdpSocket"@,
                    SocketType::Icmp => "IcmpSocket"@,
                },
            },
    {
        match self {
            FileLike::File(_) => "File",
            FileLike::Socket(w) => match w.socket_type {
                SocketType::Raw => "RawSocket",
                SocketType::Tcp(_) => "TcpSocket",
                SocketType::Udp(_) => "UdpSocket",
                SocketType::Icmp => "IcmpSocket",
            },
        }
    }
}

} // verus!
