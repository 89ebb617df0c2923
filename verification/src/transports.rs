//! The two ways to reach a device.
use vstd::prelude::*;
use crate::error::ErrorKind;

verus! {

/// The kind of socket that a session talks through, with the port of the
/// device.
#[derive(Debug, Clone, Copy, PartialEq, Eq, Structural)]
pub enum Transport {
    /// A stream socket.
    TCP(u16),
    /// A datagram socket.
    UDP(u16),
}

impl Transport {
    /// The port of the device.
    pub open spec fn spec_port(self) -> u16 {
        match self {
            Transport::TCP(port) => port,
            Transport::UDP(port) => port,
        }
    }

    /// The port of the device.
    #[verifier::when_used_as_spec(spec_port)]
    pub fn port(self) -> (port: u16)
        ensures
            port == self.spec_port(),
    {
        match self {
            Transport::TCP(port) => port,
            Transport::UDP(port) => port,
        }
    }

    /// The failure that a read of no bytes stands for: `BadTcpRead` on a
    /// stream socket, `BadUdpRead` on a datagram socket.
    pub fn error(&self) -> (e: ErrorKind)
        ensures
            match self {
                Transport::TCP(_) => e is BadTcpRead,
                Transport::UDP(_) => e is BadUdpRead,
            },
    {
        match self {
            Transport::TCP(_) => ErrorKind::BadTcpRead,
            Transport::UDP(_) => ErrorKind::BadUdpRead,
        }
    }
}

} // verus!
