//! Roles of the endpoints and errors of the library.

use vstd::prelude::*;

verus! {

/// How far a receiver is in the process of joining a flexicast flow.
#[derive(Clone, Copy, Debug, PartialEq, Eq, Structural)]
pub enum McClientStatus {
    /// The receiver has not heard of a flexicast flow.
    Unaware,
    /// The receiver knows a flexicast flow and has not joined it.
    AwareUnjoined,
    /// The receiver leaves a flexicast flow for another one.
    Changing,
    /// The receiver has joined the flow. The value tells whether it listens to
    /// the flexicast path.
    ListenMcPath(bool),
}

/// Role of an endpoint.
#[derive(Clone, Copy, Debug, PartialEq, Eq, Structural)]
pub enum McRole {
    /// The source of a flexicast flow.
    ServerFlexicast,
    /// The server end of the unicast connection with one receiver.
    ServerUnicast(McClientStatus),
    /// A receiver.
    Client(McClientStatus),
    /// No role yet.
    Undefined,
}

/// Errors of the flexicast extension.
#[derive(Clone, Copy, Debug, PartialEq, Eq, Structural)]
pub enum FcError {
    /// Flexicast is disabled on this connection.
    McDisabled,
    /// The operation does not exist for this role.
    McInvalidRole(McRole),
    /// The flexicast path does not exist.
    McPath,
    /// The flexicast flow is not reliable.
    McReliableDisabled,
}

/// Errors of a connection.
#[derive(Clone, Copy, Debug, PartialEq, Eq, Structural)]
pub enum Error {
    /// There is no more work to do.
    Done,
    /// The final size of the stream does not allow the operation.
    FinalSize,
    /// The operation cannot be completed in the current state.
    InvalidState,
    /// The stream is in an invalid state.
    InvalidStreamState(u64),
    /// Too many streams are open.
    StreamLimit,
    /// The peer stopped the stream with this error code.
    StreamStopped(u64),
    /// Error of the flexicast extension.
    Flexicast(FcError),
}

/// Result of an operation on a connection.
pub type Result<T> = core::result::Result<T, Error>;

} // verus!
