//! Error kinds of the engine runtime, by origin, and how each is worded
//! when it reaches the application.

use vstd::prelude::*;
use vstd::string::StringExecFns;
use crate::interface::InterfaceError;
use crate::queue::SendError;

verus! {

/// Failure of a lookup or an insertion in a per-subscription table.
#[derive(Clone, Copy, Debug, PartialEq, Eq, Structural, Hash)]
pub enum ResourceError {
    /// Nothing is registered under the key or address.
    NotFound,
    /// The key or address range is already taken.
    Exists,
    /// The entry is empty or runs past the end of the address space.
    Invalid,
}

/// Failure of the channel between the daemon and an application.
#[derive(Clone, Copy, Debug, PartialEq, Eq, Structural, Hash)]
pub enum IpcError {
    /// The control socket could not carry the record.
    IpcSend,
    /// A ring operation failed.
    ShmIpc,
    /// A ring's capacity invariant is violated.
    ShmRingbuf,
}

/// Why a non-blocking receive returned nothing.
#[derive(Clone, Copy, Debug, PartialEq, Eq, Structural, Hash)]
pub enum TryRecvError {
    /// Nothing is waiting.
    Empty,
    /// The peer is gone and nothing is waiting.
    Disconnected,
    /// The receive itself failed.
    Other,
}

/// Failure of the control path of an engine.
#[derive(Clone, Copy, Debug, PartialEq, Eq, Structural, Hash)]
pub enum Error {
    /// The transport of a subscription was set a second time.
    TransportType,
    /// A table of the subscription refused the operation.
    Resource(ResourceError),
    /// Receiving a command failed; the next tick tries again.
    IpcTryRecv,
    /// The customer channel failed.
    Customer(IpcError),
    /// The marshalling library could not be built.
    MarshalLibBuilder,
    /// The command was handed on; its completion comes later.
    NoResponse,
}

/// Failure of the datapath of an engine; fatal to the engine.
#[derive(Clone, Copy, Debug, PartialEq, Eq, Structural, Hash)]
pub enum DatapathError {
    /// A ring operation failed.
    ShmIpc,
    /// A ring's capacity invariant is violated.
    ShmRingbuf,
    /// A table of the subscription refused the operation.
    Resource(ResourceError),
    /// The edge to the next engine is closed.
    InternalQueueSend,
}

/// What one step of an engine can fail with.
#[derive(Clone, Copy, Debug, PartialEq, Eq, Structural, Hash)]
pub enum EngineError {
    Datapath(DatapathError),
    Control(Error),
}

impl ResourceError {
    /// The wording of this error.
    pub open spec fn text(self) -> Seq<char> {
        match self {
            ResourceError::NotFound => "Resource not found in table"@,
            ResourceError::Exists => "Resource exists in table"@,
            ResourceError::Invalid => "Resource is empty or out of range"@,
        }
    }

    pub fn message(&self) -> (s: String)
        ensures
            s@ == self.text(),
    {
        match self {
            ResourceError::NotFound => String::from_str("Resource not found in table"),
            ResourceError::Exists => String::from_str("Resource exists in table"),
            ResourceError::Invalid => String::from_str("Resource is empty or out of range"),
        }
    }
}

impl IpcError {
    /// The wording of this error.
    pub open spec fn text(self) -> Seq<char> {
        match self {
            IpcError::IpcSend => "IPC send error"@,
            IpcError::ShmIpc => "Shared memory queue error"@,
            IpcError::ShmRingbuf => "Shared memory queue ringbuf error"@,
        }
    }

    pub fn message(&self) -> (s: String)
        ensures
            s@ == self.text(),
    {
        match self {
            IpcError::IpcSend => String::from_str("IPC send error"),
            IpcError::ShmIpc => String::from_str("Shared memory queue error"),
            IpcError::ShmRingbuf => String::from_str("Shared memory queue ringbuf error"),
        }
    }
}

impl Error {
    /// The wording of this error.
    pub open spec fn text(self) -> Seq<char> {
        match self {
            Error::TransportType => "Failed to set transport type"@,
            Error::Resource(e) => "Resource error: "@ + e.text(),
            Error::IpcTryRecv => "ipc-channel TryRecvError"@,
            Error::Customer(e) => "Customer error: "@ + e.text(),
            Error::MarshalLibBuilder => "Build marshal library failed"@,
            Error::NoResponse => "No response is required"@,
        }
    }

    pub fn message(&self) -> (s: String)
        ensures
            s@ == self.text(),
    {
        match self {
            Error::TransportType => String::from_str("Failed to set transport type"),
            Error::Resource(e) => {
                let inner = e.message();
                String::from_str("Resource error: ").concat(inner.as_str())
            },
            Error::IpcTryRecv => String::from_str("ipc-channel TryRecvError"),
            Error::Customer(e) => {
                let inner = e.message();
                String::from_str("Customer error: ").concat(inner.as_str())
            },
            Error::MarshalLibBuilder => String::from_str("Build marshal library failed"),
            Error::NoResponse => String::from_str("No response is required"),
        }
    }

    /// A table's refusal as a control-path error.
    pub fn from_resource(other: ResourceError) -> (e: Error)
        ensures
            e == Error::Resource(other),
    {
        Error::Resource(other)
    }

    /// A failure of the customer channel as a control-path error.
    pub fn from_ipc(other: IpcError) -> (e: Error)
        ensures
            e == Error::Customer(other),
    {
        Error::Customer(other)
    }

    /// The form in which this error reaches the application: its wording,
    /// as a generic error.
    pub fn into_interface(self) -> (e: InterfaceError)
        ensures
            e matches InterfaceError::Generic(msg) && msg@ == self.text(),
    {
        InterfaceError::Generic(self.message())
    }
}

impl EngineError {
    /// The wording of this error.
    pub open spec fn text(self) -> Seq<char> {
        match self {
            EngineError::Datapath(e) => e.text(),
            EngineError::Control(e) => e.text(),
        }
    }

    pub fn message(&self) -> (s: String)
        ensures
            s@ == self.text(),
    {
        match self {
            EngineError::Datapath(e) => e.message(),
            EngineError::Control(e) => e.message(),
        }
    }
}

impl DatapathError {
    /// The wording of this error.
    pub open spec fn text(self) -> Seq<char> {
        match self {
            DatapathError::ShmIpc => "Shared memory queue error."@,
            DatapathError::ShmRingbuf => "Shared memory queue ringbuf error."@,
            DatapathError::Resource(e) => "Resource error: "@ + e.text(),
            DatapathError::InternalQueueSend => "Internal queue send error"@,
        }
    }

    pub fn message(&self) -> (s: String)
        ensures
            s@ == self.text(),
    {
        match self {
            DatapathError::ShmIpc => String::from_str("Shared memory queue error."),
            DatapathError::ShmRingbuf => String::from_str("Shared memory queue ringbuf error."),
            DatapathError::Resource(e) => {
                let inner = e.message();
                String::from_str("Resource error: ").concat(inner.as_str())
            },
            DatapathError::InternalQueueSend => String::from_str("Internal queue send error"),
        }
    }

    /// Whether a failure of the customer channel is one of the datapath.
    pub open spec fn is_ring_error(other: IpcError) -> bool {
        other is ShmIpc || other is ShmRingbuf
    }

    /// A ring failure of the customer channel as a datapath error.
    pub fn from_ipc(other: IpcError) -> (e: DatapathError)
        requires
            Self::is_ring_error(other),
        ensures
            other is ShmIpc ==> e == DatapathError::ShmIpc,
            other is ShmRingbuf ==> e == DatapathError::ShmRingbuf,
    {
        match other {
            IpcError::ShmIpc => DatapathError::ShmIpc,
            IpcError::ShmRingbuf => DatapathError::ShmRingbuf,
            IpcError::IpcSend => {
                proof {
                    assert(false);
                }
                DatapathError::InternalQueueSend
            },
        }
    }

    /// The refusal of a closed edge as a datapath error.
    pub fn from_send(other: SendError) -> (e: DatapathError)
        ensures
            e == DatapathError::InternalQueueSend,
    {
        DatapathError::InternalQueueSend
    }

    /// A table's refusal as a datapath error.
    pub fn from_resource(other: ResourceError) -> (e: DatapathError)
        ensures
            e == DatapathError::Resource(other),
    {
        DatapathError::Resource(other)
    }
}

} // verus!
