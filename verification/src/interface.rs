//! Plain values shared by every part of the service plane: handles,
//! scheduling modes, message metadata and the user-visible error.

use vstd::prelude::*;

verus! {

/// Opaque identifier minted by the daemon for a kernel object.
#[derive(Clone, Copy, Debug, PartialEq, Eq, Structural, Hash)]
pub struct Handle(pub u64);

/// How the engines of a subscription are spread over runners.
#[derive(Clone, Copy, Debug, PartialEq, Eq, Structural, Hash)]
pub enum SchedulingMode {
    /// One scheduling group per engine.
    Dedicated,
    /// One scheduling group per subscription.
    Compact,
    /// Engines are handed to runners in turn.
    Spread,
}

/// Name of a plugin-provided engine kind.
#[derive(Clone, Debug)]
pub struct EngineType(pub String);

/// Direction of an RPC message.
#[derive(Clone, Copy, Debug, PartialEq, Eq, Structural, Hash)]
pub enum RpcMsgType {
    Request,
    Response,
}

/// What identifies a message on the datapath.
#[derive(Clone, Copy, Debug, PartialEq, Eq, Structural, Hash)]
pub struct MessageMeta {
    pub conn_id: Handle,
    pub func_id: u32,
    pub call_id: u64,
    pub len: u64,
    pub msg_type: RpcMsgType,
}

/// A type-erased message: its metadata and the address of its bytes in
/// shared memory.
#[derive(Clone, Copy, Debug, PartialEq, Eq, Structural, Hash)]
pub struct MessageTemplateErased {
    pub meta: MessageMeta,
    pub shmptr: u64,
}

/// Key and base address under which a peer reaches a registered region.
#[derive(Clone, Copy, Debug, PartialEq, Eq, Structural, Hash)]
pub struct RemoteKey {
    pub rkey: u32,
    pub addr: u64,
}

/// A memory region as it is reported to the application.
#[derive(Clone, Copy, Debug, PartialEq, Eq, Structural, Hash)]
pub struct ReturnedMr {
    pub handle: Handle,
    pub rkey: RemoteKey,
    pub vaddr: u64,
    pub len: u64,
}

/// A network endpoint.
#[derive(Clone, Copy, Debug, PartialEq, Eq, Structural, Hash)]
pub enum SockAddr {
    /// An IPv4 address and a port.
    V4(u32, u16),
    /// An IPv6 address and a port.
    V6(u128, u16),
}

/// The error that reaches the application.
#[derive(Clone, Debug)]
pub enum InterfaceError {
    Generic(String),
}

/// Outcome of one cooperative step of an engine.
#[derive(Clone, Copy, Debug, PartialEq, Eq, Structural, Hash)]
pub enum EngineStatus {
    /// Progress may be possible later.
    Continue,
    /// The engine has terminated normally.
    Complete,
}

} // verus!
