//! Commands that an application sends to its head engine over the control
//! socket, and the completions that answer them.

use vstd::prelude::*;
use crate::interface::{Handle, InterfaceError, ReturnedMr, SockAddr};

verus! {

/// The transport that carries a subscription's messages.
#[derive(Clone, Copy, Debug, PartialEq, Eq, Structural, Hash)]
pub enum TransportType {
    Rdma,
    Socket,
}

/// A command of the application.
#[derive(Clone, Debug)]
pub enum Command {
    /// Choose the transport; allowed once.
    SetTransport(TransportType),
    /// Allocate a shared region of so many bytes.
    AllocShm(usize),
    /// Connect to a remote endpoint.
    Connect(SockAddr),
    /// Listen on a local endpoint.
    Bind(SockAddr),
    /// Report where the application has mapped regions: for each, its
    /// handle and the address of the mapping.
    NewMappedAddrs(Vec<(Handle, u64)>),
}

/// What a command, or an event of the transport, resulted in.
///
/// The variants named `Internal` travel from the transport engine to the
/// head engine; the others reach the application.
#[derive(Clone, Debug)]
pub enum CompletionKind {
    SetTransport,
    AllocShm(ReturnedMr),
    /// The region, and the descriptor of the memory file behind it.
    AllocShmInternal(ReturnedMr, i32),
    Connect(Handle, Vec<ReturnedMr>),
    /// The connection, its receive regions, and their descriptors.
    ConnectInternal(Handle, Vec<ReturnedMr>, Vec<i32>),
    Bind(Handle),
    NewConnection(Handle, Vec<ReturnedMr>),
    /// An accepted connection, its receive regions, and their descriptors.
    NewConnectionInternal(Handle, Vec<ReturnedMr>, Vec<i32>),
    NewMappedAddrs,
    /// For each region: its address in the daemon, its address in the
    /// application, and its length.
    NewMappedAddrsInternal(Vec<(u64, u64, u64)>),
}

/// The answer to a command.
#[derive(Debug)]
pub struct Completion(pub Result<CompletionKind, InterfaceError>);

/// A command that was handed to the transport engine and is not answered
/// yet.
#[derive(Clone, Copy, Debug, PartialEq, Eq, Structural, Hash)]
pub enum Pending {
    AllocShm,
    Connect,
    Bind,
    NewMappedAddrs,
}

} // verus!
