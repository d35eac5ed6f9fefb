//! Engine runtime and datapath of a user-space RPC service plane.
//!
//! Applications reach a transport through a pipeline of engines that are
//! stepped cooperatively and connected by queues. This crate holds the
//! rules of that pipeline, each with the contract it is proved against:
//!
//! - [`engine`] and [`model`]: the head engine, which faces the
//!   application, and what one step of it does; [`backoff`], its spin
//!   budget; [`upgrade`], its state as a versioned blob.
//! - [`customer`]: the channel between an application and its head engine.
//! - [`queue`] and [`node`]: the edges between engines.
//! - [`addr_map`]: carrying addresses between the two views of shared
//!   memory.
//! - [`graph`] and [`topology`]: the graph of a subscription, its
//!   construction from a description, and its rewiring for addons.
//! - [`daemon`], [`registry`], [`ids`], [`mr`] and [`schedule`]: the control
//!   plane: subscriptions, plugins, identifiers, shared regions and
//!   scheduling groups.
//! - [`interface`], [`cmd`], [`dp`], [`control`], [`config`] and [`error`]:
//!   the records that travel between the parts.
//! - [`bench`]: the pacing of a benchmark client; [`text`]: decimal
//!   notation.

pub mod addr_map;
pub mod backoff;
pub mod bench;
pub mod cmd;
pub mod config;
pub mod control;
pub mod customer;
pub mod daemon;
pub mod dp;
pub mod engine;
pub mod error;
pub mod graph;
pub mod ids;
pub mod interface;
pub mod model;
pub mod mr;
pub mod node;
pub mod queue;
pub mod registry;
pub mod schedule;
pub mod text;
pub mod topology;
pub mod upgrade;
