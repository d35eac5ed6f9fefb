//! Requests that the daemon accepts on its control socket, and its
//! responses.

use vstd::prelude::*;
use crate::interface::{InterfaceError, SchedulingMode};

verus! {

/// Description for loading or upgrading a plugin.
#[derive(Clone, Debug)]
pub struct PluginDescriptor {
    /// Name of the plugin; one of the engine types that it provides.
    pub name: String,
    /// Where the plugin's artifact lies.
    pub lib_path: String,
    /// Where the plugin's configuration file lies, if it has one.
    pub config_path: Option<String>,
    /// The plugin's configuration, if it is given in place.
    pub config_string: Option<String>,
}

/// Request for upgrading plugins.
#[derive(Clone, Debug)]
pub struct UpgradeRequest {
    /// The plugins to upgrade.
    pub plugins: Vec<PluginDescriptor>,
    /// Whether they are modules or addons.
    pub ty: PluginType,
    /// Whether to drain the queues between dump and restore.
    pub flush: bool,
    /// Whether to suspend every engine of an affected subscription.
    pub detach_subscription: bool,
}

/// The two kinds of plugin.
#[derive(Clone, Copy, Debug, PartialEq, Eq, Structural, Hash)]
pub enum PluginType {
    /// Provides engine types.
    Module,
    /// An engine that can be inserted into a live graph.
    Addon,
}

/// Request for attaching an addon to a subscription or detaching it.
#[derive(Clone, Debug)]
pub struct AddonRequest {
    /// Target user process.
    pub pid: i32,
    /// Target service subscription.
    pub sid: u64,
    /// Engine type of the addon.
    pub addon_engine: String,
    /// Replacements for the edges of the sending direction. Each names
    /// two engines and an index for either: the output of that index of the
    /// first engine is connected to the input of that index of the second.
    pub tx_channels_replacements: Vec<(String, String, usize, usize)>,
    /// Replacements for the edges of the receiving direction, in the same
    /// form.
    pub rx_channels_replacements: Vec<(String, String, usize, usize)>,
    /// The scheduling group that the addon joins, given by its engines.
    pub group: Vec<String>,
    /// Where the addon's configuration file lies, if it has one.
    pub config_path: Option<String>,
    /// The addon's configuration, if it is given in place.
    pub config_string: Option<String>,
}

/// A request on the daemon's control socket.
#[derive(Clone, Debug)]
pub enum Request {
    /// New service subscription: scheduling mode and service name.
    NewClient(SchedulingMode, String),
    /// Opaque bytes for the engine of the given id.
    EngineRequest(u64, Vec<u8>),
    /// List all service subscriptions.
    ListSubscription,
    /// Attach an addon to a service subscription.
    AttachAddon(SchedulingMode, AddonRequest),
    /// Detach an addon from a service subscription.
    DetachAddon(AddonRequest),
    /// Upgrade modules or addons.
    Upgrade(UpgradeRequest),
}

/// What a subscription consists of.
#[derive(Clone, Debug)]
pub struct ServiceSubscriptionInfo {
    pub pid: i32,
    pub sid: u64,
    pub service: String,
    /// Id and type of each engine.
    pub engines: Vec<(u64, String)>,
    pub addons: Vec<String>,
}

/// The successful answers of the daemon.
#[derive(Clone, Debug)]
pub enum ResponseKind {
    /// Path of the subscription's own socket.
    NewClient(String),
    ListSubscription(Vec<ServiceSubscriptionInfo>),
    /// The handshake: the scheduling mode, the name of the one-shot server
    /// that passes file descriptors, and the capacities of the two rings
    /// in bytes.
    ConnectEngine { mode: SchedulingMode, one_shot_name: String, wq_cap: usize, cq_cap: usize },
}

/// An answer of the daemon.
#[derive(Debug)]
pub struct Response(pub Result<ResponseKind, InterfaceError>);

} // verus!
