//! Node discovery and heartbeat model: what nodes broadcast about
//! themselves between request/reply exchanges.

use vstd::prelude::*;
use crate::event::{GlobalTypeId, NodeId};

verus! {

/// Observing or publishing rate, in events per second.
#[derive(Copy, Clone, Debug, PartialEq, Eq, Structural)]
pub struct Rate(pub u32);

/// Current, requested and maximum rates of one stream.
#[derive(Copy, Clone, Debug, PartialEq, Eq, Structural)]
pub struct RatesInfo {
    /// Current instant rate; congestion control may hold it below the
    /// requested one.
    pub current_rate: Rate,
    /// The rate asked for when subscribing.
    pub requested_rate: Rate,
    /// The most this stream is allowed to produce.
    pub maximum_rate: Rate,
}

/// What a node reports about one resource on request.
pub enum ResourceInfo {
    /// A borrowable resource nobody holds.
    FreeResource,
    /// A borrowable resource somebody holds.
    BorrowedResource { borrowed_by: NodeId },
    /// A closed stream.
    ClosedStream,
    /// An open stream, its holder and its rates.
    OpenStream { borrowed_by: NodeId, rates: RatesInfo },
    /// An observable property and its outgoing rates.
    StreamProperty { rates_out: RatesInfo },
}

/// Platform a node runs on.
#[derive(Copy, Clone, Debug, PartialEq, Eq, Structural)]
pub enum PlatformInfo {
    Mcu,
    Wasm,
    Mac,
    Linux,
    Windows,
    Ios,
    Android,
    Web,
    Other,
}

/// What a node announces about itself during discovery.
pub struct NodeInfo {
    /// User friendly name of the node.
    pub friendly_name: Vec<u8>,
    /// The platform this node runs on.
    pub running_on: PlatformInfo,
    /// Stable unique id of the node.
    pub uuid: u64,
    /// The registry project this node implements.
    pub registry_id: GlobalTypeId,
}

/// Health class a node reports in its heartbeat.
#[derive(Copy, Clone, Debug, PartialEq, Eq, Structural)]
pub enum NodeHealthStatus {
    /// Fully functioning node.
    Norminal,
    /// The node performs its task but has troubles.
    Warning,
    /// The node cannot perform its task.
    Failure,
}

/// Distributed periodically by all active nodes; a counter reset means the
/// node rebooted and subscriptions to it must be made again.
#[derive(Copy, Clone, Debug, PartialEq, Eq, Structural)]
pub struct HeartbeatInfo {
    pub health: NodeHealthStatus,
    pub uptime_seconds: u32,
}

/// Link-wide broadcasts outside the request/reply exchange.
pub enum XpiBroadcast {
    /// Ask all nodes to announce themselves.
    DiscoverNodes,
    /// A node announcing itself.
    NodeInfo(NodeInfo),
    /// The periodic heartbeat.
    Heartbeat(HeartbeatInfo),
}

} // verus!
