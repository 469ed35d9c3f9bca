//! The forms in which keys and counters are written to the record store,
//! and the conversions between them and the live counters.

use vstd::prelude::*;
use vstd::std_specs::convert::{FromSpec, FromSpecImpl};
use crate::stats::{capped_u32, capped_u64, EnhancedTrafficStats, FlowKey, PortStats, ProtocolStats};

verus! {

/// A flow key as it is stored.
#[derive(Clone, Copy, Debug, Hash, PartialEq, Eq, Structural)]
pub struct SerializableFlowKey {
    pub ip: u32,
    pub port: u16,
    pub protocol: u8,
    pub direction: u8,
}

impl From<FlowKey> for SerializableFlowKey {
    fn from(flow_key: FlowKey) -> (r: Self) {
        SerializableFlowKey {
            ip: flow_key.ip,
            port: flow_key.port,
            protocol: flow_key.protocol,
            direction: flow_key.direction,
        }
    }
}

impl FromSpecImpl<FlowKey> for SerializableFlowKey {
    open spec fn obeys_from_spec() -> bool {
        true
    }

    open spec fn from_spec(flow_key: FlowKey) -> Self {
        SerializableFlowKey {
            ip: flow_key.ip,
            port: flow_key.port,
            protocol: flow_key.protocol,
            direction: flow_key.direction,
        }
    }
}

impl From<SerializableFlowKey> for FlowKey {
    fn from(key: SerializableFlowKey) -> (r: Self) {
        FlowKey { ip: key.ip, port: key.port, protocol: key.protocol, direction: key.direction }
    }
}

impl FromSpecImpl<SerializableFlowKey> for FlowKey {
    open spec fn obeys_from_spec() -> bool {
        true
    }

    open spec fn from_spec(key: SerializableFlowKey) -> Self {
        FlowKey { ip: key.ip, port: key.port, protocol: key.protocol, direction: key.direction }
    }
}

/// The counters of a flow as they are stored.
#[derive(Clone, Copy, Debug, PartialEq, Eq, Structural)]
pub struct SerializableEnhancedTrafficStats {
    pub inbound_packets: u64,
    pub inbound_bytes: u64,
    pub outbound_packets: u64,
    pub outbound_bytes: u64,
    pub protocol: u8,
    pub last_seen: u64,
    pub connection_count: u32,
}

impl From<EnhancedTrafficStats> for SerializableEnhancedTrafficStats {
    fn from(stats: EnhancedTrafficStats) -> (r: Self) {
        SerializableEnhancedTrafficStats {
            inbound_packets: stats.inbound_packets,
            inbound_bytes: stats.inbound_bytes,
            outbound_packets: stats.outbound_packets,
            outbound_bytes: stats.outbound_bytes,
            protocol: stats.protocol,
            last_seen: stats.last_seen,
            connection_count: stats.connection_count,
        }
    }
}

impl FromSpecImpl<EnhancedTrafficStats> for SerializableEnhancedTrafficStats {
    open spec fn obeys_from_spec() -> bool {
        true
    }

    open spec fn from_spec(stats: EnhancedTrafficStats) -> Self {
        SerializableEnhancedTrafficStats {
            inbound_packets: stats.inbound_packets,
            inbound_bytes: stats.inbound_bytes,
            outbound_packets: stats.outbound_packets,
            outbound_bytes: stats.outbound_bytes,
            protocol: stats.protocol,
            last_seen: stats.last_seen,
            connection_count: stats.connection_count,
        }
    }
}

impl From<SerializableEnhancedTrafficStats> for EnhancedTrafficStats {
    fn from(stats: SerializableEnhancedTrafficStats) -> (r: Self) {
        EnhancedTrafficStats {
            inbound_packets: stats.inbound_packets,
            inbound_bytes: stats.inbound_bytes,
            outbound_packets: stats.outbound_packets,
            outbound_bytes: stats.outbound_bytes,
            protocol: stats.protocol,
            last_seen: stats.last_seen,
            connection_count: stats.connection_count,
        }
    }
}

impl FromSpecImpl<SerializableEnhancedTrafficStats> for EnhancedTrafficStats {
    open spec fn obeys_from_spec() -> bool {
        true
    }

    open spec fn from_spec(stats: SerializableEnhancedTrafficStats) -> Self {
        EnhancedTrafficStats {
            inbound_packets: stats.inbound_packets,
            inbound_bytes: stats.inbound_bytes,
            outbound_packets: stats.outbound_packets,
            outbound_bytes: stats.outbound_bytes,
            protocol: stats.protocol,
            last_seen: stats.last_seen,
            connection_count: stats.connection_count,
        }
    }
}

impl SerializableEnhancedTrafficStats {
    /// Packets of both directions together.
    pub open spec fn packet_sum(&self) -> int {
        self.inbound_packets + self.outbound_packets
    }

    /// Bytes of both directions together.
    pub open spec fn byte_sum(&self) -> int {
        self.inbound_bytes + self.outbound_bytes
    }

    pub fn total_packets(&self) -> (r: u64)
        ensures
            r == capped_u64(self.packet_sum()),
    {
        self.inbound_packets.saturating_add(self.outbound_packets)
    }

    pub fn total_bytes(&self) -> (r: u64)
        ensures
            r == capped_u64(self.byte_sum()),
    {
        self.inbound_bytes.saturating_add(self.outbound_bytes)
    }
}

/// The per-address counters as they are stored.
#[derive(Clone, Copy, Debug, PartialEq, Eq, Structural)]
pub struct SerializableProtocolStats {
    pub tcp_flows: u32,
    pub udp_flows: u32,
    pub tcp_bytes: u64,
    pub udp_bytes: u64,
    pub tcp_packets: u64,
    pub udp_packets: u64,
}

impl From<ProtocolStats> for SerializableProtocolStats {
    fn from(stats: ProtocolStats) -> (r: Self) {
        SerializableProtocolStats {
            tcp_flows: stats.tcp_flows,
            udp_flows: stats.udp_flows,
            tcp_bytes: stats.tcp_bytes,
            udp_bytes: stats.udp_bytes,
            tcp_packets: stats.tcp_packets,
            udp_packets: stats.udp_packets,
        }
    }
}

impl FromSpecImpl<ProtocolStats> for SerializableProtocolStats {
    open spec fn obeys_from_spec() -> bool {
        true
    }

    open spec fn from_spec(stats: ProtocolStats) -> Self {
        SerializableProtocolStats {
            tcp_flows: stats.tcp_flows,
            udp_flows: stats.udp_flows,
            tcp_bytes: stats.tcp_bytes,
            udp_bytes: stats.udp_bytes,
            tcp_packets: stats.tcp_packets,
            udp_packets: stats.udp_packets,
        }
    }
}

impl From<SerializableProtocolStats> for ProtocolStats {
    fn from(stats: SerializableProtocolStats) -> (r: Self) {
        ProtocolStats {
            tcp_flows: stats.tcp_flows,
            udp_flows: stats.udp_flows,
            tcp_bytes: stats.tcp_bytes,
            udp_bytes: stats.udp_bytes,
            tcp_packets: stats.tcp_packets,
            udp_packets: stats.udp_packets,
        }
    }
}

impl FromSpecImpl<SerializableProtocolStats> for ProtocolStats {
    open spec fn obeys_from_spec() -> bool {
        true
    }

    open spec fn from_spec(stats: SerializableProtocolStats) -> Self {
        ProtocolStats {
            tcp_flows: stats.tcp_flows,
            udp_flows: stats.udp_flows,
            tcp_bytes: stats.tcp_bytes,
            udp_bytes: stats.udp_bytes,
            tcp_packets: stats.tcp_packets,
            udp_packets: stats.udp_packets,
        }
    }
}

impl SerializableProtocolStats {
    pub fn total_flows(&self) -> (r: u32)
        ensures
            r == capped_u32(self.tcp_flows + self.udp_flows),
    {
        self.tcp_flows.saturating_add(self.udp_flows)
    }

    pub fn total_bytes(&self) -> (r: u64)
        ensures
            r == capped_u64(self.tcp_bytes + self.udp_bytes),
    {
        self.tcp_bytes.saturating_add(self.udp_bytes)
    }

    pub fn total_packets(&self) -> (r: u64)
        ensures
            r == capped_u64(self.tcp_packets + self.udp_packets),
    {
        self.tcp_packets.saturating_add(self.udp_packets)
    }
}

/// The per-port counters as they are stored.
#[derive(Clone, Copy, Debug, PartialEq, Eq, Structural)]
pub struct SerializablePortStats {
    pub port: u16,
    pub protocol: u8,
    pub total_bytes: u64,
    pub total_packets: u64,
    pub active_connections: u32,
    pub last_active: u64,
}

impl From<PortStats> for SerializablePortStats {
    fn from(stats: PortStats) -> (r: Self) {
        SerializablePortStats {
            port: stats.port,
            protocol: stats.protocol,
            total_bytes: stats.total_bytes,
            total_packets: stats.total_packets,
            active_connections: stats.active_connections,
            last_active: stats.last_active,
        }
    }
}

impl FromSpecImpl<PortStats> for SerializablePortStats {
    open spec fn obeys_from_spec() -> bool {
        true
    }

    open spec fn from_spec(stats: PortStats) -> Self {
        SerializablePortStats {
            port: stats.port,
            protocol: stats.protocol,
            total_bytes: stats.total_bytes,
            total_packets: stats.total_packets,
            active_connections: stats.active_connections,
            last_active: stats.last_active,
        }
    }
}

impl From<SerializablePortStats> for PortStats {
    fn from(stats: SerializablePortStats) -> (r: Self) {
        PortStats {
            port: stats.port,
            protocol: stats.protocol,
            total_bytes: stats.total_bytes,
            total_packets: stats.total_packets,
            active_connections: stats.active_connections,
            last_active: stats.last_active,
        }
    }
}

impl FromSpecImpl<SerializablePortStats> for PortStats {
    open spec fn obeys_from_spec() -> bool {
        true
    }

    open spec fn from_spec(stats: SerializablePortStats) -> Self {
        PortStats {
            port: stats.port,
            protocol: stats.protocol,
            total_bytes: stats.total_bytes,
            total_packets: stats.total_packets,
            active_connections: stats.active_connections,
            last_active: stats.last_active,
        }
    }
}

impl SerializablePortStats {
    pub fn new(port: u16, protocol: u8) -> (r: Self)
        ensures
            r == (SerializablePortStats {
                port,
                protocol,
                total_bytes: 0,
                total_packets: 0,
                active_connections: 0,
                last_active: 0,
            }),
    {
        SerializablePortStats {
            port,
            protocol,
            total_bytes: 0,
            total_packets: 0,
            active_connections: 0,
            last_active: 0,
        }
    }
}

/// Storing a flow key and reading it as a live key again gives the key.
pub proof fn lemma_flow_key_round_trip(key: FlowKey)
    ensures
        <FlowKey as FromSpec<SerializableFlowKey>>::from_spec(
            <SerializableFlowKey as FromSpec<FlowKey>>::from_spec(key),
        ) == key,
{
}

/// Storing flow counters and reading them as live counters again gives the
/// counters.
pub proof fn lemma_flow_stats_round_trip(stats: EnhancedTrafficStats)
    ensures
        <EnhancedTrafficStats as FromSpec<SerializableEnhancedTrafficStats>>::from_spec(
            <SerializableEnhancedTrafficStats as FromSpec<EnhancedTrafficStats>>::from_spec(stats),
        ) == stats,
{
}

} // verus!
