//! The counters that the classifier keeps: one record per flow, per watched
//! address and per port.
//!
//! Counters never decrease. Where an addition would pass the largest value the
//! counter can hold, the counter stays at that value.

use vstd::prelude::*;

verus! {

/// IP protocol number of TCP.
pub const PROTOCOL_TCP: u8 = 6;

/// IP protocol number of UDP.
pub const PROTOCOL_UDP: u8 = 17;

/// The watched address is the packet's source.
pub const DIRECTION_INBOUND: u8 = 0;

/// The watched address is the packet's destination.
pub const DIRECTION_OUTBOUND: u8 = 1;

/// `total`, held at the largest value of a 64-bit counter.
pub open spec fn capped_u64(total: int) -> u64 {
    if total > u64::MAX {
        u64::MAX
    } else {
        total as u64
    }
}

/// `total`, held at the largest value of a 32-bit counter.
pub open spec fn capped_u32(total: int) -> u32 {
    if total > u32::MAX {
        u32::MAX
    } else {
        total as u32
    }
}

/// Capping a running total and then adding more gives the capped sum: a
/// chain of saturating additions equals one cap over the exact total.
pub proof fn lemma_capped_u64_chain(a: int, b: int)
    requires
        0 <= a,
        0 <= b,
    ensures
        capped_u64(capped_u64(a) + b) == capped_u64(a + b),
        capped_u64(a + capped_u64(b)) == capped_u64(a + b),
{
}

/// One line of the packet log: an address and what was done with its packet.
#[derive(Clone, Copy, Debug, PartialEq, Eq, Structural)]
pub struct PacketLog {
    pub ipv4_address: u32,
    pub action: u32,
}

/// Packet and byte counts in both directions.
#[derive(Clone, Copy, Debug, PartialEq, Eq, Structural)]
pub struct TrafficStats {
    pub inbound_packets: u64,
    pub inbound_bytes: u64,
    pub outbound_packets: u64,
    pub outbound_bytes: u64,
}

impl TrafficStats {
    pub fn new() -> (r: Self)
        ensures
            r == (TrafficStats {
                inbound_packets: 0,
                inbound_bytes: 0,
                outbound_packets: 0,
                outbound_bytes: 0,
            }),
    {
        TrafficStats { inbound_packets: 0, inbound_bytes: 0, outbound_packets: 0, outbound_bytes: 0 }
    }

    /// Packets of both directions together.
    pub open spec fn packet_sum(&self) -> int {
        self.inbound_packets + self.outbound_packets
    }

    /// Bytes of both directions together.
    pub open spec fn byte_sum(&self) -> int {
        self.inbound_bytes + self.outbound_bytes
    }

    pub fn total_packets(&self) -> (r: u64)
        ensures
            r == capped_u64(self.packet_sum()),
    {
        self.inbound_packets.saturating_add(self.outbound_packets)
    }

    pub fn total_bytes(&self) -> (r: u64)
        ensures
            r == capped_u64(self.byte_sum()),
    {
        self.inbound_bytes.saturating_add(self.outbound_bytes)
    }
}

/// The identity of a flow bucket: address, port, protocol and direction.
#[derive(Clone, Copy, Debug, Hash, PartialEq, Eq, Structural)]
pub struct FlowKey {
    pub ip: u32,
    pub port: u16,
    /// 6 for TCP, 17 for UDP.
    pub protocol: u8,
    /// 0 for inbound, 1 for outbound.
    pub direction: u8,
}

/// The counters of one flow bucket.
#[derive(Clone, Copy, Debug, PartialEq, Eq, Structural)]
pub struct EnhancedTrafficStats {
    pub inbound_packets: u64,
    pub inbound_bytes: u64,
    pub outbound_packets: u64,
    pub outbound_bytes: u64,
    pub protocol: u8,
    /// Monotonic clock reading, in nanoseconds, of the last packet counted.
    pub last_seen: u64,
    /// Packets counted into this bucket: one per observation.
    pub connection_count: u32,
}

impl EnhancedTrafficStats {
    pub fn new(protocol: u8) -> (r: Self)
        ensures
            r == (EnhancedTrafficStats {
                inbound_packets: 0,
                inbound_bytes: 0,
                outbound_packets: 0,
                outbound_bytes: 0,
                protocol,
                last_seen: 0,
                connection_count: 0,
            }),
    {
        EnhancedTrafficStats {
            inbound_packets: 0,
            inbound_bytes: 0,
            outbound_packets: 0,
            outbound_bytes: 0,
            protocol,
            last_seen: 0,
            connection_count: 0,
        }
    }

    /// Packets of both directions together.
    pub open spec fn packet_sum(&self) -> int {
        self.inbound_packets + self.outbound_packets
    }

    /// Bytes of both directions together.
    pub open spec fn byte_sum(&self) -> int {
        self.inbound_bytes + self.outbound_bytes
    }

    pub fn total_packets(&self) -> (r: u64)
        ensures
            r == capped_u64(self.packet_sum()),
    {
        self.inbound_packets.saturating_add(self.outbound_packets)
    }

    pub fn total_bytes(&self) -> (r: u64)
        ensures
            r == capped_u64(self.byte_sum()),
    {
        self.inbound_bytes.saturating_add(self.outbound_bytes)
    }
}

/// Per-address counters, split by protocol, both directions together.
#[derive(Clone, Copy, Debug, PartialEq, Eq, Structural)]
pub struct ProtocolStats {
    /// TCP packets counted for the address: one per observation.
    pub tcp_flows: u32,
    /// UDP packets counted for the address: one per observation.
    pub udp_flows: u32,
    pub tcp_bytes: u64,
    pub udp_bytes: u64,
    pub tcp_packets: u64,
    pub udp_packets: u64,
}

impl ProtocolStats {
    pub fn new() -> (r: Self)
        ensures
            r == (ProtocolStats {
                tcp_flows: 0,
                udp_flows: 0,
                tcp_bytes: 0,
                udp_bytes: 0,
                tcp_packets: 0,
                udp_packets: 0,
            }),
    {
        ProtocolStats {
            tcp_flows: 0,
            udp_flows: 0,
            tcp_bytes: 0,
            udp_bytes: 0,
            tcp_packets: 0,
            udp_packets: 0,
        }
    }

    pub fn total_flows(&self) -> (r: u32)
        ensures
            r == capped_u32(self.tcp_flows + self.udp_flows),
    {
        self.tcp_flows.saturating_add(self.udp_flows)
    }

    pub fn total_bytes(&self) -> (r: u64)
        ensures
            r == capped_u64(self.tcp_bytes + self.udp_bytes),
    {
        self.tcp_bytes.saturating_add(self.udp_bytes)
    }

    pub fn total_packets(&self) -> (r: u64)
        ensures
            r == capped_u64(self.tcp_packets + self.udp_packets),
    {
        self.tcp_packets.saturating_add(self.udp_packets)
    }
}

/// Per-port counters, over all addresses.
#[derive(Clone, Copy, Debug, PartialEq, Eq, Structural)]
pub struct PortStats {
    pub port: u16,
    /// Protocol of the first packet counted on the port.
    pub protocol: u8,
    pub total_bytes: u64,
    pub total_packets: u64,
    /// Packets counted on the port: one per observation.
    pub active_connections: u32,
    /// Monotonic clock reading, in nanoseconds, of the last packet counted.
    pub last_active: u64,
}

impl PortStats {
    pub fn new(port: u16, protocol: u8) -> (r: Self)
        ensures
            r == (PortStats {
                port,
                protocol,
                total_bytes: 0,
                total_packets: 0,
                active_connections: 0,
                last_active: 0,
            }),
    {
        PortStats {
            port,
            protocol,
            total_bytes: 0,
            total_packets: 0,
            active_connections: 0,
            last_active: 0,
        }
    }
}

} // verus!
