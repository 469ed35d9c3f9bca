//! The packet classifier and the tables it counts into.
//!
//! A frame is read, its source and destination are each tested against the
//! watch-list, and for each side that matches the flow, the address and the
//! port are counted: inbound where the source matched, outbound where the
//! destination did. The classifier only observes: every frame it can read
//! is passed on.
//!
//! One update is a read of the old record, a new record made from it, and a
//! write back. The tables here have one writer at a time. Where several
//! writers share a table without a lock, two of them can read the same old
//! record and the later write then drops the earlier count: what is proved
//! here holds of each update taken alone.

use std::collections::HashSet;
use vstd::prelude::*;
use crate::packet::{parse_packet, parse_packet_spec, PacketError, PacketInfo};
use crate::stats::{
    capped_u32,
    capped_u64,
    EnhancedTrafficStats,
    FlowKey,
    PortStats,
    ProtocolStats,
    DIRECTION_INBOUND,
    DIRECTION_OUTBOUND,
    PROTOCOL_TCP,
    PROTOCOL_UDP,
};
use crate::table::{
    accepts,
    lemma_position,
    lemma_put_lookup,
    lookup,
    position,
    put,
    BoundedTable,
    Slot,
};

verus! {

broadcast use vstd::std_specs::hash::group_hash_axioms;

/// Slots of the flow table.
pub const MAX_FLOW_ENTRIES: usize = 8192;

/// Slots of the per-address protocol table.
pub const MAX_PROTOCOL_ENTRIES: usize = 1024;

/// Slots of the port table.
pub const MAX_PORT_ENTRIES: usize = 1024;

/// Addresses that the watch-list can hold.
pub const MAX_TARGET_ENTRIES: usize = 1024;

/// The verdict for a frame that could not be read.
pub const XDP_ABORTED: u32 = 0;

/// The verdict that lets a frame through.
pub const XDP_PASS: u32 = 2;

/// The watched addresses: a set with a fixed largest size.
pub struct WatchList {
    addrs: HashSet<u32>,
    capacity: usize,
}

impl WatchList {
    /// The list is within its capacity.
    pub closed spec fn wf(&self) -> bool {
        &&& self.addrs@.finite()
        &&& self.addrs@.len() <= self.capacity
    }

    /// The watched addresses.
    pub closed spec fn view(&self) -> Set<u32> {
        self.addrs@
    }

    /// The largest number of addresses the list takes.
    pub closed spec fn capacity_spec(&self) -> nat {
        self.capacity as nat
    }

    /// A well-formed list is finite and within its capacity.
    pub proof fn lemma_wf(&self)
        requires
            self.wf(),
        ensures
            self@.finite(),
            self@.len() <= self.capacity_spec(),
    {
    }

    /// An empty list that takes up to `capacity` addresses.
    pub fn new(capacity: usize) -> (w: Self)
        ensures
            w.wf(),
            w@ == Set::<u32>::empty(),
            w.capacity_spec() == capacity,
    {
        WatchList { addrs: HashSet::new(), capacity }
    }

    /// The number of watched addresses.
    pub fn len(&self) -> (n: usize)
        ensures
            n == self@.len(),
    {
        self.addrs.len()
    }

    /// Whether `addr` is watched.
    pub fn contains(&self, addr: u32) -> (r: bool)
        ensures
            r == self@.contains(addr),
    {
        self.addrs.contains(&addr)
    }

    /// Puts `addr` on the list and says whether it is on it afterwards: an
    /// address that is new to a full list is left out.
    pub fn insert(&mut self, addr: u32) -> (watched: bool)
        requires
            old(self).wf(),
        ensures
            final(self).wf(),
            final(self).capacity_spec() == old(self).capacity_spec(),
            watched == (old(self)@.contains(addr) || old(self)@.len() < old(self).capacity_spec()),
            final(self)@ == if watched {
                old(self)@.insert(addr)
            } else {
                old(self)@
            },
    {
        if self.addrs.contains(&addr) {
            assert(self.addrs@.insert(addr) =~= self.addrs@);
            true
        } else if self.addrs.len() < self.capacity {
            self.addrs.insert(addr);
            true
        } else {
            false
        }
    }

    /// Takes `addr` off the list and says whether it was on it.
    pub fn remove(&mut self, addr: u32) -> (was_watched: bool)
        requires
            old(self).wf(),
        ensures
            final(self).wf(),
            final(self).capacity_spec() == old(self).capacity_spec(),
            was_watched == old(self)@.contains(addr),
            final(self)@ == old(self)@.remove(addr),
    {
        self.addrs.remove(&addr)
    }
}

/// The record of a flow after one more packet of `bytes` bytes seen at
/// `timestamp`. A first packet starts the record with this packet alone, in
/// the packet's direction. A later packet adds to the packet's direction and
/// leaves the other direction and the protocol as they were. Any direction
/// but inbound counts as outbound.
pub open spec fn flow_stats_after(
    existing: Option<EnhancedTrafficStats>,
    protocol: u8,
    direction: u8,
    bytes: u64,
    timestamp: u64,
) -> EnhancedTrafficStats {
    let inbound = direction == DIRECTION_INBOUND;
    match existing {
        Some(s) => EnhancedTrafficStats {
            inbound_packets: if inbound {
                capped_u64(s.inbound_packets + 1)
            } else {
                s.inbound_packets
            },
            inbound_bytes: if inbound {
                capped_u64(s.inbound_bytes + bytes)
            } else {
                s.inbound_bytes
            },
            outbound_packets: if inbound {
                s.outbound_packets
            } else {
                capped_u64(s.outbound_packets + 1)
            },
            outbound_bytes: if inbound {
                s.outbound_bytes
            } else {
                capped_u64(s.outbound_bytes + bytes)
            },
            protocol: s.protocol,
            last_seen: timestamp,
            connection_count: capped_u32(s.connection_count + 1),
        },
        None => EnhancedTrafficStats {
            inbound_packets: if inbound {
                1
            } else {
                0
            },
            inbound_bytes: if inbound {
                bytes
            } else {
                0
            },
            outbound_packets: if inbound {
                0
            } else {
                1
            },
            outbound_bytes: if inbound {
                0
            } else {
                bytes
            },
            protocol,
            last_seen: timestamp,
            connection_count: 1,
        },
    }
}

/// The record of an address after `packets` more packets of `bytes` bytes
/// in all, or `None` where the protocol is neither TCP nor UDP and nothing
/// is to be written. The flow counter of the protocol goes up by one.
pub open spec fn protocol_stats_after(
    existing: Option<ProtocolStats>,
    protocol: u8,
    bytes: u64,
    packets: u64,
) -> Option<ProtocolStats> {
    let s = match existing {
        Some(s) => s,
        None => ProtocolStats {
            tcp_flows: 0,
            udp_flows: 0,
            tcp_bytes: 0,
            udp_bytes: 0,
            tcp_packets: 0,
            udp_packets: 0,
        },
    };
    if protocol == PROTOCOL_TCP {
        Some(
            ProtocolStats {
                tcp_flows: capped_u32(s.tcp_flows + 1),
                tcp_bytes: capped_u64(s.tcp_bytes + bytes),
                tcp_packets: capped_u64(s.tcp_packets + packets),
                ..s
            },
        )
    } else if protocol == PROTOCOL_UDP {
        Some(
            ProtocolStats {
                udp_flows: capped_u32(s.udp_flows + 1),
                udp_bytes: capped_u64(s.udp_bytes + bytes),
                udp_packets: capped_u64(s.udp_packets + packets),
                ..s
            },
        )
    } else {
        None
    }
}

/// The record of a port after one more packet of `bytes` bytes seen at
/// `timestamp`. The protocol is that of the port's first packet.
pub open spec fn port_stats_after(
    existing: Option<PortStats>,
    port: u16,
    protocol: u8,
    bytes: u64,
    timestamp: u64,
) -> PortStats {
    match existing {
        Some(s) => PortStats {
            total_bytes: capped_u64(s.total_bytes + bytes),
            total_packets: capped_u64(s.total_packets + 1),
            active_connections: capped_u32(s.active_connections + 1),
            last_active: timestamp,
            ..s
        },
        None => PortStats {
            port,
            protocol,
            total_bytes: bytes,
            total_packets: 1,
            active_connections: 1,
            last_active: timestamp,
        },
    }
}

/// The flow record to write back for one more packet.
pub fn next_flow_stats(
    existing: Option<EnhancedTrafficStats>,
    protocol: u8,
    direction: u8,
    bytes: u64,
    timestamp: u64,
) -> (r: EnhancedTrafficStats)
    ensures
        r == flow_stats_after(existing, protocol, direction, bytes, timestamp),
{
    let inbound = direction == DIRECTION_INBOUND;
    match existing {
        Some(s) => {
            let mut stats = s;
            if inbound {
                stats.inbound_packets = s.inbound_packets.saturating_add(1);
                stats.inbound_bytes = s.inbound_bytes.saturating_add(bytes);
            } else {
                stats.outbound_packets = s.outbound_packets.saturating_add(1);
                stats.outbound_bytes = s.outbound_bytes.saturating_add(bytes);
            }
            stats.last_seen = timestamp;
            stats.connection_count = s.connection_count.saturating_add(1);
            stats
        },
        None => EnhancedTrafficStats {
            inbound_packets: if inbound {
                1
            } else {
                0
            },
            inbound_bytes: if inbound {
                bytes
            } else {
                0
            },
            outbound_packets: if inbound {
                0
            } else {
                1
            },
            outbound_bytes: if inbound {
                0
            } else {
                bytes
            },
            protocol,
            last_seen: timestamp,
            connection_count: 1,
        },
    }
}

/// The address record to write back for more packets, if any is to be
/// written.
pub fn next_protocol_stats(
    existing: Option<ProtocolStats>,
    protocol: u8,
    bytes: u64,
    packets: u64,
) -> (r: Option<ProtocolStats>)
    ensures
        r == protocol_stats_after(existing, protocol, bytes, packets),
{
    let mut stats = match existing {
        Some(s) => s,
        None => ProtocolStats::new(),
    };
    if protocol == PROTOCOL_TCP {
        stats.tcp_flows = stats.tcp_flows.saturating_add(1);
        stats.tcp_bytes = stats.tcp_bytes.saturating_add(bytes);
        stats.tcp_packets = stats.tcp_packets.saturating_add(packets);
        Some(stats)
    } else if protocol == PROTOCOL_UDP {
        stats.udp_flows = stats.udp_flows.saturating_add(1);
        stats.udp_bytes = stats.udp_bytes.saturating_add(bytes);
        stats.udp_packets = stats.udp_packets.saturating_add(packets);
        Some(stats)
    } else {
        None
    }
}

/// The port record to write back for one more packet.
pub fn next_port_stats(
    existing: Option<PortStats>,
    port: u16,
    protocol: u8,
    bytes: u64,
    timestamp: u64,
) -> (r: PortStats)
    ensures
        r == port_stats_after(existing, port, protocol, bytes, timestamp),
{
    match existing {
        Some(s) => {
            let mut stats = s;
            stats.total_bytes = s.total_bytes.saturating_add(bytes);
            stats.total_packets = s.total_packets.saturating_add(1);
            stats.active_connections = s.active_connections.saturating_add(1);
            stats.last_active = timestamp;
            stats
        },
        None => PortStats {
            port,
            protocol,
            total_bytes: bytes,
            total_packets: 1,
            active_connections: 1,
            last_active: timestamp,
        },
    }
}

/// The key of the bucket that one side of a packet is counted into.
pub open spec fn side_key(ip: u32, port: u16, protocol: u8, direction: u8) -> FlowKey {
    FlowKey { ip, port, protocol, direction }
}

/// The flow table after one side of a packet is counted.
pub open spec fn flows_after_side(
    flows: Seq<Slot<FlowKey, EnhancedTrafficStats>>,
    capacity: nat,
    ip: u32,
    port: u16,
    protocol: u8,
    direction: u8,
    bytes: u64,
    timestamp: u64,
) -> Seq<Slot<FlowKey, EnhancedTrafficStats>> {
    let key = side_key(ip, port, protocol, direction);
    put(
        flows,
        capacity,
        key,
        flow_stats_after(lookup(flows, key), protocol, direction, bytes, timestamp),
    )
}

/// The address table after one side of a packet is counted.
pub open spec fn protocols_after_side(
    protocols: Seq<Slot<u32, ProtocolStats>>,
    capacity: nat,
    ip: u32,
    protocol: u8,
    bytes: u64,
    packets: u64,
) -> Seq<Slot<u32, ProtocolStats>> {
    match protocol_stats_after(lookup(protocols, ip), protocol, bytes, packets) {
        Some(stats) => put(protocols, capacity, ip, stats),
        None => protocols,
    }
}

/// The port table after one side of a packet is counted.
pub open spec fn ports_after_side(
    ports: Seq<Slot<u16, PortStats>>,
    capacity: nat,
    port: u16,
    protocol: u8,
    bytes: u64,
    timestamp: u64,
) -> Seq<Slot<u16, PortStats>> {
    put(ports, capacity, port, port_stats_after(lookup(ports, port), port, protocol, bytes, timestamp))
}

/// The flow table after a packet: the source side is counted as inbound
/// where the source is watched, then the destination side as outbound where
/// the destination is watched.
pub open spec fn flows_after_packet(
    flows: Seq<Slot<FlowKey, EnhancedTrafficStats>>,
    capacity: nat,
    targets: Set<u32>,
    p: PacketInfo,
    now: u64,
) -> Seq<Slot<FlowKey, EnhancedTrafficStats>> {
    let first = if targets.contains(p.source_addr) {
        flows_after_side(
            flows,
            capacity,
            p.source_addr,
            p.source_port,
            p.protocol,
            DIRECTION_INBOUND,
            p.packet_len,
            now,
        )
    } else {
        flows
    };
    if targets.contains(p.dest_addr) {
        flows_after_side(
            first,
            capacity,
            p.dest_addr,
            p.dest_port,
            p.protocol,
            DIRECTION_OUTBOUND,
            p.packet_len,
            now,
        )
    } else {
        first
    }
}

/// The address table after a packet: each watched side counts one packet.
pub open spec fn protocols_after_packet(
    protocols: Seq<Slot<u32, ProtocolStats>>,
    capacity: nat,
    targets: Set<u32>,
    p: PacketInfo,
) -> Seq<Slot<u32, ProtocolStats>> {
    let first = if targets.contains(p.source_addr) {
        protocols_after_side(protocols, capacity, p.source_addr, p.protocol, p.packet_len, 1)
    } else {
        protocols
    };
    if targets.contains(p.dest_addr) {
        protocols_after_side(first, capacity, p.dest_addr, p.protocol, p.packet_len, 1)
    } else {
        first
    }
}

/// The port table after a packet: each watched side counts its own port.
pub open spec fn ports_after_packet(
    ports: Seq<Slot<u16, PortStats>>,
    capacity: nat,
    targets: Set<u32>,
    p: PacketInfo,
    now: u64,
) -> Seq<Slot<u16, PortStats>> {
    let first = if targets.contains(p.source_addr) {
        ports_after_side(ports, capacity, p.source_port, p.protocol, p.packet_len, now)
    } else {
        ports
    };
    if targets.contains(p.dest_addr) {
        ports_after_side(first, capacity, p.dest_port, p.protocol, p.packet_len, now)
    } else {
        first
    }
}

/// Every record of a flow table has the protocol of the flow it is held
/// under.
pub open spec fn flows_carry_protocol(flows: Seq<Slot<FlowKey, EnhancedTrafficStats>>) -> bool {
    forall|i: int| 0 <= i < flows.len() ==> (#[trigger] flows[i]).value.protocol == flows[i].key.protocol
}

/// Every record of a port table carries the port it is held under.
pub open spec fn ports_carry_keys(ports: Seq<Slot<u16, PortStats>>) -> bool {
    forall|i: int| 0 <= i < ports.len() ==> (#[trigger] ports[i]).value.port == ports[i].key
}

/// Counting one side of a packet keeps the protocol of every flow record
/// that of its flow.
pub proof fn lemma_flows_keep_protocol(
    flows: Seq<Slot<FlowKey, EnhancedTrafficStats>>,
    capacity: nat,
    ip: u32,
    port: u16,
    protocol: u8,
    direction: u8,
    bytes: u64,
    timestamp: u64,
)
    requires
        flows_carry_protocol(flows),
    ensures
        flows_carry_protocol(
            flows_after_side(flows, capacity, ip, port, protocol, direction, bytes, timestamp),
        ),
{
    let key = side_key(ip, port, protocol, direction);
    let after = flows_after_side(flows, capacity, ip, port, protocol, direction, bytes, timestamp);
    lemma_position(flows, key);
    assert forall|i: int| 0 <= i < after.len() implies (#[trigger] after[i]).value.protocol
        == after[i].key.protocol by {
        if i < flows.len() && after[i] == flows[i] {
            assert(flows[i].value.protocol == flows[i].key.protocol);
        }
    }
}

/// Counting one side of a packet keeps every port record under the port
/// it carries.
pub proof fn lemma_ports_keep_keys(
    ports: Seq<Slot<u16, PortStats>>,
    capacity: nat,
    port: u16,
    protocol: u8,
    bytes: u64,
    timestamp: u64,
)
    requires
        ports_carry_keys(ports),
    ensures
        ports_carry_keys(ports_after_side(ports, capacity, port, protocol, bytes, timestamp)),
{
    let after = ports_after_side(ports, capacity, port, protocol, bytes, timestamp);
    lemma_position(ports, port);
    assert forall|i: int| 0 <= i < after.len() implies (#[trigger] after[i]).value.port
        == after[i].key by {
        if i < ports.len() && after[i] == ports[i] {
            assert(ports[i].value.port == ports[i].key);
        }
    }
}

/// What a packet does to every bucket of the flow table. The bucket of a
/// watched source gets the packet as inbound and the bucket of a watched
/// destination gets it as outbound, each where the table takes it; the two
/// buckets differ, so one packet between two watched hosts is counted in
/// both. Every other bucket is as it was.
pub proof fn lemma_packet_flow_buckets(
    flows: Seq<Slot<FlowKey, EnhancedTrafficStats>>,
    capacity: nat,
    targets: Set<u32>,
    p: PacketInfo,
    now: u64,
    k: FlowKey,
)
    ensures
        ({
            let key_in = side_key(p.source_addr, p.source_port, p.protocol, DIRECTION_INBOUND);
            let key_out = side_key(p.dest_addr, p.dest_port, p.protocol, DIRECTION_OUTBOUND);
            let first = if targets.contains(p.source_addr) {
                flows_after_side(
                    flows,
                    capacity,
                    p.source_addr,
                    p.source_port,
                    p.protocol,
                    DIRECTION_INBOUND,
                    p.packet_len,
                    now,
                )
            } else {
                flows
            };
            let after = lookup(flows_after_packet(flows, capacity, targets, p, now), k);
            &&& key_in != key_out
            &&& if k == key_in && targets.contains(p.source_addr) && accepts(flows, capacity, k) {
                after == Some(
                    flow_stats_after(
                        lookup(flows, k),
                        p.protocol,
                        DIRECTION_INBOUND,
                        p.packet_len,
                        now,
                    ),
                )
            } else if k == key_out && targets.contains(p.dest_addr) && accepts(first, capacity, k) {
                after == Some(
                    flow_stats_after(
                        lookup(flows, k),
                        p.protocol,
                        DIRECTION_OUTBOUND,
                        p.packet_len,
                        now,
                    ),
                )
            } else {
                after == lookup(flows, k)
            }
        }),
{
    let key_in = side_key(p.source_addr, p.source_port, p.protocol, DIRECTION_INBOUND);
    let key_out = side_key(p.dest_addr, p.dest_port, p.protocol, DIRECTION_OUTBOUND);
    let v_in = flow_stats_after(
        lookup(flows, key_in),
        p.protocol,
        DIRECTION_INBOUND,
        p.packet_len,
        now,
    );
    let first = if targets.contains(p.source_addr) {
        put(flows, capacity, key_in, v_in)
    } else {
        flows
    };
    let v_out = flow_stats_after(
        lookup(first, key_out),
        p.protocol,
        DIRECTION_OUTBOUND,
        p.packet_len,
        now,
    );
    lemma_put_lookup(flows, capacity, key_in, v_in, k);
    lemma_put_lookup(flows, capacity, key_in, v_in, key_out);
    lemma_put_lookup(first, capacity, key_out, v_out, k);
}

/// A packet that a bucket takes raises the counters of the packet's
/// direction by one packet and by the packet's bytes, and leaves the other
/// direction alone. This holds while the raised counters have room; a
/// counter at its largest value stays there.
pub proof fn lemma_one_direction_counted(
    existing: Option<EnhancedTrafficStats>,
    protocol: u8,
    direction: u8,
    bytes: u64,
    timestamp: u64,
)
    requires
        existing matches Some(s) ==> if direction == DIRECTION_INBOUND {
            s.inbound_packets + 1 <= u64::MAX && s.inbound_bytes + bytes <= u64::MAX
        } else {
            s.outbound_packets + 1 <= u64::MAX && s.outbound_bytes + bytes <= u64::MAX
        },
    ensures
        ({
            let before = match existing {
                Some(s) => s,
                None => EnhancedTrafficStats {
                    inbound_packets: 0,
                    inbound_bytes: 0,
                    outbound_packets: 0,
                    outbound_bytes: 0,
                    protocol,
                    last_seen: 0,
                    connection_count: 0,
                },
            };
            let after = flow_stats_after(existing, protocol, direction, bytes, timestamp);
            if direction == DIRECTION_INBOUND {
                &&& after.inbound_packets == before.inbound_packets + 1
                &&& after.inbound_bytes == before.inbound_bytes + bytes
                &&& after.outbound_packets == before.outbound_packets
                &&& after.outbound_bytes == before.outbound_bytes
            } else {
                &&& after.outbound_packets == before.outbound_packets + 1
                &&& after.outbound_bytes == before.outbound_bytes + bytes
                &&& after.inbound_packets == before.inbound_packets
                &&& after.inbound_bytes == before.inbound_bytes
            }
        }),
{
}

/// No counter of a flow record goes down when a packet is counted.
pub proof fn lemma_flow_counters_never_decrease(
    s: EnhancedTrafficStats,
    protocol: u8,
    direction: u8,
    bytes: u64,
    timestamp: u64,
)
    ensures
        ({
            let after = flow_stats_after(Some(s), protocol, direction, bytes, timestamp);
            &&& after.inbound_packets >= s.inbound_packets
            &&& after.inbound_bytes >= s.inbound_bytes
            &&& after.outbound_packets >= s.outbound_packets
            &&& after.outbound_bytes >= s.outbound_bytes
            &&& after.connection_count >= s.connection_count
        }),
{
}

/// The totals of a flow record are the sums of its two directions wherever
/// the sums fit a counter.
pub proof fn lemma_totals_are_sums(s: EnhancedTrafficStats)
    ensures
        s.byte_sum() <= u64::MAX ==> capped_u64(s.byte_sum()) == s.inbound_bytes + s.outbound_bytes,
        s.packet_sum() <= u64::MAX ==> capped_u64(s.packet_sum()) == s.inbound_packets
            + s.outbound_packets,
{
}

/// A flow that is new to a full flow table is not counted: the table is
/// after the packet's side what it was before.
pub proof fn lemma_full_flow_table_unchanged(
    flows: Seq<Slot<FlowKey, EnhancedTrafficStats>>,
    capacity: nat,
    ip: u32,
    port: u16,
    protocol: u8,
    direction: u8,
    bytes: u64,
    timestamp: u64,
)
    requires
        flows.len() >= capacity,
        position(flows, side_key(ip, port, protocol, direction)) is None,
    ensures
        flows_after_side(flows, capacity, ip, port, protocol, direction, bytes, timestamp) == flows,
{
}

/// The watch-list and the three tables of counters.
pub struct FlowAggregationStore {
    pub targets: WatchList,
    pub flows: BoundedTable<FlowKey, EnhancedTrafficStats>,
    pub protocols: BoundedTable<u32, ProtocolStats>,
    pub ports: BoundedTable<u16, PortStats>,
}

impl FlowAggregationStore {
    /// The list and the tables are well-formed, every flow record has
    /// the protocol of its flow, and every port record carries its port.
    pub open spec fn wf(&self) -> bool {
        &&& self.targets.wf()
        &&& self.flows.wf()
        &&& self.protocols.wf()
        &&& self.ports.wf()
        &&& flows_carry_protocol(self.flows.entries())
        &&& ports_carry_keys(self.ports.entries())
    }

    /// Whether `other` has this store's watch-list and capacities.
    pub open spec fn same_frame(&self, other: &Self) -> bool {
        &&& self.targets@ == other.targets@
        &&& self.targets.capacity_spec() == other.targets.capacity_spec()
        &&& self.flows.capacity_spec() == other.flows.capacity_spec()
        &&& self.protocols.capacity_spec() == other.protocols.capacity_spec()
        &&& self.ports.capacity_spec() == other.ports.capacity_spec()
    }

    /// Whether `other` holds the same counters in the same slots.
    pub open spec fn same_counters(&self, other: &Self) -> bool {
        &&& self.flows.entries() == other.flows.entries()
        &&& self.protocols.entries() == other.protocols.entries()
        &&& self.ports.entries() == other.ports.entries()
    }

    /// An empty store: 8192 flow slots, 1024 slots for addresses, for ports
    /// and for watched addresses.
    pub fn new() -> (s: Self)
        ensures
            s.wf(),
            s.targets@ == Set::<u32>::empty(),
            s.targets.capacity_spec() == MAX_TARGET_ENTRIES,
            s.flows.entries().len() == 0,
            s.flows.capacity_spec() == MAX_FLOW_ENTRIES,
            s.protocols.entries().len() == 0,
            s.protocols.capacity_spec() == MAX_PROTOCOL_ENTRIES,
            s.ports.entries().len() == 0,
            s.ports.capacity_spec() == MAX_PORT_ENTRIES,
    {
        FlowAggregationStore::with_capacities(
            MAX_TARGET_ENTRIES,
            MAX_FLOW_ENTRIES,
            MAX_PROTOCOL_ENTRIES,
            MAX_PORT_ENTRIES,
        )
    }

    /// An empty store with the capacities given.
    pub fn with_capacities(targets: usize, flows: usize, protocols: usize, ports: usize) -> (s:
        Self)
        ensures
            s.wf(),
            s.targets@ == Set::<u32>::empty(),
            s.targets.capacity_spec() == targets,
            s.flows.entries().len() == 0,
            s.flows.capacity_spec() == flows,
            s.protocols.entries().len() == 0,
            s.protocols.capacity_spec() == protocols,
            s.ports.entries().len() == 0,
            s.ports.capacity_spec() == ports,
    {
        FlowAggregationStore {
            targets: WatchList::new(targets),
            flows: BoundedTable::new(flows),
            protocols: BoundedTable::new(protocols),
            ports: BoundedTable::new(ports),
        }
    }

    /// Counts one packet into the bucket of its flow. A new flow for a full
    /// table is not counted.
    pub fn update_flow_stats(
        &mut self,
        ip: u32,
        port: u16,
        protocol: u8,
        direction: u8,
        bytes: u64,
        timestamp: u64,
    )
        requires
            old(self).wf(),
        ensures
            final(self).wf(),
            final(self).same_frame(old(self)),
            final(self).flows.entries() == flows_after_side(
                old(self).flows.entries(),
                old(self).flows.capacity_spec(),
                ip,
                port,
                protocol,
                direction,
                bytes,
                timestamp,
            ),
            final(self).protocols.entries() == old(self).protocols.entries(),
            final(self).ports.entries() == old(self).ports.entries(),
    {
        let key = FlowKey { ip, port, protocol, direction };
        let stats = next_flow_stats(self.flows.get(&key), protocol, direction, bytes, timestamp);
        proof {
            lemma_flows_keep_protocol(
                self.flows.entries(),
                self.flows.capacity_spec(),
                ip,
                port,
                protocol,
                direction,
                bytes,
                timestamp,
            );
        }
        let _ = self.flows.insert(key, stats);
    }

    /// Counts packets into the record of an address. A new address for a
    /// full table is not counted, nor is a protocol other than TCP and UDP.
    pub fn update_protocol_stats(&mut self, ip: u32, protocol: u8, bytes: u64, packets: u64)
        requires
            old(self).wf(),
        ensures
            final(self).wf(),
            final(self).same_frame(old(self)),
            final(self).flows.entries() == old(self).flows.entries(),
            final(self).protocols.entries() == protocols_after_side(
                old(self).protocols.entries(),
                old(self).protocols.capacity_spec(),
                ip,
                protocol,
                bytes,
                packets,
            ),
            final(self).ports.entries() == old(self).ports.entries(),
    {
        match next_protocol_stats(self.protocols.get(&ip), protocol, bytes, packets) {
            Some(stats) => {
                let _ = self.protocols.insert(ip, stats);
            },
            None => {},
        }
    }

    /// Counts one packet into the record of a port. A new port for a full
    /// table is not counted.
    pub fn update_port_stats(&mut self, port: u16, protocol: u8, bytes: u64, timestamp: u64)
        requires
            old(self).wf(),
        ensures
            final(self).wf(),
            final(self).same_frame(old(self)),
            final(self).flows.entries() == old(self).flows.entries(),
            final(self).protocols.entries() == old(self).protocols.entries(),
            final(self).ports.entries() == ports_after_side(
                old(self).ports.entries(),
                old(self).ports.capacity_spec(),
                port,
                protocol,
                bytes,
                timestamp,
            ),
    {
        let stats = next_port_stats(self.ports.get(&port), port, protocol, bytes, timestamp);
        proof {
            lemma_ports_keep_keys(
                self.ports.entries(),
                self.ports.capacity_spec(),
                port,
                protocol,
                bytes,
                timestamp,
            );
        }
        let _ = self.ports.insert(port, stats);
    }

    /// Classifies one frame read at clock reading `now`. A frame with a
    /// header that passes its end gives `OutOfBounds` and changes nothing.
    /// Every other frame gives `XDP_PASS`; one that carries TCP or UDP over
    /// IPv4 is first counted for each of its sides that is watched.
    pub fn try_xdp_firewall(&mut self, frame: &[u8], now: u64) -> (r: Result<u32, PacketError>)
        requires
            old(self).wf(),
        ensures
            final(self).wf(),
            final(self).same_frame(old(self)),
            r == match parse_packet_spec(frame@) {
                Ok(_) => Ok::<u32, PacketError>(XDP_PASS),
                Err(e) => Err(e),
            },
            match parse_packet_spec(frame@) {
                Ok(Some(p)) => {
                    &&& final(self).flows.entries() == flows_after_packet(
                        old(self).flows.entries(),
                        old(self).flows.capacity_spec(),
                        old(self).targets@,
                        p,
                        now,
                    )
                    &&& final(self).protocols.entries() == protocols_after_packet(
                        old(self).protocols.entries(),
                        old(self).protocols.capacity_spec(),
                        old(self).targets@,
                        p,
                    )
                    &&& final(self).ports.entries() == ports_after_packet(
                        old(self).ports.entries(),
                        old(self).ports.capacity_spec(),
                        old(self).targets@,
                        p,
                        now,
                    )
                },
                _ => final(self).same_counters(old(self)),
            },
    {
        let p = match parse_packet(frame)? {
            Some(p) => p,
            None => {
                return Ok(XDP_PASS);
            },
        };
        if self.targets.contains(p.source_addr) {
            self.update_flow_stats(
                p.source_addr,
                p.source_port,
                p.protocol,
                DIRECTION_INBOUND,
                p.packet_len,
                now,
            );
            self.update_protocol_stats(p.source_addr, p.protocol, p.packet_len, 1);
            self.update_port_stats(p.source_port, p.protocol, p.packet_len, now);
        }
        if self.targets.contains(p.dest_addr) {
            self.update_flow_stats(
                p.dest_addr,
                p.dest_port,
                p.protocol,
                DIRECTION_OUTBOUND,
                p.packet_len,
                now,
            );
            self.update_protocol_stats(p.dest_addr, p.protocol, p.packet_len, 1);
            self.update_port_stats(p.dest_port, p.protocol, p.packet_len, now);
        }
        Ok(XDP_PASS)
    }

    /// Classifies one frame and gives `XDP_ABORTED` for a frame that could
    /// not be read, `XDP_PASS` for every other.
    pub fn xdp_firewall(&mut self, frame: &[u8], now: u64) -> (verdict: u32)
        requires
            old(self).wf(),
        ensures
            final(self).wf(),
            final(self).same_frame(old(self)),
            verdict == if parse_packet_spec(frame@) is Ok {
                XDP_PASS
            } else {
                XDP_ABORTED
            },
            match parse_packet_spec(frame@) {
                Ok(Some(p)) => {
                    &&& final(self).flows.entries() == flows_after_packet(
                        old(self).flows.entries(),
                        old(self).flows.capacity_spec(),
                        old(self).targets@,
                        p,
                        now,
                    )
                    &&& final(self).protocols.entries() == protocols_after_packet(
                        old(self).protocols.entries(),
                        old(self).protocols.capacity_spec(),
                        old(self).targets@,
                        p,
                    )
                    &&& final(self).ports.entries() == ports_after_packet(
                        old(self).ports.entries(),
                        old(self).ports.capacity_spec(),
                        old(self).targets@,
                        p,
                        now,
                    )
                },
                _ => final(self).same_counters(old(self)),
            },
    {
        match self.try_xdp_firewall(frame, now) {
            Ok(verdict) => verdict,
            Err(_) => XDP_ABORTED,
        }
    }
}

} // verus!
