//! The analytics engine: rates, rankings and breakdowns from a snapshot of
//! the counters.
//!
//! The analyzer keeps the totals and the time of the cycle before, and
//! from them and the current totals it reports rates. Sums that would pass
//! the largest value of a counter are reported as that value. Where two
//! entries of a ranking have the same bytes, the one that stands earlier in
//! the snapshot ranks first.

use vstd::prelude::*;
use vstd::string::StringExecFns;
use crate::flow_sums::{
    distinct_codes,
    flow_count,
    flow_sum,
    flow_total,
    group_flows,
    groups,
    is_code,
    latest_seen,
    latest_seen_secs,
    lemma_distinct_codes,
    lemma_flow_sum_nonnegative,
    seen_secs,
    seen_secs_spec,
    FlowSeq,
    GroupBy,
    Measure,
    Selector,
};
use crate::ipv4::{dotted_quad_text, format_ipv4};
use crate::ranking::{is_top_ranking, ranks_before, top_picks, top_ranking};
use crate::snapshot::Snapshot;
use crate::stats::{
    capped_u32,
    capped_u64,
    lemma_capped_u64_chain,
    EnhancedTrafficStats,
    FlowKey,
    PortStats,
    ProtocolStats,
    PROTOCOL_TCP,
    PROTOCOL_UDP,
};
use crate::table::{distinct_keys, Slot};
use crate::text::{decimal_text, push_decimal_text};
use crate::time::{elapsed_seconds_spec, Timestamp};

verus! {

/// How many addresses a dashboard ranks.
pub const TOP_IPS: usize = 10;

/// How many ports a dashboard ranks.
pub const TOP_PORTS: usize = 10;

/// How many ports are listed for a ranked address.
pub const TOP_PORTS_PER_IP: usize = 5;

/// Figures of the current cycle.
#[derive(Clone, Copy, Debug, PartialEq, Eq, Structural)]
pub struct RealtimeMetrics {
    /// Bytes per second since the cycle before.
    pub total_bandwidth_bps: u64,
    /// Packets per second since the cycle before.
    pub total_packet_rate_pps: u64,
    pub active_flows: u32,
    pub active_ips: u32,
    /// Observations counted on TCP flows.
    pub tcp_connections: u32,
    /// Observations counted on UDP flows.
    pub udp_connections: u32,
    pub last_updated: Timestamp,
}

/// Bytes, packets and flows of TCP and of UDP.
#[derive(Clone, Copy, Debug, PartialEq, Eq, Structural)]
pub struct ProtocolBreakdown {
    pub tcp_bytes: u64,
    pub tcp_packets: u64,
    pub tcp_flows: u32,
    pub udp_bytes: u64,
    pub udp_packets: u64,
    pub udp_flows: u32,
}

/// The traffic of one address.
#[derive(Debug)]
pub struct IpTrafficSummary {
    /// The address in dotted text.
    pub ip: String,
    pub inbound_bytes: u64,
    pub outbound_bytes: u64,
    pub inbound_packets: u64,
    pub outbound_packets: u64,
    pub total_flows: u32,
    /// The ports of the address with the most bytes, most first.
    pub top_ports: Vec<u16>,
    pub protocols: ProtocolBreakdown,
    /// The second at which a flow of the address was last seen.
    pub last_active: i64,
}

/// The traffic of one port.
#[derive(Debug)]
pub struct PortTrafficSummary {
    pub port: u16,
    /// The service usually found on the port, where it is a well-known one.
    pub service_name: Option<String>,
    pub protocol: String,
    pub total_bytes: u64,
    pub total_packets: u64,
    pub active_connections: u32,
    /// The addresses seen on the port, in dotted text, in the order of the
    /// snapshot.
    pub associated_ips: Vec<String>,
    /// The second at which the port was last seen.
    pub last_active: i64,
}

/// The totals of one cycle.
#[derive(Clone, Copy, Debug, PartialEq, Eq, Structural)]
pub struct TimelinePoint {
    pub timestamp: Timestamp,
    pub total_bytes: u64,
    pub total_packets: u64,
    pub tcp_bytes: u64,
    pub udp_bytes: u64,
    pub active_flows: u32,
}

/// What a dashboard shows for one cycle.
#[derive(Debug)]
pub struct DashboardData {
    pub realtime_metrics: RealtimeMetrics,
    pub top_ips: Vec<IpTrafficSummary>,
    pub top_ports: Vec<PortTrafficSummary>,
    pub protocol_breakdown: ProtocolBreakdown,
    /// The point of this cycle alone.
    pub timeline_data: Vec<TimelinePoint>,
}

/// The state that rates are computed from: when the cycle before was, and
/// the totals it saw.
#[derive(Clone, Copy, Debug, PartialEq, Eq, Structural)]
pub struct TrafficAnalyzer {
    pub last_snapshot_time: Timestamp,
    pub previous_total_bytes: u64,
    pub previous_total_packets: u64,
}

/// The rate at which a total grew: the growth divided by the seconds it
/// took, these counted as at least one; and zero where the total did not
/// grow.
pub open spec fn rate_spec(current: u64, previous: u64, elapsed: int) -> int {
    if current > previous {
        (current - previous) / if elapsed >= 1 {
            elapsed
        } else {
            1
        }
    } else {
        0
    }
}

/// A rate is zero where the total did not grow, and is never more than
/// the growth.
pub proof fn lemma_rate_bounds(current: u64, previous: u64, elapsed: int)
    ensures
        current <= previous ==> rate_spec(current, previous, elapsed) == 0,
        0 <= rate_spec(current, previous, elapsed) <= current,
{
    if current > previous {
        let growth = current - previous;
        let divisor = if elapsed >= 1 {
            elapsed
        } else {
            1
        };
        assert(0 <= growth / divisor <= growth) by (nonlinear_arith)
            requires
                growth >= 0,
                divisor >= 1,
        ;
    }
}

/// The rate at which a total grew from `previous` to `current` in
/// `elapsed` seconds.
pub fn rate(current: u64, previous: u64, elapsed: u128) -> (r: u64)
    ensures
        r == rate_spec(current, previous, elapsed as int),
{
    if current > previous {
        let growth: u128 = (current - previous) as u128;
        let divisor: u128 = if elapsed >= 1 {
            elapsed
        } else {
            1
        };
        proof {
            lemma_rate_bounds(current, previous, elapsed as int);
        }
        (growth / divisor) as u64
    } else {
        0
    }
}

/// A 64-bit figure as a 32-bit one, held at the largest 32-bit value.
pub fn cap_u32(x: u64) -> (r: u32)
    ensures
        r == capped_u32(x as int),
{
    if x > 0xffff_ffff {
        u32::MAX
    } else {
        x as u32
    }
}

/// A count as a 32-bit figure, held at the largest 32-bit value.
pub fn cap_len(n: usize) -> (r: u32)
    ensures
        r == capped_u32(n as int),
{
    if n > 0xffff_ffff {
        u32::MAX
    } else {
        n as u32
    }
}

/// The figures of a cycle in which `flows` were seen, `elapsed` seconds
/// after a cycle that saw the totals `previous_bytes` and
/// `previous_packets`.
pub open spec fn realtime_metrics_spec(
    flows: FlowSeq,
    previous_bytes: u64,
    previous_packets: u64,
    elapsed: int,
    now: Timestamp,
) -> RealtimeMetrics {
    RealtimeMetrics {
        total_bandwidth_bps: rate_spec(
            capped_u64(flow_sum(flows, Selector::any(), Measure::Bytes)),
            previous_bytes,
            elapsed,
        ) as u64,
        total_packet_rate_pps: rate_spec(
            capped_u64(flow_sum(flows, Selector::any(), Measure::Packets)),
            previous_packets,
            elapsed,
        ) as u64,
        active_flows: capped_u32(flows.len() as int),
        active_ips: capped_u32(distinct_codes(flows, Selector::any(), GroupBy::Ip).len() as int),
        tcp_connections: capped_u32(
            flow_sum(flows, Selector::of_protocol(PROTOCOL_TCP), Measure::Connections),
        ),
        udp_connections: capped_u32(
            flow_sum(flows, Selector::of_protocol(PROTOCOL_UDP), Measure::Connections),
        ),
        last_updated: now,
    }
}

/// The rates of a cycle, over the exact totals of its flows. A rate is
/// zero where the total is not above the total of the cycle before, and
/// is never negative nor above the total. Where the total is above it and
/// fits a counter, the rate is the growth divided by the seconds, these
/// counted as at least one, rounded down.
pub proof fn lemma_realtime_rates(
    flows: FlowSeq,
    previous_bytes: u64,
    previous_packets: u64,
    elapsed: int,
    now: Timestamp,
)
    ensures
        ({
            let bytes = flow_sum(flows, Selector::any(), Measure::Bytes);
            let packets = flow_sum(flows, Selector::any(), Measure::Packets);
            let seconds = if elapsed >= 1 {
                elapsed
            } else {
                1
            };
            let m = realtime_metrics_spec(flows, previous_bytes, previous_packets, elapsed, now);
            &&& bytes <= previous_bytes ==> m.total_bandwidth_bps == 0
            &&& packets <= previous_packets ==> m.total_packet_rate_pps == 0
            &&& previous_bytes < bytes <= u64::MAX ==> m.total_bandwidth_bps == (bytes
                - previous_bytes) / seconds
            &&& previous_packets < packets <= u64::MAX ==> m.total_packet_rate_pps == (packets
                - previous_packets) / seconds
            &&& m.total_bandwidth_bps <= capped_u64(bytes)
            &&& m.total_packet_rate_pps <= capped_u64(packets)
        }),
{
    let bytes = flow_sum(flows, Selector::any(), Measure::Bytes);
    let packets = flow_sum(flows, Selector::any(), Measure::Packets);
    lemma_flow_sum_nonnegative(flows, Selector::any(), Measure::Bytes);
    lemma_flow_sum_nonnegative(flows, Selector::any(), Measure::Packets);
    lemma_rate_bounds(capped_u64(bytes), previous_bytes, elapsed);
    lemma_rate_bounds(capped_u64(packets), previous_packets, elapsed);
}

/// The totals of a cycle in which `flows` were seen at `now`.
pub open spec fn timeline_point_spec(flows: FlowSeq, now: Timestamp) -> TimelinePoint {
    TimelinePoint {
        timestamp: now,
        total_bytes: capped_u64(flow_sum(flows, Selector::any(), Measure::Bytes)),
        total_packets: capped_u64(flow_sum(flows, Selector::any(), Measure::Packets)),
        tcp_bytes: capped_u64(flow_sum(flows, Selector::of_protocol(PROTOCOL_TCP), Measure::Bytes)),
        udp_bytes: capped_u64(flow_sum(flows, Selector::of_protocol(PROTOCOL_UDP), Measure::Bytes)),
        active_flows: capped_u32(flows.len() as int),
    }
}

/// The breakdown by protocol of the flows that a selector takes.
pub open spec fn flow_breakdown_spec(flows: FlowSeq, sel: Selector) -> ProtocolBreakdown {
    let tcp = sel.and_protocol(PROTOCOL_TCP);
    let udp = sel.and_protocol(PROTOCOL_UDP);
    ProtocolBreakdown {
        tcp_bytes: capped_u64(flow_sum(flows, tcp, Measure::Bytes)),
        tcp_packets: capped_u64(flow_sum(flows, tcp, Measure::Packets)),
        tcp_flows: capped_u32(flow_count(flows, tcp)),
        udp_bytes: capped_u64(flow_sum(flows, udp, Measure::Bytes)),
        udp_packets: capped_u64(flow_sum(flows, udp, Measure::Packets)),
        udp_flows: capped_u32(flow_count(flows, udp)),
    }
}

/// One of the six counters of a per-address protocol record.
#[derive(Clone, Copy, Debug, PartialEq, Eq, Structural)]
pub enum ProtocolMeasure {
    TcpBytes,
    TcpPackets,
    TcpFlows,
    UdpBytes,
    UdpPackets,
    UdpFlows,
}

impl ProtocolMeasure {
    /// The counter of one record.
    pub open spec fn of(&self, s: ProtocolStats) -> int {
        match self {
            ProtocolMeasure::TcpBytes => s.tcp_bytes as int,
            ProtocolMeasure::TcpPackets => s.tcp_packets as int,
            ProtocolMeasure::TcpFlows => s.tcp_flows as int,
            ProtocolMeasure::UdpBytes => s.udp_bytes as int,
            ProtocolMeasure::UdpPackets => s.udp_packets as int,
            ProtocolMeasure::UdpFlows => s.udp_flows as int,
        }
    }

    /// The counter of one record.
    pub fn value(&self, s: &ProtocolStats) -> (r: u64)
        ensures
            r == self.of(*s),
    {
        match self {
            ProtocolMeasure::TcpBytes => s.tcp_bytes,
            ProtocolMeasure::TcpPackets => s.tcp_packets,
            ProtocolMeasure::TcpFlows => s.tcp_flows as u64,
            ProtocolMeasure::UdpBytes => s.udp_bytes,
            ProtocolMeasure::UdpPackets => s.udp_packets,
            ProtocolMeasure::UdpFlows => s.udp_flows as u64,
        }
    }
}

/// The sum of one counter over all per-address protocol records.
pub open spec fn protocol_sum(records: Seq<Slot<u32, ProtocolStats>>, m: ProtocolMeasure) -> int
    decreases records.len(),
{
    if records.len() == 0 {
        0
    } else {
        protocol_sum(records.drop_last(), m) + m.of(records.last().value)
    }
}

/// The breakdown by protocol of all per-address protocol records.
pub open spec fn protocol_breakdown_spec(
    records: Seq<Slot<u32, ProtocolStats>>,
) -> ProtocolBreakdown {
    ProtocolBreakdown {
        tcp_bytes: capped_u64(protocol_sum(records, ProtocolMeasure::TcpBytes)),
        tcp_packets: capped_u64(protocol_sum(records, ProtocolMeasure::TcpPackets)),
        tcp_flows: capped_u32(protocol_sum(records, ProtocolMeasure::TcpFlows)),
        udp_bytes: capped_u64(protocol_sum(records, ProtocolMeasure::UdpBytes)),
        udp_packets: capped_u64(protocol_sum(records, ProtocolMeasure::UdpPackets)),
        udp_flows: capped_u32(protocol_sum(records, ProtocolMeasure::UdpFlows)),
    }
}

/// A sum of record counters is never negative.
pub proof fn lemma_protocol_sum_nonnegative(
    records: Seq<Slot<u32, ProtocolStats>>,
    m: ProtocolMeasure,
)
    ensures
        protocol_sum(records, m) >= 0,
    decreases records.len(),
{
    if records.len() > 0 {
        lemma_protocol_sum_nonnegative(records.drop_last(), m);
    }
}

/// The sum of one counter over all per-address protocol records, held at
/// the largest value of a counter.
pub fn protocol_total(records: &Vec<Slot<u32, ProtocolStats>>, m: &ProtocolMeasure) -> (r: u64)
    ensures
        r == capped_u64(protocol_sum(records@, *m)),
{
    let mut total: u64 = 0;
    let mut i: usize = 0;
    while i < records.len()
        invariant
            i <= records@.len(),
            total == capped_u64(protocol_sum(records@.take(i as int), *m)),
        decreases records@.len() - i,
    {
        proof {
            assert(records@.take(i + 1).drop_last() == records@.take(i as int));
            lemma_protocol_sum_nonnegative(records@.take(i as int), *m);
            lemma_capped_u64_chain(
                protocol_sum(records@.take(i as int), *m),
                m.of(records@[i as int].value),
            );
        }
        total = total.saturating_add(m.value(&records[i].value));
        i = i + 1;
    }
    assert(records@.take(i as int) == records@);
    total
}

/// A share of a whole in hundredths of a percent, rounded down; zero where
/// the whole is zero.
pub open spec fn share_spec(part: u64, rest: u64) -> int {
    if part + rest == 0 {
        0
    } else {
        (part * 10000) / (part + rest)
    }
}

fn share(part: u64, rest: u64) -> (r: u32)
    ensures
        r == share_spec(part, rest),
        r <= 10000,
{
    let whole: u128 = (part as u128) + (rest as u128);
    if whole == 0 {
        0
    } else {
        let scaled: u128 = (part as u128) * 10000;
        assert(scaled / whole <= 10000) by (nonlinear_arith)
            requires
                whole >= 1,
                scaled <= 10000 * whole,
        ;
        (scaled / whole) as u32
    }
}

impl ProtocolBreakdown {
    /// The share of TCP in the bytes of both protocols, in hundredths of a
    /// percent; zero where there are no bytes.
    pub fn tcp_basis_points(&self) -> (r: u32)
        ensures
            r == share_spec(self.tcp_bytes, self.udp_bytes),
            r <= 10000,
    {
        share(self.tcp_bytes, self.udp_bytes)
    }

    /// The share of UDP in the bytes of both protocols, in hundredths of a
    /// percent; zero where there are no bytes.
    pub fn udp_basis_points(&self) -> (r: u32)
        ensures
            r == share_spec(self.udp_bytes, self.tcp_bytes),
            r <= 10000,
    {
        share(self.udp_bytes, self.tcp_bytes)
    }
}

/// The service usually found on a port, for the ports that have one here.
pub open spec fn service_name_spec(port: u16) -> Option<Seq<char>> {
    if port == 22 {
        Some("SSH"@)
    } else if port == 53 {
        Some("DNS"@)
    } else if port == 80 {
        Some("HTTP"@)
    } else if port == 443 {
        Some("HTTPS"@)
    } else if port == 3306 {
        Some("MySQL"@)
    } else if port == 5432 {
        Some("PostgreSQL"@)
    } else if port == 6379 {
        Some("Redis"@)
    } else if port == 3000 {
        Some("Development Server"@)
    } else if port == 8080 {
        Some("HTTP Alt"@)
    } else if port == 8443 {
        Some("HTTPS Alt"@)
    } else {
        None
    }
}

/// Whether `name` is the text `expected`, or both are absent.
pub open spec fn same_text(name: Option<String>, expected: Option<Seq<char>>) -> bool {
    match (name, expected) {
        (Some(s), Some(t)) => s@ == t,
        (None, None) => true,
        _ => false,
    }
}

/// The service usually found on `port`, or `None` for a port without one
/// here.
pub fn get_service_name(port: u16) -> (r: Option<String>)
    ensures
        same_text(r, service_name_spec(port)),
{
    if port == 22 {
        Some(String::from_str("SSH"))
    } else if port == 53 {
        Some(String::from_str("DNS"))
    } else if port == 80 {
        Some(String::from_str("HTTP"))
    } else if port == 443 {
        Some(String::from_str("HTTPS"))
    } else if port == 3306 {
        Some(String::from_str("MySQL"))
    } else if port == 5432 {
        Some(String::from_str("PostgreSQL"))
    } else if port == 6379 {
        Some(String::from_str("Redis"))
    } else if port == 3000 {
        Some(String::from_str("Development Server"))
    } else if port == 8080 {
        Some(String::from_str("HTTP Alt"))
    } else if port == 8443 {
        Some(String::from_str("HTTPS Alt"))
    } else {
        None
    }
}

/// The name of a protocol: `TCP`, `UDP`, or `Protocol` and the number.
pub open spec fn protocol_name_spec(protocol: u8) -> Seq<char> {
    if protocol == PROTOCOL_TCP {
        "TCP"@
    } else if protocol == PROTOCOL_UDP {
        "UDP"@
    } else {
        "Protocol "@ + decimal_text(protocol as nat)
    }
}

/// The name of a protocol.
pub fn get_protocol_name(protocol: u8) -> (r: String)
    ensures
        r@ == protocol_name_spec(protocol),
{
    if protocol == PROTOCOL_TCP {
        String::from_str("TCP")
    } else if protocol == PROTOCOL_UDP {
        String::from_str("UDP")
    } else {
        let mut name = String::from_str("Protocol ");
        push_decimal_text(&mut name, protocol as u64);
        name
    }
}

/// The values of slots, in the order of the slots.
pub open spec fn slot_values(g: Seq<Slot<u64, u64>>) -> Seq<u64> {
    Seq::new(g.len(), |j: int| g[j].value)
}

/// The keys of the `n` slots with the largest values, largest first.
pub open spec fn top_keys(g: Seq<Slot<u64, u64>>, n: nat) -> Seq<u64> {
    let picks = top_picks(slot_values(g), n);
    Seq::new(picks.len(), |j: int| g[picks[j] as int].key)
}

/// The keys of the `n` slots with the largest values, largest first.
pub fn ranked_keys(g: &Vec<Slot<u64, u64>>, n: usize) -> (r: Vec<u64>)
    ensures
        r@ == top_keys(g@, n as nat),
        is_top_ranking(slot_values(g@), n as nat, top_picks(slot_values(g@), n as nat)),
{
    let mut values: Vec<u64> = Vec::new();
    let mut i: usize = 0;
    while i < g.len()
        invariant
            i <= g@.len(),
            values@.len() == i,
            forall|j: int| 0 <= j < i ==> values@[j] == g@[j].value,
        decreases g@.len() - i,
    {
        values.push(g[i].value);
        i = i + 1;
    }
    assert(values@ =~= slot_values(g@));
    let picks = top_ranking(&values, n);
    let mut keys: Vec<u64> = Vec::new();
    let mut j: usize = 0;
    while j < picks.len()
        invariant
            j <= picks@.len(),
            keys@.len() == j,
            is_top_ranking(slot_values(g@), n as nat, picks@),
            forall|x: int| 0 <= x < j ==> keys@[x] == g@[picks@[x] as int].key,
        decreases picks@.len() - j,
    {
        assert(picks@[j as int] < slot_values(g@).len());
        keys.push(g[picks[j]].key);
        j = j + 1;
    }
    assert(keys@ =~= top_keys(g@, n as nat));
    keys
}

impl IpTrafficSummary {
    /// Whether `self` is the summary of address `ip` over `flows`.
    pub open spec fn summarizes(&self, flows: FlowSeq, ip: u32) -> bool {
        let sel = Selector::of_ip(ip);
        let ports = top_keys(groups(flows, sel, GroupBy::Port), TOP_PORTS_PER_IP as nat);
        &&& self.ip@ == dotted_quad_text(ip)
        &&& self.inbound_bytes == capped_u64(flow_sum(flows, sel, Measure::InboundBytes))
        &&& self.outbound_bytes == capped_u64(flow_sum(flows, sel, Measure::OutboundBytes))
        &&& self.inbound_packets == capped_u64(flow_sum(flows, sel, Measure::InboundPackets))
        &&& self.outbound_packets == capped_u64(flow_sum(flows, sel, Measure::OutboundPackets))
        &&& self.total_flows == capped_u32(flow_count(flows, sel))
        &&& self.protocols == flow_breakdown_spec(flows, sel)
        &&& self.last_active == match latest_seen(flows, sel) {
            Some(secs) => secs,
            None => 0,
        }
        &&& self.top_ports@.len() == ports.len()
        &&& forall|j: int| 0 <= j < ports.len() ==> (#[trigger] self.top_ports@[j]) as u64 == ports[j]
    }
}

impl PortTrafficSummary {
    /// Whether `self` is the summary of the port record `record` beside
    /// `flows`.
    pub open spec fn summarizes(&self, record: Slot<u16, PortStats>, flows: FlowSeq) -> bool {
        let ips = distinct_codes(flows, Selector::of_port(record.key), GroupBy::Ip);
        &&& self.port == record.key
        &&& same_text(self.service_name, service_name_spec(record.key))
        &&& self.protocol@ == protocol_name_spec(record.value.protocol)
        &&& self.total_bytes == record.value.total_bytes
        &&& self.total_packets == record.value.total_packets
        &&& self.active_connections == record.value.active_connections
        &&& self.last_active == seen_secs_spec(record.value.last_active)
        &&& self.associated_ips@.len() == ips.len()
        &&& forall|j: int|
            0 <= j < ips.len() ==> (#[trigger] self.associated_ips@[j])@ == dotted_quad_text(
                ips[j] as u32,
            )
    }
}

/// The breakdown by protocol of the flows that a selector takes.
pub fn flow_breakdown(flows: &Vec<Slot<FlowKey, EnhancedTrafficStats>>, sel: &Selector) -> (r:
    ProtocolBreakdown)
    ensures
        r == flow_breakdown_spec(flows@, *sel),
{
    let tcp = Selector { ip: sel.ip, port: sel.port, protocol: Some(PROTOCOL_TCP) };
    let udp = Selector { ip: sel.ip, port: sel.port, protocol: Some(PROTOCOL_UDP) };
    proof {
        lemma_flow_sum_nonnegative(flows@, tcp, Measure::Flows);
        lemma_flow_sum_nonnegative(flows@, udp, Measure::Flows);
    }
    ProtocolBreakdown {
        tcp_bytes: flow_total(flows, &tcp, &Measure::Bytes),
        tcp_packets: flow_total(flows, &tcp, &Measure::Packets),
        tcp_flows: cap_u32(flow_total(flows, &tcp, &Measure::Flows)),
        udp_bytes: flow_total(flows, &udp, &Measure::Bytes),
        udp_packets: flow_total(flows, &udp, &Measure::Packets),
        udp_flows: cap_u32(flow_total(flows, &udp, &Measure::Flows)),
    }
}

/// The summary of one address over `flows`.
pub fn summarize_ip(flows: &Vec<Slot<FlowKey, EnhancedTrafficStats>>, ip: u32) -> (r:
    IpTrafficSummary)
    ensures
        r.summarizes(flows@, ip),
{
    let sel = Selector { ip: Some(ip), port: None, protocol: None };
    let port_groups = group_flows(flows, &sel, &GroupBy::Port);
    let port_codes = ranked_keys(&port_groups, TOP_PORTS_PER_IP);
    let mut top_ports: Vec<u16> = Vec::new();
    let mut j: usize = 0;
    proof {
        lemma_distinct_codes(flows@, sel, GroupBy::Port);
    }
    while j < port_codes.len()
        invariant
            j <= port_codes@.len(),
            top_ports@.len() == j,
            port_groups@ == groups(flows@, sel, GroupBy::Port),
            port_codes@ == top_keys(port_groups@, TOP_PORTS_PER_IP as nat),
            is_top_ranking(
                slot_values(port_groups@),
                TOP_PORTS_PER_IP as nat,
                top_picks(slot_values(port_groups@), TOP_PORTS_PER_IP as nat),
            ),
            forall|x: int|
                0 <= x < distinct_codes(flows@, sel, GroupBy::Port).len() ==> is_code(
                    GroupBy::Port,
                    #[trigger] distinct_codes(flows@, sel, GroupBy::Port)[x],
                ),
            forall|x: int| 0 <= x < j ==> (#[trigger] top_ports@[x]) as u64 == port_codes@[x],
        decreases port_codes@.len() - j,
    {
        let ghost pick = top_picks(slot_values(port_groups@), TOP_PORTS_PER_IP as nat)[j as int];
        assert(pick < slot_values(port_groups@).len());
        assert(port_codes@[j as int] == distinct_codes(flows@, sel, GroupBy::Port)[pick as int]);
        top_ports.push(port_codes[j] as u16);
        j = j + 1;
    }
    proof {
        lemma_flow_sum_nonnegative(flows@, sel, Measure::Flows);
    }
    let last_active = match latest_seen_secs(flows, &sel) {
        Some(secs) => secs,
        None => 0,
    };
    IpTrafficSummary {
        ip: format_ipv4(ip),
        inbound_bytes: flow_total(flows, &sel, &Measure::InboundBytes),
        outbound_bytes: flow_total(flows, &sel, &Measure::OutboundBytes),
        inbound_packets: flow_total(flows, &sel, &Measure::InboundPackets),
        outbound_packets: flow_total(flows, &sel, &Measure::OutboundPackets),
        total_flows: cap_u32(flow_total(flows, &sel, &Measure::Flows)),
        top_ports,
        protocols: flow_breakdown(flows, &sel),
        last_active,
    }
}

/// The summary of one port record beside `flows`.
pub fn summarize_port(
    record: &Slot<u16, PortStats>,
    flows: &Vec<Slot<FlowKey, EnhancedTrafficStats>>,
) -> (r: PortTrafficSummary)
    ensures
        r.summarizes(*record, flows@),
{
    let sel = Selector { ip: None, port: Some(record.key), protocol: None };
    let ip_groups = group_flows(flows, &sel, &GroupBy::Ip);
    let mut associated_ips: Vec<String> = Vec::new();
    let mut j: usize = 0;
    proof {
        lemma_distinct_codes(flows@, sel, GroupBy::Ip);
    }
    while j < ip_groups.len()
        invariant
            j <= ip_groups@.len(),
            associated_ips@.len() == j,
            ip_groups@ == groups(flows@, sel, GroupBy::Ip),
            forall|x: int|
                0 <= x < distinct_codes(flows@, sel, GroupBy::Ip).len() ==> is_code(
                    GroupBy::Ip,
                    #[trigger] distinct_codes(flows@, sel, GroupBy::Ip)[x],
                ),
            forall|x: int|
                0 <= x < j ==> (#[trigger] associated_ips@[x])@ == dotted_quad_text(
                    distinct_codes(flows@, sel, GroupBy::Ip)[x] as u32,
                ),
        decreases ip_groups@.len() - j,
    {
        assert(ip_groups@[j as int].key == distinct_codes(flows@, sel, GroupBy::Ip)[j as int]);
        associated_ips.push(format_ipv4(ip_groups[j].key as u32));
        j = j + 1;
    }
    PortTrafficSummary {
        port: record.key,
        service_name: get_service_name(record.key),
        protocol: get_protocol_name(record.value.protocol),
        total_bytes: record.value.total_bytes,
        total_packets: record.value.total_packets,
        active_connections: record.value.active_connections,
        associated_ips,
        last_active: seen_secs(record.value.last_active),
    }
}

/// The addresses that a dashboard ranks for `flows`: the ten with the most
/// bytes, most first.
pub open spec fn top_ip_codes(flows: FlowSeq) -> Seq<u64> {
    top_keys(groups(flows, Selector::any(), GroupBy::Ip), TOP_IPS as nat)
}

/// Whether `summaries` are the summaries of the ranked addresses, in rank
/// order.
pub open spec fn is_top_ips(summaries: Seq<IpTrafficSummary>, flows: FlowSeq) -> bool {
    let codes = top_ip_codes(flows);
    &&& summaries.len() == codes.len()
    &&& forall|j: int|
        0 <= j < codes.len() ==> codes[j] <= u32::MAX && (#[trigger] summaries[j]).summarizes(
            flows,
            codes[j] as u32,
        )
}

/// The byte totals of port records as slots to rank: each record's place
/// and its bytes.
pub open spec fn port_places(ports: Seq<Slot<u16, PortStats>>) -> Seq<Slot<u64, u64>> {
    Seq::new(ports.len(), |j: int| Slot { key: j as u64, value: ports[j].value.total_bytes })
}

/// The places of the port records that a dashboard ranks: the ten with the
/// most bytes, most first.
pub open spec fn top_port_places(ports: Seq<Slot<u16, PortStats>>) -> Seq<u64> {
    top_keys(port_places(ports), TOP_PORTS as nat)
}

/// No port has two summaries.
pub open spec fn distinct_ports(summaries: Seq<PortTrafficSummary>) -> bool {
    forall|a: int, b: int|
        0 <= a < b < summaries.len() ==> (#[trigger] summaries[a]).port != (
        #[trigger] summaries[b]).port
}

/// Whether `summaries` are the summaries of the ranked port records, in
/// rank order.
pub open spec fn is_top_ports(
    summaries: Seq<PortTrafficSummary>,
    ports: Seq<Slot<u16, PortStats>>,
    flows: FlowSeq,
) -> bool {
    let places = top_port_places(ports);
    &&& summaries.len() == places.len()
    &&& forall|j: int|
        0 <= j < places.len() ==> places[j] < ports.len() && (#[trigger] summaries[j]).summarizes(
            ports[places[j] as int],
            flows,
        )
}

impl TrafficAnalyzer {
    /// An analyzer whose cycle before was at `now` and saw nothing.
    pub fn new(now: Timestamp) -> (a: Self)
        ensures
            a == (TrafficAnalyzer {
                last_snapshot_time: now,
                previous_total_bytes: 0,
                previous_total_packets: 0,
            }),
    {
        TrafficAnalyzer { last_snapshot_time: now, previous_total_bytes: 0, previous_total_packets: 0 }
    }

    /// The figures of this cycle. The totals seen become the totals that
    /// the next cycle's rates are taken against.
    pub fn calculate_realtime_metrics(
        &mut self,
        flows: &Vec<Slot<FlowKey, EnhancedTrafficStats>>,
        time_diff_secs: u128,
        current_time: Timestamp,
    ) -> (r: RealtimeMetrics)
        ensures
            r == realtime_metrics_spec(
                flows@,
                old(self).previous_total_bytes,
                old(self).previous_total_packets,
                time_diff_secs as int,
                current_time,
            ),
            *final(self) == (TrafficAnalyzer {
                last_snapshot_time: old(self).last_snapshot_time,
                previous_total_bytes: capped_u64(
                    flow_sum(flows@, Selector::any(), Measure::Bytes),
                ),
                previous_total_packets: capped_u64(
                    flow_sum(flows@, Selector::any(), Measure::Packets),
                ),
            }),
    {
        let any = Selector { ip: None, port: None, protocol: None };
        let tcp = Selector { ip: None, port: None, protocol: Some(PROTOCOL_TCP) };
        let udp = Selector { ip: None, port: None, protocol: Some(PROTOCOL_UDP) };
        let total_bytes = flow_total(flows, &any, &Measure::Bytes);
        let total_packets = flow_total(flows, &any, &Measure::Packets);
        let ip_groups = group_flows(flows, &any, &GroupBy::Ip);
        proof {
            lemma_flow_sum_nonnegative(flows@, tcp, Measure::Connections);
            lemma_flow_sum_nonnegative(flows@, udp, Measure::Connections);
            lemma_rate_bounds(total_bytes, self.previous_total_bytes, time_diff_secs as int);
            lemma_rate_bounds(total_packets, self.previous_total_packets, time_diff_secs as int);
        }
        let metrics = RealtimeMetrics {
            total_bandwidth_bps: rate(total_bytes, self.previous_total_bytes, time_diff_secs),
            total_packet_rate_pps: rate(total_packets, self.previous_total_packets, time_diff_secs),
            active_flows: cap_len(flows.len()),
            active_ips: cap_len(ip_groups.len()),
            tcp_connections: cap_u32(flow_total(flows, &tcp, &Measure::Connections)),
            udp_connections: cap_u32(flow_total(flows, &udp, &Measure::Connections)),
            last_updated: current_time,
        };
        self.previous_total_bytes = total_bytes;
        self.previous_total_packets = total_packets;
        metrics
    }

    /// The ten addresses with the most bytes, most first, each with its
    /// summary.
    pub fn calculate_top_ips(flows: &Vec<Slot<FlowKey, EnhancedTrafficStats>>) -> (r: Vec<
        IpTrafficSummary,
    >)
        ensures
            is_top_ips(r@, flows@),
    {
        let any = Selector { ip: None, port: None, protocol: None };
        let ip_groups = group_flows(flows, &any, &GroupBy::Ip);
        let codes = ranked_keys(&ip_groups, TOP_IPS);
        let mut summaries: Vec<IpTrafficSummary> = Vec::new();
        let mut j: usize = 0;
        proof {
            lemma_distinct_codes(flows@, any, GroupBy::Ip);
        }
        while j < codes.len()
            invariant
                j <= codes@.len(),
                summaries@.len() == j,
                any == Selector::any(),
                ip_groups@ == groups(flows@, any, GroupBy::Ip),
                codes@ == top_ip_codes(flows@),
                is_top_ranking(
                    slot_values(ip_groups@),
                    TOP_IPS as nat,
                    top_picks(slot_values(ip_groups@), TOP_IPS as nat),
                ),
                forall|x: int|
                    0 <= x < distinct_codes(flows@, any, GroupBy::Ip).len() ==> is_code(
                        GroupBy::Ip,
                        #[trigger] distinct_codes(flows@, any, GroupBy::Ip)[x],
                    ),
                forall|x: int|
                    0 <= x < j ==> codes@[x] <= u32::MAX && (#[trigger] summaries@[x]).summarizes(
                        flows@,
                        codes@[x] as u32,
                    ),
            decreases codes@.len() - j,
        {
            let ghost pick = top_picks(slot_values(ip_groups@), TOP_IPS as nat)[j as int];
            assert(pick < slot_values(ip_groups@).len());
            assert(codes@[j as int] == distinct_codes(flows@, any, GroupBy::Ip)[pick as int]);
            summaries.push(summarize_ip(flows, codes[j] as u32));
            j = j + 1;
        }
        summaries
    }

    /// The ten port records with the most bytes, most first, each with its
    /// summary. The records are one for each port, so no port is
    /// summarized twice.
    pub fn calculate_top_ports(
        ports: &Vec<Slot<u16, PortStats>>,
        flows: &Vec<Slot<FlowKey, EnhancedTrafficStats>>,
    ) -> (r: Vec<PortTrafficSummary>)
        requires
            distinct_keys(ports@),
        ensures
            is_top_ports(r@, ports@, flows@),
            distinct_ports(r@),
    {
        let mut places: Vec<Slot<u64, u64>> = Vec::new();
        let mut i: usize = 0;
        while i < ports.len()
            invariant
                i <= ports@.len(),
                places@.len() == i,
                forall|x: int| 0 <= x < i ==> (#[trigger] places@[x]) == port_places(ports@)[x],
            decreases ports@.len() - i,
        {
            places.push(Slot { key: i as u64, value: ports[i].value.total_bytes });
            i = i + 1;
        }
        assert(places@ =~= port_places(ports@));
        let ranked = ranked_keys(&places, TOP_PORTS);
        let mut summaries: Vec<PortTrafficSummary> = Vec::new();
        let mut j: usize = 0;
        while j < ranked.len()
            invariant
                j <= ranked@.len(),
                summaries@.len() == j,
                places@ == port_places(ports@),
                ranked@ == top_port_places(ports@),
                is_top_ranking(
                    slot_values(places@),
                    TOP_PORTS as nat,
                    top_picks(slot_values(places@), TOP_PORTS as nat),
                ),
                forall|x: int|
                    0 <= x < j ==> ranked@[x] < ports@.len() && (#[trigger] summaries@[x]).summarizes(
                        ports@[ranked@[x] as int],
                        flows@,
                    ),
            decreases ranked@.len() - j,
        {
            let ghost pick = top_picks(slot_values(places@), TOP_PORTS as nat)[j as int];
            assert(pick < slot_values(places@).len());
            assert(ranked@[j as int] == places@[pick as int].key);
            let place = ranked[j] as usize;
            summaries.push(summarize_port(&ports[place], flows));
            j = j + 1;
        }
        proof {
            let values = slot_values(places@);
            let picks = top_picks(values, TOP_PORTS as nat);
            assert forall|a: int, b: int| 0 <= a < b < summaries@.len() implies (
            #[trigger] summaries@[a]).port != (#[trigger] summaries@[b]).port by {
                assert(ranks_before(values, picks[a] as int, picks[b] as int));
                assert(picks[a] < values.len() && picks[b] < values.len());
                assert(ranked@[a] == places@[picks[a] as int].key);
                assert(ranked@[b] == places@[picks[b] as int].key);
                assert(summaries@[a].summarizes(ports@[ranked@[a] as int], flows@));
                assert(summaries@[b].summarizes(ports@[ranked@[b] as int], flows@));
            }
        }
        summaries
    }

    /// The bytes, packets and flows of TCP and of UDP over all addresses.
    pub fn calculate_protocol_breakdown(protocols: &Vec<Slot<u32, ProtocolStats>>) -> (r:
        ProtocolBreakdown)
        ensures
            r == protocol_breakdown_spec(protocols@),
    {
        proof {
            lemma_protocol_sum_nonnegative(protocols@, ProtocolMeasure::TcpFlows);
            lemma_protocol_sum_nonnegative(protocols@, ProtocolMeasure::UdpFlows);
        }
        ProtocolBreakdown {
            tcp_bytes: protocol_total(protocols, &ProtocolMeasure::TcpBytes),
            tcp_packets: protocol_total(protocols, &ProtocolMeasure::TcpPackets),
            tcp_flows: cap_u32(protocol_total(protocols, &ProtocolMeasure::TcpFlows)),
            udp_bytes: protocol_total(protocols, &ProtocolMeasure::UdpBytes),
            udp_packets: protocol_total(protocols, &ProtocolMeasure::UdpPackets),
            udp_flows: cap_u32(protocol_total(protocols, &ProtocolMeasure::UdpFlows)),
        }
    }

    /// The totals of this cycle as one point of a timeline.
    pub fn generate_timeline_point(
        flows: &Vec<Slot<FlowKey, EnhancedTrafficStats>>,
        timestamp: Timestamp,
    ) -> (r: TimelinePoint)
        ensures
            r == timeline_point_spec(flows@, timestamp),
    {
        let any = Selector { ip: None, port: None, protocol: None };
        let tcp = Selector { ip: None, port: None, protocol: Some(PROTOCOL_TCP) };
        let udp = Selector { ip: None, port: None, protocol: Some(PROTOCOL_UDP) };
        TimelinePoint {
            timestamp,
            total_bytes: flow_total(flows, &any, &Measure::Bytes),
            total_packets: flow_total(flows, &any, &Measure::Packets),
            tcp_bytes: flow_total(flows, &tcp, &Measure::Bytes),
            udp_bytes: flow_total(flows, &udp, &Measure::Bytes),
            active_flows: cap_len(flows.len()),
        }
    }

    /// What a dashboard shows for the snapshot taken at `now`, which holds
    /// each flow, address and port once. Rates are taken against the cycle
    /// before, and this cycle becomes the cycle before of the next.
    pub fn analyze_ebpf_data(&mut self, snapshot: &Snapshot, now: Timestamp) -> (d: DashboardData)
        requires
            snapshot.wf(),
        ensures
            d.realtime_metrics == realtime_metrics_spec(
                snapshot.flows@,
                old(self).previous_total_bytes,
                old(self).previous_total_packets,
                elapsed_seconds_spec(now, old(self).last_snapshot_time),
                now,
            ),
            is_top_ips(d.top_ips@, snapshot.flows@),
            is_top_ports(d.top_ports@, snapshot.ports@, snapshot.flows@),
            distinct_ports(d.top_ports@),
            d.protocol_breakdown == protocol_breakdown_spec(snapshot.protocols@),
            d.timeline_data@ == seq![timeline_point_spec(snapshot.flows@, now)],
            *final(self) == (TrafficAnalyzer {
                last_snapshot_time: now,
                previous_total_bytes: capped_u64(
                    flow_sum(snapshot.flows@, Selector::any(), Measure::Bytes),
                ),
                previous_total_packets: capped_u64(
                    flow_sum(snapshot.flows@, Selector::any(), Measure::Packets),
                ),
            }),
    {
        let elapsed = now.elapsed_seconds(&self.last_snapshot_time);
        let realtime_metrics = self.calculate_realtime_metrics(&snapshot.flows, elapsed, now);
        let top_ips = TrafficAnalyzer::calculate_top_ips(&snapshot.flows);
        let top_ports = TrafficAnalyzer::calculate_top_ports(&snapshot.ports, &snapshot.flows);
        let protocol_breakdown = TrafficAnalyzer::calculate_protocol_breakdown(&snapshot.protocols);
        let point = TrafficAnalyzer::generate_timeline_point(&snapshot.flows, now);
        self.last_snapshot_time = now;
        let mut timeline_data: Vec<TimelinePoint> = Vec::new();
        timeline_data.push(point);
        assert(timeline_data@ =~= seq![point]);
        DashboardData { realtime_metrics, top_ips, top_ports, protocol_breakdown, timeline_data }
    }
}

} // verus!
