use tc::analytics::{
    cap_len, cap_u32, flow_breakdown, get_protocol_name, get_service_name, protocol_total, rate,
    ranked_keys, summarize_ip, summarize_port, ProtocolBreakdown, ProtocolMeasure, TimelinePoint,
    TrafficAnalyzer,
};
use tc::flow_sums::{
    flow_total, group_flows, latest_seen_secs, seen_secs, GroupBy, Measure, Selector,
};
use tc::ranking::top_ranking;
use tc::serializable_types::{
    SerializableEnhancedTrafficStats, SerializableFlowKey, SerializablePortStats,
    SerializableProtocolStats,
};
use tc::snapshot::Snapshot;
use tc::stats::{EnhancedTrafficStats, FlowKey, PacketLog, PortStats, ProtocolStats, TrafficStats};
use tc::table::{BoundedTable, Slot};
use tc::time::Timestamp;

const ANY: Selector = Selector { ip: None, port: None, protocol: None };

fn flow(ip: u32, port: u16, protocol: u8, direction: u8, inbound: u64, outbound: u64, seen_ns: u64) -> (FlowKey, EnhancedTrafficStats) {
    (
        FlowKey { ip, port, protocol, direction },
        EnhancedTrafficStats {
            inbound_packets: inbound / 10,
            inbound_bytes: inbound,
            outbound_packets: outbound / 10,
            outbound_bytes: outbound,
            protocol,
            last_seen: seen_ns,
            connection_count: 2,
        },
    )
}

fn sample() -> Snapshot {
    Snapshot::from_entries(
        &vec![
            flow(1, 443, 6, 0, 1000, 0, 5_000_000_000),
            flow(2, 53, 17, 0, 300, 0, 1_000_000_000),
            flow(1, 80, 6, 1, 0, 200, 9_999_999_999),
            flow(3, 443, 6, 0, 300, 0, 2_000_000_000),
            flow(1, 443, 17, 1, 50, 50, 3_000_000_000),
            flow(2, 22, 1, 0, 40, 0, 4_000_000_000),
        ],
        &vec![
            (1u32, ProtocolStats { tcp_flows: 2, udp_flows: 1, tcp_bytes: 1200, udp_bytes: 100, tcp_packets: 12, udp_packets: 2 }),
            (2u32, ProtocolStats { tcp_flows: 0, udp_flows: 1, tcp_bytes: 0, udp_bytes: 300, tcp_packets: 0, udp_packets: 3 }),
        ],
        &vec![
            (443u16, PortStats { port: 443, protocol: 6, total_bytes: 1400, total_packets: 14, active_connections: 3, last_active: 7_500_000_000 }),
            (53u16, PortStats { port: 53, protocol: 17, total_bytes: 300, total_packets: 3, active_connections: 1, last_active: 1 }),
            (80u16, PortStats { port: 80, protocol: 6, total_bytes: 1400, total_packets: 2, active_connections: 1, last_active: 2 }),
            (4789u16, PortStats { port: 4789, protocol: 47, total_bytes: 5, total_packets: 1, active_connections: 1, last_active: 3 }),
        ],
    )
}

#[test]
fn a_rate_is_growth_over_seconds() {
    assert_eq!(rate(1500, 1000, 5), 100);
    assert_eq!(rate(1000, 1500, 5), 0);
    assert_eq!(rate(1000, 1000, 5), 0);
    assert_eq!(rate(1004, 1000, 5), 0);
    assert_eq!(rate(1500, 1000, 0), 500);
    assert_eq!(rate(1500, 1000, 1), 500);
    assert_eq!(rate(u64::MAX, 0, 1), u64::MAX);
    assert_eq!(rate(u64::MAX, 0, u128::MAX), 0);
}

#[test]
fn rates_are_taken_against_the_cycle_before() {
    let t = Timestamp { secs: 1_700_000_000, nanos: 0 };
    let mut analyzer = TrafficAnalyzer::new(t);
    assert_eq!(analyzer.previous_total_bytes, 0);
    let first = Snapshot::from_entries(&vec![flow(1, 443, 6, 0, 1000, 0, 0)], &vec![], &vec![]);
    let d = analyzer.analyze_ebpf_data(&first, t);
    assert_eq!(d.realtime_metrics.total_bandwidth_bps, 1000);
    assert_eq!(d.realtime_metrics.total_packet_rate_pps, 100);
    assert_eq!(analyzer.previous_total_bytes, 1000);
    assert_eq!(analyzer.previous_total_packets, 100);
    assert_eq!(analyzer.last_snapshot_time, t);

    let later = Timestamp { secs: t.secs + 5, nanos: 0 };
    let second = Snapshot::from_entries(&vec![flow(1, 443, 6, 0, 1500, 0, 0)], &vec![], &vec![]);
    let d = analyzer.analyze_ebpf_data(&second, later);
    assert_eq!(d.realtime_metrics.total_bandwidth_bps, 100);
    assert_eq!(d.realtime_metrics.total_packet_rate_pps, 10);
    assert_eq!(d.realtime_metrics.last_updated, later);
    assert_eq!(analyzer.last_snapshot_time, later);

    // counters that went back, as after a restart, give a rate of zero
    let restarted = Snapshot::from_entries(&vec![flow(1, 443, 6, 0, 700, 0, 0)], &vec![], &vec![]);
    let d = analyzer.analyze_ebpf_data(&restarted, Timestamp { secs: t.secs + 10, nanos: 0 });
    assert_eq!(d.realtime_metrics.total_bandwidth_bps, 0);
    assert_eq!(d.realtime_metrics.total_packet_rate_pps, 0);
    assert_eq!(analyzer.previous_total_bytes, 700);
}

#[test]
fn elapsed_time_is_whole_seconds_and_at_least_one() {
    let t = |secs: i64, nanos: u32| Timestamp { secs, nanos };
    assert_eq!(t(10, 0).elapsed_seconds(&t(5, 0)), 5);
    assert_eq!(t(12, 100_000_000).elapsed_seconds(&t(10, 900_000_000)), 1);
    assert_eq!(t(12, 900_000_000).elapsed_seconds(&t(10, 900_000_000)), 2);
    assert_eq!(t(10, 999_999_999).elapsed_seconds(&t(10, 0)), 1);
    assert_eq!(t(10, 0).elapsed_seconds(&t(10, 0)), 1);
    assert_eq!(t(5, 0).elapsed_seconds(&t(10, 0)), 1);
    assert_eq!(t(i64::MAX, 0).elapsed_seconds(&t(i64::MIN, 0)), u64::MAX as u128);
    assert_eq!(t(i64::MIN, 0).elapsed_seconds(&t(i64::MAX, 0)), 1);
    assert_eq!(Timestamp::new(3, 4), t(3, 4));
    assert_eq!(t(100, 7).minus_seconds(60), Some(t(40, 7)));
    assert_eq!(t(i64::MIN, 7).minus_seconds(1), None);
    assert_eq!(t(0, 0).minus_seconds(i64::MIN), None);
}

#[test]
fn the_figures_of_a_cycle() {
    let s = sample();
    let t = Timestamp { secs: 50, nanos: 0 };
    let mut analyzer = TrafficAnalyzer::new(Timestamp { secs: 40, nanos: 0 });
    let m = analyzer.calculate_realtime_metrics(&s.flows, 10, t);
    assert_eq!(m.total_bandwidth_bps, 194);
    assert_eq!(m.total_packet_rate_pps, 19);
    assert_eq!(m.active_flows, 6);
    assert_eq!(m.active_ips, 3);
    assert_eq!(m.tcp_connections, 6);
    assert_eq!(m.udp_connections, 4);
    assert_eq!(m.last_updated, t);
    assert_eq!(analyzer.previous_total_bytes, 1940);
    assert_eq!(analyzer.previous_total_packets, 194);
    assert_eq!(analyzer.last_snapshot_time, Timestamp { secs: 40, nanos: 0 });

    assert_eq!(
        TrafficAnalyzer::generate_timeline_point(&s.flows, t),
        TimelinePoint { timestamp: t, total_bytes: 1940, total_packets: 194, tcp_bytes: 1500, udp_bytes: 400, active_flows: 6 }
    );
    let d = TrafficAnalyzer::new(t).analyze_ebpf_data(&s, t);
    assert_eq!(d.timeline_data.len(), 1);
    assert_eq!(d.timeline_data[0].total_bytes, 1940);
    assert_eq!(d.top_ips.len(), 3);
    assert_eq!(d.top_ports.len(), 4);
    assert_eq!(d.protocol_breakdown.tcp_bytes, 1200);
}

#[test]
fn addresses_are_ranked_by_their_bytes() {
    let s = sample();
    let top = TrafficAnalyzer::calculate_top_ips(&s.flows);
    assert_eq!(
        top.iter().map(|t| t.ip.as_str()).collect::<Vec<&str>>(),
        vec!["0.0.0.1", "0.0.0.2", "0.0.0.3"]
    );
    let first = &top[0];
    assert_eq!(first.inbound_bytes, 1050);
    assert_eq!(first.outbound_bytes, 250);
    assert_eq!(first.inbound_packets, 105);
    assert_eq!(first.outbound_packets, 25);
    assert_eq!(first.total_flows, 3);
    assert_eq!(first.top_ports, vec![443, 80]);
    assert_eq!(
        first.protocols,
        ProtocolBreakdown { tcp_bytes: 1200, tcp_packets: 120, tcp_flows: 2, udp_bytes: 100, udp_packets: 10, udp_flows: 1 }
    );
    assert_eq!(first.protocols.tcp_basis_points(), 9230);
    assert_eq!(first.protocols.udp_basis_points(), 769);
    assert_eq!(first.last_active, 9);
    // of two addresses with the same bytes the one seen first ranks first
    assert_eq!(top[1].inbound_bytes + top[1].outbound_bytes, 340);
    assert_eq!(top[1].total_flows, 2);
    assert_eq!(top[1].protocols.tcp_flows, 0);
    assert_eq!(top[1].protocols.udp_flows, 1);
    assert_eq!(top[1].top_ports, vec![53, 22]);
    assert_eq!(top[2].inbound_bytes, 300);

    let many: Vec<(FlowKey, EnhancedTrafficStats)> =
        (0..25u32).map(|i| flow(100 + i, 1000 + (i as u16 % 7), 6, 0, (i as u64 % 5) * 10, 0, 0)).collect();
    let s = Snapshot::from_entries(&many, &vec![], &vec![]);
    let top = TrafficAnalyzer::calculate_top_ips(&s.flows);
    assert_eq!(top.len(), 10);
    assert_eq!(
        top.iter().map(|t| t.ip.clone()).collect::<Vec<String>>(),
        [104, 109, 114, 119, 124, 103, 108, 113, 118, 123]
            .iter()
            .map(|n| format!("0.0.0.{}", n))
            .collect::<Vec<String>>()
    );
    let one_ip: Vec<(FlowKey, EnhancedTrafficStats)> =
        (0..8u16).map(|i| flow(1, 10 + i, 6, 0, 100 - i as u64, 0, 0)).collect();
    let s = Snapshot::from_entries(&one_ip, &vec![], &vec![]);
    assert_eq!(summarize_ip(&s.flows, 1).top_ports, vec![10, 11, 12, 13, 14]);
    assert_eq!(summarize_ip(&s.flows, 2).total_flows, 0);
    assert_eq!(summarize_ip(&s.flows, 2).last_active, 0);
    assert_eq!(TrafficAnalyzer::calculate_top_ips(&Vec::new()).len(), 0);
}

#[test]
fn ports_are_ranked_by_their_bytes() {
    let s = sample();
    let top = TrafficAnalyzer::calculate_top_ports(&s.ports, &s.flows);
    assert_eq!(top.iter().map(|t| t.port).collect::<Vec<u16>>(), vec![443, 80, 53, 4789]);
    assert_eq!(top[0].service_name.as_deref(), Some("HTTPS"));
    assert_eq!(top[0].protocol, "TCP");
    assert_eq!(top[0].total_bytes, 1400);
    assert_eq!(top[0].total_packets, 14);
    assert_eq!(top[0].active_connections, 3);
    assert_eq!(top[0].associated_ips, vec!["0.0.0.1", "0.0.0.3"]);
    assert_eq!(top[0].last_active, 7);
    assert_eq!(top[1].service_name.as_deref(), Some("HTTP"));
    assert_eq!(top[1].associated_ips, vec!["0.0.0.1"]);
    assert_eq!(top[2].service_name.as_deref(), Some("DNS"));
    assert_eq!(top[2].protocol, "UDP");
    assert_eq!(top[3].service_name, None);
    assert_eq!(top[3].protocol, "Protocol 47");
    assert_eq!(top[3].associated_ips, Vec::<String>::new());
    let wide = Snapshot::from_entries(
        &vec![flow(0xC0A8_0164, 443, 6, 0, 1, 0, 0)],
        &vec![],
        &vec![(443, PortStats { port: 443, protocol: 6, total_bytes: 1, total_packets: 1, active_connections: 1, last_active: 0 })],
    );
    assert_eq!(TrafficAnalyzer::calculate_top_ips(&wide.flows)[0].ip, "192.168.1.100");
    assert_eq!(
        TrafficAnalyzer::calculate_top_ports(&wide.ports, &wide.flows)[0].associated_ips,
        vec!["192.168.1.100"]
    );

    let many: Vec<(u16, PortStats)> = (0..12u16)
        .map(|p| (p, PortStats { port: p, protocol: 6, total_bytes: p as u64, total_packets: 0, active_connections: 0, last_active: 0 }))
        .collect();
    let s = Snapshot::from_entries(&vec![], &vec![], &many);
    let top = TrafficAnalyzer::calculate_top_ports(&s.ports, &s.flows);
    assert_eq!(top.iter().map(|t| t.port).collect::<Vec<u16>>(), vec![11, 10, 9, 8, 7, 6, 5, 4, 3, 2]);
    let slot = Slot { key: 22u16, value: PortStats::new(22, 6) };
    assert_eq!(summarize_port(&slot, &Vec::new()).service_name.as_deref(), Some("SSH"));
}

#[test]
fn well_known_ports_have_names() {
    let names = [
        (22u16, "SSH"), (53, "DNS"), (80, "HTTP"), (443, "HTTPS"), (3306, "MySQL"),
        (5432, "PostgreSQL"), (6379, "Redis"), (3000, "Development Server"), (8080, "HTTP Alt"),
        (8443, "HTTPS Alt"),
    ];
    for (port, name) in names {
        assert_eq!(get_service_name(port).as_deref(), Some(name));
    }
    for port in [0u16, 1, 21, 23, 8081, 65535] {
        assert_eq!(get_service_name(port), None);
    }
    assert_eq!(get_protocol_name(6), "TCP");
    assert_eq!(get_protocol_name(17), "UDP");
    assert_eq!(get_protocol_name(0), "Protocol 0");
    assert_eq!(get_protocol_name(1), "Protocol 1");
    assert_eq!(get_protocol_name(255), "Protocol 255");
}

#[test]
fn the_breakdown_adds_up_the_addresses() {
    let s = sample();
    let b = TrafficAnalyzer::calculate_protocol_breakdown(&s.protocols);
    assert_eq!(
        b,
        ProtocolBreakdown { tcp_bytes: 1200, tcp_packets: 12, tcp_flows: 2, udp_bytes: 400, udp_packets: 5, udp_flows: 2 }
    );
    assert_eq!(b.tcp_basis_points(), 7500);
    assert_eq!(b.udp_basis_points(), 2500);
    let none = TrafficAnalyzer::calculate_protocol_breakdown(&Vec::new());
    assert_eq!(none.tcp_basis_points(), 0);
    assert_eq!(none.udp_basis_points(), 0);
    let all = ProtocolBreakdown { tcp_bytes: u64::MAX, tcp_packets: 0, tcp_flows: 0, udp_bytes: 0, udp_packets: 0, udp_flows: 0 };
    assert_eq!(all.tcp_basis_points(), 10000);
    assert_eq!(all.udp_basis_points(), 0);
    let third = ProtocolBreakdown { tcp_bytes: 1, tcp_packets: 0, tcp_flows: 0, udp_bytes: 2, udp_packets: 0, udp_flows: 0 };
    assert_eq!(third.tcp_basis_points(), 3333);
    assert_eq!(third.udp_basis_points(), 6666);
    assert_eq!(protocol_total(&s.protocols, &ProtocolMeasure::UdpPackets), 5);
    let big = Snapshot::from_entries(
        &vec![],
        &vec![
            (1u32, ProtocolStats { tcp_flows: u32::MAX, udp_flows: 0, tcp_bytes: u64::MAX, udp_bytes: 0, tcp_packets: 0, udp_packets: 0 }),
            (2u32, ProtocolStats { tcp_flows: 7, udp_flows: 0, tcp_bytes: 7, udp_bytes: 0, tcp_packets: 0, udp_packets: 0 }),
        ],
        &vec![],
    );
    let b = TrafficAnalyzer::calculate_protocol_breakdown(&big.protocols);
    assert_eq!(b.tcp_bytes, u64::MAX);
    assert_eq!(b.tcp_flows, u32::MAX);
}

#[test]
fn sums_and_groups_over_flows() {
    let s = sample();
    let of_ip = |ip: u32| Selector { ip: Some(ip), port: None, protocol: None };
    assert_eq!(flow_total(&s.flows, &ANY, &Measure::Bytes), 1940);
    assert_eq!(flow_total(&s.flows, &ANY, &Measure::Flows), 6);
    assert_eq!(flow_total(&s.flows, &ANY, &Measure::Connections), 12);
    assert_eq!(flow_total(&s.flows, &of_ip(1), &Measure::InboundBytes), 1050);
    assert_eq!(flow_total(&s.flows, &of_ip(1), &Measure::OutboundBytes), 250);
    assert_eq!(flow_total(&s.flows, &of_ip(1), &Measure::InboundPackets), 105);
    assert_eq!(flow_total(&s.flows, &of_ip(1), &Measure::OutboundPackets), 25);
    assert_eq!(flow_total(&s.flows, &of_ip(1), &Measure::Packets), 130);
    assert_eq!(flow_total(&s.flows, &of_ip(9), &Measure::Bytes), 0);
    let tcp_443 = Selector { ip: None, port: Some(443), protocol: Some(6) };
    assert_eq!(flow_total(&s.flows, &tcp_443, &Measure::Bytes), 1300);
    assert!(tcp_443.takes(&FlowKey { ip: 5, port: 443, protocol: 6, direction: 1 }));
    assert!(!tcp_443.takes(&FlowKey { ip: 5, port: 443, protocol: 17, direction: 1 }));
    assert_eq!(flow_breakdown(&s.flows, &of_ip(2)).udp_bytes, 300);

    let groups = group_flows(&s.flows, &ANY, &GroupBy::Ip);
    assert_eq!(groups.iter().map(|g| (g.key, g.value)).collect::<Vec<_>>(), vec![(1, 1300), (2, 340), (3, 300)]);
    let groups = group_flows(&s.flows, &of_ip(1), &GroupBy::Port);
    assert_eq!(groups.iter().map(|g| (g.key, g.value)).collect::<Vec<_>>(), vec![(443, 1100), (80, 200)]);
    assert_eq!(GroupBy::Port.code(&FlowKey { ip: 5, port: 443, protocol: 6, direction: 1 }), 443);
    assert_eq!(ranked_keys(&groups, 1), vec![443]);

    assert_eq!(latest_seen_secs(&s.flows, &of_ip(1)), Some(9));
    assert_eq!(latest_seen_secs(&s.flows, &of_ip(2)), Some(4));
    assert_eq!(latest_seen_secs(&s.flows, &of_ip(9)), None);
    assert_eq!(seen_secs(0), 0);
    assert_eq!(seen_secs(999_999_999), 0);
    assert_eq!(seen_secs(1_000_000_000), 1);
    assert_eq!(seen_secs(i64::MAX as u64), 9_223_372_036);
    assert_eq!(seen_secs(u64::MAX), 0);
    assert_eq!(seen_secs(1u64 << 63), -9_223_372_036);
    assert_eq!(seen_secs(u64::MAX - 1_000_000_000), -1);

    let heavy = Snapshot::from_entries(
        &vec![flow(1, 1, 6, 0, u64::MAX, 10, 0), flow(1, 2, 6, 0, 5, 0, 0)],
        &vec![],
        &vec![],
    );
    assert_eq!(flow_total(&heavy.flows, &ANY, &Measure::Bytes), u64::MAX);
    assert_eq!(flow_total(&heavy.flows, &ANY, &Measure::OutboundBytes), 10);
    assert_eq!(cap_u32(u64::MAX), u32::MAX);
    assert_eq!(cap_u32(7), 7);
    assert_eq!(cap_len(9), 9);
}

#[test]
fn the_largest_values_are_picked_in_order() {
    assert_eq!(top_ranking(&vec![5, 9, 1, 9, 7], 3), vec![1, 3, 4]);
    assert_eq!(top_ranking(&vec![5, 9, 1, 9, 7], 0), Vec::<usize>::new());
    assert_eq!(top_ranking(&vec![5, 9, 1, 9, 7], 9), vec![1, 3, 4, 0, 2]);
    assert_eq!(top_ranking(&vec![], 3), Vec::<usize>::new());
    assert_eq!(top_ranking(&vec![0, 0, 0], 2), vec![0, 1]);
    assert_eq!(top_ranking(&vec![u64::MAX, 0, u64::MAX], usize::MAX), vec![0, 2, 1]);
}

#[test]
fn counters_and_their_stored_forms() {
    assert_eq!(
        TrafficStats::new(),
        TrafficStats { inbound_packets: 0, inbound_bytes: 0, outbound_packets: 0, outbound_bytes: 0 }
    );
    let t = TrafficStats { inbound_packets: 1, inbound_bytes: 2, outbound_packets: 3, outbound_bytes: 4 };
    assert_eq!(t.total_packets(), 4);
    assert_eq!(t.total_bytes(), 6);
    let t = TrafficStats { inbound_packets: u64::MAX, inbound_bytes: u64::MAX, outbound_packets: 1, outbound_bytes: 1 };
    assert_eq!(t.total_packets(), u64::MAX);
    assert_eq!(t.total_bytes(), u64::MAX);
    let log = PacketLog { ipv4_address: 1, action: 2 };
    assert_eq!(log.action, 2);
    assert_eq!(EnhancedTrafficStats::new(17).protocol, 17);
    assert_eq!(EnhancedTrafficStats::new(17).total_bytes(), 0);
    assert_eq!(ProtocolStats::new().total_flows(), 0);
    assert_eq!(
        ProtocolStats { tcp_flows: u32::MAX, udp_flows: 1, tcp_bytes: 0, udp_bytes: 0, tcp_packets: 0, udp_packets: 0 }.total_flows(),
        u32::MAX
    );
    assert_eq!(PortStats::new(80, 6).port, 80);
    assert_eq!(PortStats::new(80, 6).total_bytes, 0);

    let key = FlowKey { ip: 1, port: 2, protocol: 6, direction: 1 };
    let stored = SerializableFlowKey::from(key);
    assert_eq!(stored, SerializableFlowKey { ip: 1, port: 2, protocol: 6, direction: 1 });
    assert_eq!(FlowKey::from(stored), key);
    let back: FlowKey = stored.into();
    assert_eq!(back, key);

    let stats = EnhancedTrafficStats {
        inbound_packets: 1, inbound_bytes: 2, outbound_packets: 3, outbound_bytes: 4,
        protocol: 6, last_seen: 5, connection_count: 7,
    };
    let stored = SerializableEnhancedTrafficStats::from(stats);
    assert_eq!(stored.inbound_bytes, 2);
    assert_eq!(stored.connection_count, 7);
    assert_eq!(stored.total_packets(), 4);
    assert_eq!(stored.total_bytes(), 6);
    assert_eq!(EnhancedTrafficStats::from(stored), stats);

    let p = ProtocolStats { tcp_flows: 1, udp_flows: 2, tcp_bytes: 3, udp_bytes: 4, tcp_packets: 5, udp_packets: 6 };
    let stored = SerializableProtocolStats::from(p);
    assert_eq!(stored.total_flows(), 3);
    assert_eq!(stored.total_bytes(), 7);
    assert_eq!(stored.total_packets(), 11);
    assert_eq!(ProtocolStats::from(stored), p);

    let q = PortStats { port: 1, protocol: 2, total_bytes: 3, total_packets: 4, active_connections: 5, last_active: 6 };
    let stored = SerializablePortStats::from(q);
    assert_eq!(stored, SerializablePortStats { port: 1, protocol: 2, total_bytes: 3, total_packets: 4, active_connections: 5, last_active: 6 });
    assert_eq!(PortStats::from(stored), q);
    assert_eq!(
        SerializablePortStats::new(9, 17),
        SerializablePortStats { port: 9, protocol: 17, total_bytes: 0, total_packets: 0, active_connections: 0, last_active: 0 }
    );
}

#[test]
fn a_table_takes_keys_while_it_has_room() {
    let mut table: BoundedTable<u16, u8> = BoundedTable::new(2);
    assert_eq!(table.capacity(), 2);
    assert!(table.insert(7, 1));
    assert!(table.insert(3, 2));
    assert!(!table.insert(5, 3));
    assert!(table.insert(7, 4));
    assert_eq!(table.get(&7), Some(4));
    assert_eq!(table.get(&3), Some(2));
    assert_eq!(table.get(&5), None);
    assert_eq!(table.len(), 2);
    let slots = table.to_vec();
    assert_eq!(slots.iter().map(|s| (s.key, s.value)).collect::<Vec<_>>(), vec![(7, 4), (3, 2)]);
    let mut none: BoundedTable<u32, u8> = BoundedTable::new(0);
    assert!(!none.insert(1, 1));
    assert_eq!(none.len(), 0);
}

#[test]
fn no_port_is_ranked_twice() {
    let port = |p: u16, bytes: u64| {
        (p, PortStats { port: p, protocol: 6, total_bytes: bytes, total_packets: 1, active_connections: 1, last_active: 0 })
    };
    // a port that was read twice stands once in the snapshot, with its later value
    let s = Snapshot::from_entries(&vec![], &vec![], &vec![port(443, 10), port(80, 20), port(443, 30)]);
    assert_eq!(s.ports.len(), 2);
    let top = TrafficAnalyzer::calculate_top_ports(&s.ports, &s.flows);
    assert_eq!(top.iter().map(|t| (t.port, t.total_bytes)).collect::<Vec<(u16, u64)>>(), vec![(443, 30), (80, 20)]);
    let d = TrafficAnalyzer::new(Timestamp { secs: 0, nanos: 0 }).analyze_ebpf_data(&s, Timestamp { secs: 5, nanos: 0 });
    let mut ports: Vec<u16> = d.top_ports.iter().map(|t| t.port).collect();
    ports.sort();
    ports.dedup();
    assert_eq!(ports.len(), d.top_ports.len());
}
