use tc::classifier::{
    next_flow_stats, next_port_stats, next_protocol_stats, FlowAggregationStore, WatchList,
    XDP_ABORTED, XDP_PASS,
};
use tc::packet::{header_at, parse_packet, EthHdr, Ipv4Hdr, PacketError, PacketInfo, TcpHdr, UdpHdr};
use tc::snapshot::Snapshot;
use tc::stats::{EnhancedTrafficStats, FlowKey, PortStats, ProtocolStats};
use tc::table::BoundedTable;

fn frame(protocol: u8, src: [u8; 4], sport: u16, dst: [u8; 4], dport: u16, total_len: u16) -> Vec<u8> {
    let mut f = vec![0u8; 54];
    f[12] = 0x08;
    f[13] = 0x00;
    f[14] = 0x45;
    f[16] = (total_len >> 8) as u8;
    f[17] = (total_len & 0xff) as u8;
    f[23] = protocol;
    f[26..30].copy_from_slice(&src);
    f[30..34].copy_from_slice(&dst);
    f[34] = (sport >> 8) as u8;
    f[35] = (sport & 0xff) as u8;
    f[36] = (dport >> 8) as u8;
    f[37] = (dport & 0xff) as u8;
    f
}

fn addr(a: u8, b: u8, c: u8, d: u8) -> u32 {
    u32::from_be_bytes([a, b, c, d])
}

#[test]
fn one_tcp_packet_from_a_watched_source() {
    let mut store = FlowAggregationStore::new();
    let watched = addr(10, 0, 0, 5);
    assert!(store.targets.insert(watched));
    let f = frame(6, [10, 0, 0, 5], 443, [10, 0, 0, 1], 51000, 100);
    assert_eq!(store.xdp_firewall(&f, 7), XDP_PASS);

    let key = FlowKey { ip: watched, port: 443, protocol: 6, direction: 0 };
    let flow = store.flows.get(&key).unwrap();
    assert_eq!(flow.inbound_packets, 1);
    assert_eq!(flow.inbound_bytes, 100);
    assert_eq!(flow.outbound_packets, 0);
    assert_eq!(flow.outbound_bytes, 0);
    assert_eq!(flow.connection_count, 1);
    assert_eq!(flow.protocol, 6);
    assert_eq!(flow.last_seen, 7);
    assert_eq!(flow.total_bytes(), 100);
    assert_eq!(flow.total_packets(), 1);

    let proto = store.protocols.get(&watched).unwrap();
    assert_eq!(proto.tcp_packets, 1);
    assert_eq!(proto.tcp_bytes, 100);
    assert_eq!(proto.tcp_flows, 1);
    assert_eq!(proto.udp_packets, 0);

    let port = store.ports.get(&443).unwrap();
    assert_eq!(port.total_packets, 1);
    assert_eq!(port.total_bytes, 100);
    assert_eq!(port.active_connections, 1);
    assert_eq!(port.last_active, 7);
    assert_eq!(port.protocol, 6);

    assert_eq!(store.flows.len(), 1);
    assert_eq!(store.protocols.len(), 1);
    assert_eq!(store.ports.len(), 1);
}

#[test]
fn a_second_packet_adds_to_the_same_direction_only() {
    let mut store = FlowAggregationStore::new();
    let watched = addr(10, 0, 0, 5);
    store.targets.insert(watched);
    let f1 = frame(6, [10, 0, 0, 5], 443, [10, 0, 0, 1], 51000, 100);
    let f2 = frame(6, [10, 0, 0, 5], 443, [10, 0, 0, 1], 51000, 40);
    assert_eq!(store.xdp_firewall(&f1, 1), XDP_PASS);
    assert_eq!(store.xdp_firewall(&f2, 2), XDP_PASS);
    let key = FlowKey { ip: watched, port: 443, protocol: 6, direction: 0 };
    let flow = store.flows.get(&key).unwrap();
    assert_eq!(flow.inbound_packets, 2);
    assert_eq!(flow.inbound_bytes, 140);
    assert_eq!(flow.outbound_packets, 0);
    assert_eq!(flow.outbound_bytes, 0);
    assert_eq!(flow.connection_count, 2);
    assert_eq!(flow.last_seen, 2);
    assert_eq!(flow.total_bytes(), flow.inbound_bytes + flow.outbound_bytes);
    assert_eq!(flow.total_packets(), flow.inbound_packets + flow.outbound_packets);
    assert_eq!(store.flows.len(), 1);
}

#[test]
fn a_packet_to_a_watched_destination_counts_as_outbound() {
    let mut store = FlowAggregationStore::new();
    let watched = addr(10, 0, 0, 1);
    store.targets.insert(watched);
    let f = frame(17, [10, 0, 0, 5], 53, [10, 0, 0, 1], 4000, 64);
    assert_eq!(store.xdp_firewall(&f, 9), XDP_PASS);
    let key = FlowKey { ip: watched, port: 4000, protocol: 17, direction: 1 };
    let flow = store.flows.get(&key).unwrap();
    assert_eq!(flow.outbound_packets, 1);
    assert_eq!(flow.outbound_bytes, 64);
    assert_eq!(flow.inbound_packets, 0);
    assert_eq!(flow.inbound_bytes, 0);
    let proto = store.protocols.get(&watched).unwrap();
    assert_eq!(proto.udp_packets, 1);
    assert_eq!(proto.udp_bytes, 64);
    assert_eq!(proto.udp_flows, 1);
    assert_eq!(proto.tcp_packets, 0);
    assert!(store.ports.get(&53).is_none());
    assert_eq!(store.ports.get(&4000).unwrap().total_bytes, 64);
}

#[test]
fn a_packet_between_two_watched_hosts_counts_on_both_sides() {
    let mut store = FlowAggregationStore::new();
    let a = addr(10, 0, 0, 5);
    let b = addr(10, 0, 0, 1);
    store.targets.insert(a);
    store.targets.insert(b);
    let f = frame(6, [10, 0, 0, 5], 443, [10, 0, 0, 1], 51000, 100);
    assert_eq!(store.xdp_firewall(&f, 3), XDP_PASS);
    let inbound = store
        .flows
        .get(&FlowKey { ip: a, port: 443, protocol: 6, direction: 0 })
        .unwrap();
    let outbound = store
        .flows
        .get(&FlowKey { ip: b, port: 51000, protocol: 6, direction: 1 })
        .unwrap();
    assert_eq!((inbound.inbound_packets, inbound.inbound_bytes), (1, 100));
    assert_eq!((inbound.outbound_packets, inbound.outbound_bytes), (0, 0));
    assert_eq!((outbound.outbound_packets, outbound.outbound_bytes), (1, 100));
    assert_eq!((outbound.inbound_packets, outbound.inbound_bytes), (0, 0));
    assert_eq!(store.flows.len(), 2);
    assert_eq!(store.protocols.len(), 2);
    assert_eq!(store.ports.len(), 2);
}

#[test]
fn an_unwatched_packet_passes_and_counts_nothing() {
    let mut store = FlowAggregationStore::new();
    store.targets.insert(addr(192, 168, 0, 1));
    let f = frame(6, [10, 0, 0, 5], 443, [10, 0, 0, 1], 51000, 100);
    assert_eq!(store.xdp_firewall(&f, 3), XDP_PASS);
    assert_eq!(store.flows.len(), 0);
    assert_eq!(store.protocols.len(), 0);
    assert_eq!(store.ports.len(), 0);
}

#[test]
fn short_frames_are_aborted_and_count_nothing() {
    let f = frame(6, [10, 0, 0, 5], 443, [10, 0, 0, 1], 51000, 100);
    for cut in [0usize, 13, 14, 33, 34, 53] {
        let mut store = FlowAggregationStore::new();
        store.targets.insert(addr(10, 0, 0, 5));
        assert_eq!(store.xdp_firewall(&f[..cut], 7), XDP_ABORTED);
        assert_eq!(store.try_xdp_firewall(&f[..cut], 7), Err(PacketError::OutOfBounds));
        assert_eq!(store.flows.len(), 0);
        assert_eq!(store.protocols.len(), 0);
        assert_eq!(store.ports.len(), 0);
    }
    let u = frame(17, [10, 0, 0, 5], 443, [10, 0, 0, 1], 51000, 100);
    let mut store = FlowAggregationStore::new();
    store.targets.insert(addr(10, 0, 0, 5));
    assert_eq!(store.xdp_firewall(&u[..41], 7), XDP_ABORTED);
    assert_eq!(store.flows.len(), 0);
    assert_eq!(store.xdp_firewall(&u[..42], 7), XDP_PASS);
    assert_eq!(store.flows.len(), 1);
}

#[test]
fn frames_of_other_protocols_pass_without_counting() {
    let mut store = FlowAggregationStore::new();
    store.targets.insert(addr(10, 0, 0, 5));
    let mut arp = frame(6, [10, 0, 0, 5], 443, [10, 0, 0, 1], 51000, 100);
    arp[12] = 0x08;
    arp[13] = 0x06;
    assert_eq!(store.try_xdp_firewall(&arp[..14], 1), Ok(XDP_PASS));
    let ping = frame(1, [10, 0, 0, 5], 0, [10, 0, 0, 1], 0, 84);
    assert_eq!(store.try_xdp_firewall(&ping[..34], 1), Ok(XDP_PASS));
    assert_eq!(store.flows.len(), 0);
    assert_eq!(store.protocols.len(), 0);
    assert_eq!(store.ports.len(), 0);
}

#[test]
fn a_new_flow_for_a_full_table_is_left_out() {
    let mut store = FlowAggregationStore::with_capacities(4, 2, 2, 2);
    let watched = addr(10, 0, 0, 5);
    store.targets.insert(watched);
    for port in [1000u16, 1001] {
        let f = frame(6, [10, 0, 0, 5], port, [10, 0, 0, 1], 51000, 10);
        assert_eq!(store.xdp_firewall(&f, 1), XDP_PASS);
    }
    assert_eq!(store.flows.len(), 2);
    let f = frame(6, [10, 0, 0, 5], 1002, [10, 0, 0, 1], 51000, 10);
    assert_eq!(store.xdp_firewall(&f, 2), XDP_PASS);
    assert_eq!(store.flows.len(), 2);
    assert_eq!(store.ports.len(), 2);
    assert!(store
        .flows
        .get(&FlowKey { ip: watched, port: 1002, protocol: 6, direction: 0 })
        .is_none());
    // a flow that is in the table is still counted
    let f = frame(6, [10, 0, 0, 5], 1000, [10, 0, 0, 1], 51000, 5);
    assert_eq!(store.xdp_firewall(&f, 3), XDP_PASS);
    let flow = store
        .flows
        .get(&FlowKey { ip: watched, port: 1000, protocol: 6, direction: 0 })
        .unwrap();
    assert_eq!(flow.inbound_bytes, 15);
    assert_eq!(store.protocols.get(&watched).unwrap().tcp_packets, 4);
}

#[test]
fn the_default_flow_table_holds_8192_flows() {
    let mut table: BoundedTable<FlowKey, EnhancedTrafficStats> = BoundedTable::new(8192);
    for i in 0..8192u32 {
        let key = FlowKey { ip: i, port: 1, protocol: 6, direction: 0 };
        assert!(table.insert(key, EnhancedTrafficStats::new(6)));
    }
    assert_eq!(table.len(), 8192);
    let extra = FlowKey { ip: 9000, port: 1, protocol: 6, direction: 0 };
    assert!(!table.insert(extra, EnhancedTrafficStats::new(6)));
    assert_eq!(table.len(), 8192);
    assert!(table.get(&extra).is_none());
    let store = FlowAggregationStore::new();
    assert_eq!(store.flows.capacity(), 8192);
    assert_eq!(store.protocols.capacity(), 1024);
    assert_eq!(store.ports.capacity(), 1024);
}

#[test]
fn counters_stay_at_their_largest_value() {
    let full = EnhancedTrafficStats {
        inbound_packets: u64::MAX,
        inbound_bytes: u64::MAX - 5,
        outbound_packets: 3,
        outbound_bytes: 4,
        protocol: 6,
        last_seen: 1,
        connection_count: u32::MAX,
    };
    let after = next_flow_stats(Some(full), 6, 0, 10, 2);
    assert_eq!(after.inbound_packets, u64::MAX);
    assert_eq!(after.inbound_bytes, u64::MAX);
    assert_eq!(after.outbound_packets, 3);
    assert_eq!(after.outbound_bytes, 4);
    assert_eq!(after.connection_count, u32::MAX);
    assert_eq!(after.total_bytes(), u64::MAX);
    assert_eq!(after.total_packets(), u64::MAX);
}

#[test]
fn record_updates_follow_their_rules() {
    let first = next_flow_stats(None, 17, 1, 9, 5);
    assert_eq!(
        first,
        EnhancedTrafficStats {
            inbound_packets: 0,
            inbound_bytes: 0,
            outbound_packets: 1,
            outbound_bytes: 9,
            protocol: 17,
            last_seen: 5,
            connection_count: 1,
        }
    );
    // any direction but inbound counts as outbound, and the protocol stays
    let second = next_flow_stats(Some(first), 6, 7, 1, 6);
    assert_eq!(second.outbound_packets, 2);
    assert_eq!(second.outbound_bytes, 10);
    assert_eq!(second.protocol, 17);

    assert_eq!(next_protocol_stats(None, 1, 10, 1), None);
    let p = next_protocol_stats(None, 6, 10, 1).unwrap();
    assert_eq!(
        p,
        ProtocolStats { tcp_flows: 1, udp_flows: 0, tcp_bytes: 10, udp_bytes: 0, tcp_packets: 1, udp_packets: 0 }
    );
    let p = next_protocol_stats(Some(p), 17, 7, 2).unwrap();
    assert_eq!(
        p,
        ProtocolStats { tcp_flows: 1, udp_flows: 1, tcp_bytes: 10, udp_bytes: 7, tcp_packets: 1, udp_packets: 2 }
    );
    assert_eq!(p.total_flows(), 2);
    assert_eq!(p.total_bytes(), 17);
    assert_eq!(p.total_packets(), 3);

    let q = next_port_stats(None, 80, 6, 100, 4);
    assert_eq!(
        q,
        PortStats { port: 80, protocol: 6, total_bytes: 100, total_packets: 1, active_connections: 1, last_active: 4 }
    );
    let q = next_port_stats(Some(q), 80, 17, 1, 9);
    assert_eq!(
        q,
        PortStats { port: 80, protocol: 6, total_bytes: 101, total_packets: 2, active_connections: 2, last_active: 9 }
    );
}

#[test]
fn the_header_reader_checks_every_bound() {
    let buf = [1u8, 2, 3, 4, 5];
    assert_eq!(header_at(&buf, 0, 5).unwrap(), &buf[..]);
    assert_eq!(header_at(&buf, 2, 3).unwrap(), &buf[2..5]);
    assert_eq!(header_at(&buf, 5, 0).unwrap(), &buf[5..5]);
    assert_eq!(header_at(&buf, 2, 4), Err(PacketError::OutOfBounds));
    assert_eq!(header_at(&buf, 6, 0), Err(PacketError::OutOfBounds));
    assert_eq!(header_at(&buf, usize::MAX, 2), Err(PacketError::OutOfBounds));
    assert_eq!(header_at(&buf, 1, usize::MAX), Err(PacketError::OutOfBounds));
}

#[test]
fn headers_are_read_in_network_order() {
    let mut f = frame(6, [10, 0, 0, 5], 443, [192, 168, 1, 2], 51000, 0x1234);
    f[0..6].copy_from_slice(&[1, 2, 3, 4, 5, 6]);
    f[6..12].copy_from_slice(&[7, 8, 9, 10, 11, 12]);
    f[38..42].copy_from_slice(&[0, 0, 1, 0]);
    let eth = EthHdr::parse(&f[0..14]);
    assert_eq!(eth.dst_addr, [1, 2, 3, 4, 5, 6]);
    assert_eq!(eth.src_addr, [7, 8, 9, 10, 11, 12]);
    assert_eq!(eth.ether_type, 0x0800);
    let ip = Ipv4Hdr::parse(&f[14..34]);
    assert_eq!(ip.version_ihl, 0x45);
    assert_eq!(ip.tot_len, 0x1234);
    assert_eq!(ip.proto, 6);
    assert_eq!(ip.src_addr, 0x0a000005);
    assert_eq!(ip.dst_addr, 0xc0a80102);
    let tcp = TcpHdr::parse(&f[34..54]);
    assert_eq!(tcp.source, 443);
    assert_eq!(tcp.dest, 51000);
    assert_eq!(tcp.seq, 256);
    let udp = UdpHdr::parse(&f[34..42]);
    assert_eq!(udp.source, 443);
    assert_eq!(udp.dest, 51000);
    assert_eq!(udp.len, 0);
    assert_eq!(udp.check, 256);
    assert_eq!(
        parse_packet(&f),
        Ok(Some(PacketInfo {
            source_addr: 0x0a000005,
            dest_addr: 0xc0a80102,
            source_port: 443,
            dest_port: 51000,
            protocol: 6,
            packet_len: 0x1234,
        }))
    );
}

#[test]
fn the_watch_list_is_bounded() {
    let mut list = WatchList::new(2);
    assert!(list.insert(1));
    assert!(list.insert(2));
    assert!(list.insert(1));
    assert!(!list.insert(3));
    assert_eq!(list.len(), 2);
    assert!(list.contains(1));
    assert!(!list.contains(3));
    assert!(list.remove(1));
    assert!(!list.remove(1));
    assert!(list.insert(3));
    assert!(list.contains(3));
    assert_eq!(list.len(), 2);
}

#[test]
fn a_snapshot_holds_every_counter_once() {
    let mut store = FlowAggregationStore::new();
    store.targets.insert(addr(10, 0, 0, 5));
    store.targets.insert(addr(10, 0, 0, 1));
    for (port, len) in [(443u16, 100u16), (80, 50), (443, 25)] {
        let f = frame(6, [10, 0, 0, 5], port, [10, 0, 0, 1], 51000, len);
        store.xdp_firewall(&f, 1);
    }
    let snapshot = Snapshot::collect(&store);
    assert_eq!(snapshot.flows.len(), 3);
    assert_eq!(snapshot.protocols.len(), 2);
    assert_eq!(snapshot.ports.len(), 3);
    assert_eq!(snapshot.flows[0].key, FlowKey { ip: addr(10, 0, 0, 5), port: 443, protocol: 6, direction: 0 });
    assert_eq!(snapshot.flows[0].value.inbound_bytes, 125);
    assert_eq!(snapshot.flows[1].key, FlowKey { ip: addr(10, 0, 0, 1), port: 51000, protocol: 6, direction: 1 });
    assert_eq!(snapshot.flows[1].value.outbound_bytes, 175);
    assert_eq!(snapshot.flows[2].value.inbound_bytes, 50);

    let again = Snapshot::from_entries(
        &vec![
            (snapshot.flows[0].key, snapshot.flows[0].value),
            (snapshot.flows[1].key, snapshot.flows[1].value),
            (snapshot.flows[0].key, snapshot.flows[2].value),
        ],
        &vec![],
        &vec![],
    );
    assert_eq!(again.flows.len(), 2);
    assert_eq!(again.flows[0].key, snapshot.flows[0].key);
    assert_eq!(again.flows[0].value, snapshot.flows[2].value);
    assert_eq!(again.flows[1].value, snapshot.flows[1].value);
}

#[test]
fn every_record_is_held_under_what_it_carries() {
    let mut store = FlowAggregationStore::new();
    store.targets.insert(addr(10, 0, 0, 5));
    store.targets.insert(addr(10, 0, 0, 1));
    for (protocol, port, len) in [(6u8, 443u16, 100u16), (17, 443, 50), (17, 53, 25), (6, 80, 1), (6, 443, 7)] {
        let f = frame(protocol, [10, 0, 0, 5], port, [10, 0, 0, 1], 51000, len);
        assert_eq!(store.xdp_firewall(&f, 9), XDP_PASS);
    }
    let snapshot = Snapshot::collect(&store);
    assert_eq!(snapshot.ports.len(), 4);
    for slot in snapshot.ports.iter() {
        assert_eq!(slot.value.port, slot.key);
        assert_eq!(store.ports.get(&slot.key).unwrap().port, slot.key);
    }
    // the protocol of a port is that of its first packet
    assert_eq!(store.ports.get(&443).unwrap().protocol, 6);
    assert_eq!(store.ports.get(&443).unwrap().total_packets, 3);
    assert_eq!(snapshot.flows.len(), 6);
    for slot in snapshot.flows.iter() {
        assert_eq!(slot.value.protocol, slot.key.protocol);
    }
}
