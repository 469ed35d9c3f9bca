use std::collections::BTreeMap;
use tc::key_time::{bytes_eq, family_of_word, find_field_end, is_expired, time_field_at_most};
use tc::records::{FlowRecord, PortRecord, ProtocolRecord, StorageError};
use tc::serializable_types::{
    SerializableEnhancedTrafficStats, SerializableFlowKey, SerializablePortStats,
    SerializableProtocolStats,
};
use tc::snapshot::Snapshot;
use tc::stats::{EnhancedTrafficStats, FlowKey, PortStats, ProtocolStats};
use tc::storage::{decode_flows, rank_ports, snapshot_batch, StoredEntry, TrafficStorage};
use tc::storage_keys::{
    flow_key, ip_flows_key, ip_protocol_key, port_flows_key, port_stats_key, protocol_key, Family,
    ScanBounds,
};
use tc::text::{bytes_le, decimal_len, push_decimal, push_time_field, push_zero_padded, starts_with};
use tc::time::Timestamp;

fn text(bytes: Vec<u8>) -> String {
    String::from_utf8(bytes).unwrap()
}

fn at(secs: i64) -> Timestamp {
    Timestamp { secs, nanos: 0 }
}

fn flow_stats(inbound_bytes: u64, outbound_bytes: u64, protocol: u8) -> EnhancedTrafficStats {
    EnhancedTrafficStats {
        inbound_packets: 1,
        inbound_bytes,
        outbound_packets: 2,
        outbound_bytes,
        protocol,
        last_seen: 77,
        connection_count: 3,
    }
}

fn sample_snapshot() -> Snapshot {
    Snapshot::from_entries(
        &vec![
            (FlowKey { ip: 167772165, port: 443, protocol: 6, direction: 0 }, flow_stats(100, 0, 6)),
            (FlowKey { ip: 167772165, port: 53, protocol: 17, direction: 1 }, flow_stats(0, 64, 17)),
            (FlowKey { ip: 167772161, port: 443, protocol: 6, direction: 1 }, flow_stats(0, 9, 6)),
        ],
        &vec![
            (
                167772165u32,
                ProtocolStats { tcp_flows: 1, udp_flows: 1, tcp_bytes: 100, udp_bytes: 64, tcp_packets: 1, udp_packets: 1 },
            ),
            (
                167772161u32,
                ProtocolStats { tcp_flows: 1, udp_flows: 0, tcp_bytes: 9, udp_bytes: 0, tcp_packets: 1, udp_packets: 0 },
            ),
        ],
        &vec![
            (443u16, PortStats { port: 443, protocol: 6, total_bytes: 109, total_packets: 2, active_connections: 2, last_active: 5 }),
            (53u16, PortStats { port: 53, protocol: 17, total_bytes: 64, total_packets: 1, active_connections: 1, last_active: 6 }),
        ],
    )
}

#[test]
fn keys_have_their_exact_form() {
    let k = FlowKey { ip: 167772165, port: 443, protocol: 6, direction: 0 };
    assert_eq!(text(flow_key(1700000000, &k)), "flow:1700000000:167772165:443:6:0");
    assert_eq!(text(ip_flows_key(1700000000, &k)), "ip_flows:167772165:1700000000:443:6:0");
    assert_eq!(text(port_flows_key(1700000000, &k)), "port_flows:443:1700000000:167772165:6:0");
    assert_eq!(text(protocol_key(1700000000, 167772165)), "protocol:1700000000:167772165");
    assert_eq!(text(ip_protocol_key(1700000000, 167772165)), "ip_protocol:167772165:1700000000");
    assert_eq!(text(port_stats_key(1700000000, 443)), "port_stats:1700000000:443");
    assert_eq!(text(flow_key(5, &k)), "flow:0000000005:167772165:443:6:0");
    assert_eq!(text(port_stats_key(0, 0)), "port_stats:0000000000:0");
}

#[test]
fn keys_are_what_the_format_strings_give() {
    let times = [0i64, 1, 9, 10, 999_999_999, 1_700_000_000, 9_999_999_999, 10_000_000_000, i64::MAX, -1, -5, -123_456_789, -1_234_567_890, i64::MIN];
    let keys = [
        FlowKey { ip: 0, port: 0, protocol: 0, direction: 0 },
        FlowKey { ip: u32::MAX, port: u16::MAX, protocol: 255, direction: 255 },
        FlowKey { ip: 3232235876, port: 8080, protocol: 17, direction: 1 },
    ];
    for ts in times {
        for k in keys {
            assert_eq!(
                text(flow_key(ts, &k)),
                format!("flow:{:010}:{}:{}:{}:{}", ts, k.ip, k.port, k.protocol, k.direction)
            );
            assert_eq!(
                text(ip_flows_key(ts, &k)),
                format!("ip_flows:{}:{:010}:{}:{}:{}", k.ip, ts, k.port, k.protocol, k.direction)
            );
            assert_eq!(
                text(port_flows_key(ts, &k)),
                format!("port_flows:{}:{:010}:{}:{}:{}", k.port, ts, k.ip, k.protocol, k.direction)
            );
            assert_eq!(text(protocol_key(ts, k.ip)), format!("protocol:{:010}:{}", ts, k.ip));
            assert_eq!(text(ip_protocol_key(ts, k.ip)), format!("ip_protocol:{}:{:010}", k.ip, ts));
            assert_eq!(text(port_stats_key(ts, k.port)), format!("port_stats:{:010}:{}", ts, k.port));
        }
    }
}

#[test]
fn numbers_are_written_in_decimal() {
    for n in [0u64, 7, 10, 99, 100, 12345, u32::MAX as u64, u64::MAX] {
        let mut out = b"x".to_vec();
        push_decimal(&mut out, n);
        assert_eq!(text(out), format!("x{}", n));
        assert_eq!(decimal_len(n), format!("{}", n).len());
        let mut out = Vec::new();
        push_zero_padded(&mut out, n, 10);
        assert_eq!(text(out), format!("{:010}", n));
        let mut out = Vec::new();
        push_zero_padded(&mut out, n, 0);
        assert_eq!(text(out), format!("{}", n));
    }
    let mut out = Vec::new();
    push_time_field(&mut out, -42);
    assert_eq!(text(out), "-000000042");
    let mut out = Vec::new();
    push_time_field(&mut out, i64::MIN);
    assert_eq!(text(out), "-9223372036854775808");
}

#[test]
fn byte_order_is_the_order_of_texts() {
    let texts = ["", "a", "ab", "abc", "b", "flow:", "flow:0", "flow:1", "ip", "ip:", "\u{7f}", "A"];
    for a in texts {
        for b in texts {
            assert_eq!(bytes_le(a.as_bytes(), b.as_bytes()), a <= b, "{:?} {:?}", a, b);
            assert_eq!(starts_with(a.as_bytes(), b.as_bytes()), a.starts_with(b), "{:?} {:?}", a, b);
            assert_eq!(bytes_eq(a.as_bytes(), b.as_bytes()), a == b, "{:?} {:?}", a, b);
        }
    }
    assert!(bytes_le(&[0x7f], &[0x80]));
    assert!(!bytes_le(&[0xff], &[0x00, 0xff]));
}

#[test]
fn a_flow_record_has_its_stored_bytes() {
    let record = FlowRecord {
        timestamp: at(0),
        flow_key: SerializableFlowKey { ip: 0x0a000005, port: 443, protocol: 6, direction: 1 },
        stats: SerializableEnhancedTrafficStats {
            inbound_packets: 1,
            inbound_bytes: 2,
            outbound_packets: 3,
            outbound_bytes: 4,
            protocol: 6,
            last_seen: 5,
            connection_count: 7,
        },
    };
    let mut expected: Vec<u8> = Vec::new();
    expected.extend_from_slice(&20u64.to_le_bytes());
    expected.extend_from_slice(b"1970-01-01T00:00:00Z");
    expected.extend_from_slice(&0x0a000005u32.to_le_bytes());
    expected.extend_from_slice(&443u16.to_le_bytes());
    expected.push(6);
    expected.push(1);
    expected.extend_from_slice(&1u64.to_le_bytes());
    expected.extend_from_slice(&2u64.to_le_bytes());
    expected.extend_from_slice(&3u64.to_le_bytes());
    expected.extend_from_slice(&4u64.to_le_bytes());
    expected.push(6);
    expected.extend_from_slice(&5u64.to_le_bytes());
    expected.extend_from_slice(&7u32.to_le_bytes());
    let bytes = record.encode().unwrap();
    assert_eq!(bytes, expected);
    assert_eq!(FlowRecord::decode(&bytes), Some(record));
    assert_eq!(FlowRecord::decode(&bytes[..bytes.len() - 1]), None);
    assert_eq!(FlowRecord::decode(b""), None);
}

#[test]
fn protocol_and_port_records_have_their_stored_bytes() {
    let record = ProtocolRecord {
        timestamp: Timestamp { secs: 1_000_000_000, nanos: 500_000_000 },
        ip: 9,
        stats: SerializableProtocolStats { tcp_flows: 1, udp_flows: 2, tcp_bytes: 3, udp_bytes: 4, tcp_packets: 5, udp_packets: 6 },
    };
    let mut expected: Vec<u8> = Vec::new();
    expected.extend_from_slice(&24u64.to_le_bytes());
    expected.extend_from_slice(b"2001-09-09T01:46:40.500Z");
    expected.extend_from_slice(&9u32.to_le_bytes());
    expected.extend_from_slice(&1u32.to_le_bytes());
    expected.extend_from_slice(&2u32.to_le_bytes());
    for n in [3u64, 4, 5, 6] {
        expected.extend_from_slice(&n.to_le_bytes());
    }
    let bytes = record.encode().unwrap();
    assert_eq!(bytes, expected);
    assert_eq!(ProtocolRecord::decode(&bytes), Some(record));

    let record = PortRecord {
        timestamp: at(86400),
        port: 8080,
        stats: SerializablePortStats { port: 8080, protocol: 17, total_bytes: 1, total_packets: 2, active_connections: 3, last_active: 4 },
    };
    let mut expected: Vec<u8> = Vec::new();
    expected.extend_from_slice(&20u64.to_le_bytes());
    expected.extend_from_slice(b"1970-01-02T00:00:00Z");
    expected.extend_from_slice(&8080u16.to_le_bytes());
    expected.extend_from_slice(&8080u16.to_le_bytes());
    expected.push(17);
    expected.extend_from_slice(&1u64.to_le_bytes());
    expected.extend_from_slice(&2u64.to_le_bytes());
    expected.extend_from_slice(&3u32.to_le_bytes());
    expected.extend_from_slice(&4u64.to_le_bytes());
    let bytes = record.encode().unwrap();
    assert_eq!(bytes, expected);
    assert_eq!(PortRecord::decode(&bytes), Some(record));
    assert_eq!(PortRecord::decode(&[1, 2, 3]), None);
    assert_eq!(ProtocolRecord::decode(&[1, 2, 3]), None);
}

#[test]
fn a_record_of_no_date_has_no_stored_form() {
    let record = PortRecord {
        timestamp: Timestamp { secs: 0, nanos: 2_000_000_000 },
        port: 1,
        stats: SerializablePortStats::new(1, 6),
    };
    assert_eq!(record.encode(), Err(StorageError::Serialization));
    let record = ProtocolRecord {
        timestamp: Timestamp { secs: i64::MAX, nanos: 0 },
        ip: 1,
        stats: SerializableProtocolStats { tcp_flows: 0, udp_flows: 0, tcp_bytes: 0, udp_bytes: 0, tcp_packets: 0, udp_packets: 0 },
    };
    assert_eq!(record.encode(), Err(StorageError::Serialization));
    let record = FlowRecord {
        timestamp: Timestamp { secs: i64::MIN, nanos: 0 },
        flow_key: SerializableFlowKey { ip: 1, port: 1, protocol: 6, direction: 0 },
        stats: SerializableEnhancedTrafficStats::from(EnhancedTrafficStats::new(6)),
    };
    assert_eq!(record.encode(), Err(StorageError::Serialization));

    let snapshot = sample_snapshot();
    let mut store = TrafficStorage::new();
    store.put(b"a".to_vec(), b"1".to_vec());
    assert_eq!(
        store.store_traffic_snapshot(&snapshot, Timestamp { secs: 5, nanos: u32::MAX }),
        Err(StorageError::Serialization)
    );
    assert_eq!(store.len(), 1);
    assert!(snapshot_batch(&snapshot, Timestamp { secs: 5, nanos: u32::MAX }).is_err());
}

#[test]
fn a_snapshot_is_written_as_one_batch_of_entries() {
    let snapshot = sample_snapshot();
    let now = Timestamp { secs: 1_700_000_000, nanos: 123 };
    let batch = snapshot_batch(&snapshot, now).unwrap();
    assert_eq!(batch.len(), 3 * 3 + 2 * 2 + 2);
    let keys: Vec<String> = batch.iter().map(|e| text(e.key.clone())).collect();
    assert_eq!(
        keys,
        vec![
            "flow:1700000000:167772165:443:6:0",
            "ip_flows:167772165:1700000000:443:6:0",
            "port_flows:443:1700000000:167772165:6:0",
            "flow:1700000000:167772165:53:17:1",
            "ip_flows:167772165:1700000000:53:17:1",
            "port_flows:53:1700000000:167772165:17:1",
            "flow:1700000000:167772161:443:6:1",
            "ip_flows:167772161:1700000000:443:6:1",
            "port_flows:443:1700000000:167772161:6:1",
            "protocol:1700000000:167772165",
            "ip_protocol:167772165:1700000000",
            "protocol:1700000000:167772161",
            "ip_protocol:167772161:1700000000",
            "port_stats:1700000000:443",
            "port_stats:1700000000:53",
        ]
    );
    let first = FlowRecord {
        timestamp: now,
        flow_key: SerializableFlowKey::from(snapshot.flows[0].key),
        stats: SerializableEnhancedTrafficStats::from(snapshot.flows[0].value),
    };
    for e in &batch[0..3] {
        assert_eq!(e.value, first.encode().unwrap());
    }
    assert_eq!(ProtocolRecord::decode(&batch[9].value).unwrap().ip, 167772165);
    assert_eq!(batch[9].value, batch[10].value);
    assert_eq!(PortRecord::decode(&batch[14].value).unwrap().stats.total_bytes, 64);
}

#[test]
fn what_is_written_is_read_back_through_every_family() {
    let snapshot = sample_snapshot();
    let now = Timestamp { secs: 1_700_000_000, nanos: 5 };
    let mut store = TrafficStorage::new();
    store.put(b"zzz".to_vec(), b"other".to_vec());
    assert_eq!(store.store_traffic_snapshot(&snapshot, now), Ok(()));
    assert_eq!(store.len(), 16);

    let records: Vec<FlowRecord> = snapshot
        .flows
        .iter()
        .map(|s| FlowRecord {
            timestamp: now,
            flow_key: SerializableFlowKey::from(s.key),
            stats: SerializableEnhancedTrafficStats::from(s.value),
        })
        .collect();

    let start = at(1_699_999_999);
    let end = at(1_700_000_001);
    let all = store.get_flows_in_timerange(start, end);
    assert_eq!(all.len(), 3);
    for r in &records {
        assert!(all.contains(r));
    }
    let by_ip = store.get_ip_flows_history(167772165, start, end);
    assert_eq!(by_ip.len(), 2);
    assert!(by_ip.contains(&records[0]));
    assert!(by_ip.contains(&records[1]));
    assert_eq!(store.get_ip_flows_history(167772161, start, end), vec![records[2]]);
    assert_eq!(store.get_ip_flows_history(16777216, start, end), vec![]);
    let by_port = store.get_port_flows_history(443, start, end);
    assert_eq!(by_port.len(), 2);
    assert!(by_port.contains(&records[0]));
    assert!(by_port.contains(&records[2]));
    assert_eq!(store.get_port_flows_history(53, start, end), vec![records[1]]);
    for r in &all {
        let key: FlowKey = r.flow_key.into();
        let stats: EnhancedTrafficStats = r.stats.into();
        assert!(snapshot.flows.iter().any(|s| s.key == key && s.value == stats));
    }

    // the start is part of the stretch, the end is not
    assert_eq!(store.get_ip_flows_history(167772165, now, end).len(), 2);
    assert_eq!(store.get_ip_flows_history(167772165, start, now).len(), 0);
    assert_eq!(store.get_flows_in_timerange(start, now).len(), 0);
    assert_eq!(store.get_all_port_stats_in_timerange(start, now).len(), 0);
    assert_eq!(store.get_all_port_stats_in_timerange(now, end).len(), 2);
    assert_eq!(store.get_all_protocol_stats_in_timerange(now, end).len(), 2);

    // for the protocol records of an address as well
    assert_eq!(store.get_protocol_stats_history(167772165, start, now).len(), 0);
    assert_eq!(store.get_protocol_stats_history(167772161, now, end).len(), 1);
    let history = store.get_protocol_stats_history(167772165, now, end);
    assert_eq!(history.len(), 1);
    assert_eq!(history[0].ip, 167772165);
    assert_eq!(history[0].timestamp, now);
    assert_eq!(history[0].stats.udp_bytes, 64);
    assert_eq!(store.get_protocol_stats_history(167772165, end, end).len(), 0);

    let (flows, protocols, ports) = store.get_latest_snapshot(at(1_700_000_030));
    assert_eq!((flows.len(), protocols.len(), ports.len()), (3, 2, 2));
    let (flows, protocols, ports) = store.get_latest_snapshot(at(1_700_000_061));
    assert_eq!((flows.len(), protocols.len(), ports.len()), (0, 0, 0));
    let (flows, _, _) = store.get_latest_snapshot(at(i64::MIN + 3));
    assert_eq!(flows.len(), 0);
}

#[test]
fn the_store_is_an_ordered_map() {
    let mut store = TrafficStorage::new();
    let mut model: BTreeMap<Vec<u8>, Vec<u8>> = BTreeMap::new();
    let keys = ["m", "a", "z", "mm", "", "b", "a", "ab", "m", "y", "flow:1", "flow:", "flow:0"];
    for (i, k) in keys.iter().enumerate() {
        store.put(k.as_bytes().to_vec(), vec![i as u8]);
        model.insert(k.as_bytes().to_vec(), vec![i as u8]);
    }
    assert!(store.delete(b"b"));
    assert!(!store.delete(b"b"));
    assert!(!store.delete(b"c"));
    model.remove(&b"b".to_vec());
    assert_eq!(store.len(), model.len());
    for (i, (k, v)) in model.iter().enumerate() {
        let e = store.entry(i);
        assert_eq!(&e.key, k);
        assert_eq!(&e.value, v);
        assert_eq!(store.get(k), Some(v.clone()));
        assert_eq!(store.seek_index(k), i);
    }
    assert_eq!(store.get(b"nothing"), None);
    assert_eq!(store.seek_index(b"zz"), store.len());
    assert_eq!(store.seek_index(b"aa"), 2);

    let mut bounds = ScanBounds {
        prefix: b"flow:".to_vec(),
        start_key: b"flow:0".to_vec(),
        end_key: b"flow:1".to_vec(),
        end_open: false,
    };
    assert_eq!(store.scan_range(&bounds), (4, 6));
    assert_eq!(store.scan(&bounds), vec![vec![12u8], vec![10u8]]);
    assert!(bounds.admits(b"flow:1"));
    assert!(!bounds.admits(b"flow:10"));
    assert!(!bounds.admits(b"flo"));
    assert!(!bounds.admits(b"glow:0"));
    bounds.end_open = true;
    assert!(!bounds.admits(b"flow:1"));
    assert!(bounds.admits(b"flow:0zz"));
    assert!(!bounds.admits(b"flow:10"));
    let bounds = ScanBounds {
        prefix: b"".to_vec(),
        start_key: b"n".to_vec(),
        end_key: b"x".to_vec(),
        end_open: false,
    };
    assert_eq!(store.scan(&bounds), Vec::<Vec<u8>>::new());

    let mut other = TrafficStorage::new();
    other.apply(&vec![
        StoredEntry { key: b"k".to_vec(), value: b"1".to_vec() },
        StoredEntry { key: b"j".to_vec(), value: b"2".to_vec() },
        StoredEntry { key: b"k".to_vec(), value: b"3".to_vec() },
    ]);
    assert_eq!(other.len(), 2);
    assert_eq!(other.get(b"k"), Some(b"3".to_vec()));
    assert_eq!(other.entry(0).key, b"j".to_vec());
}

#[test]
fn scan_bounds_have_their_exact_form() {
    let b = ScanBounds::by_dimension(&Family::IpFlows, 167772165, 5, 1_700_000_000);
    assert_eq!(text(b.prefix), "ip_flows:167772165:");
    assert_eq!(text(b.start_key), "ip_flows:167772165:0000000005:");
    assert_eq!(text(b.end_key), "ip_flows:167772165:1700000000:");
    let b = ScanBounds::by_dimension(&Family::PortFlows, 443, 5, 6);
    assert_eq!(text(b.prefix), "port_flows:443:");
    assert_eq!(text(b.start_key), "port_flows:443:0000000005:");
    let b = ScanBounds::ip_protocol(7, 5, 6);
    assert_eq!(text(b.prefix), "ip_protocol:7:");
    assert_eq!(text(b.start_key), "ip_protocol:7:0000000005");
    assert_eq!(text(b.end_key), "ip_protocol:7:0000000006");
    assert!(b.end_open);
    for (family, word) in [(Family::Flow, "flow"), (Family::Protocol, "protocol"), (Family::PortStats, "port_stats")] {
        let b = ScanBounds::by_time(&family, 1, 2);
        assert_eq!(text(b.prefix), format!("{}:", word));
        assert_eq!(text(b.start_key), format!("{}:0000000001:", word));
        assert_eq!(text(b.end_key), format!("{}:0000000002:", word));
        assert!(family.has_time_first());
    }
    assert!(!Family::IpFlows.has_time_first());
    assert!(!Family::PortFlows.has_time_first());
    assert!(!Family::IpProtocol.has_time_first());
}

#[test]
fn cleanup_drops_old_records_once() {
    let snapshot = sample_snapshot();
    let mut store = TrafficStorage::new();
    store.store_traffic_snapshot(&snapshot, at(100)).unwrap();
    store.store_traffic_snapshot(&snapshot, at(200)).unwrap();
    store.store_traffic_snapshot(&snapshot, at(300)).unwrap();
    store.put(b"settings".to_vec(), b"kept".to_vec());
    store.put(b"flow:soon:1".to_vec(), b"kept".to_vec());
    assert_eq!(store.len(), 47);

    assert_eq!(store.cleanup_old_data(at(99)), 0);
    assert_eq!(store.len(), 47);
    assert_eq!(store.cleanup_old_data(at(200)), 30);
    assert_eq!(store.len(), 17);
    assert_eq!(store.cleanup_old_data(at(200)), 0);
    assert_eq!(store.len(), 17);
    for i in 0..store.len() {
        let key = text(store.entry(i).key);
        assert!(!key.contains("0000000100") && !key.contains("0000000200"), "{}", key);
    }
    assert_eq!(store.get_flows_in_timerange(at(0), at(1000)).len(), 3);
    assert_eq!(store.get_ip_flows_history(167772165, at(0), at(1000)).len(), 2);
    assert_eq!(store.get_protocol_stats_history(167772165, at(0), at(1000)).len(), 1);
    assert_eq!(store.cleanup_old_data(at(i64::MAX)), 15);
    assert_eq!(store.cleanup_old_data(at(i64::MAX)), 0);
    assert_eq!(store.len(), 2);
    assert_eq!(store.get(b"settings"), Some(b"kept".to_vec()));
}

#[test]
fn a_key_is_expired_by_the_time_it_carries() {
    let cases: [(&str, i64, bool); 26] = [
        ("flow:0000000100:1:2:6:0", 100, true),
        ("flow:0000000100:1:2:6:0", 99, false),
        ("ip_flows:1:0000000100:2:6:0", 100, true),
        ("ip_flows:1:0000000100:2:6:0", 99, false),
        ("ip_flows:0000000001:0000000100:2:6:0", 50, false),
        ("port_flows:2:0000000100:1:6:0", 100, true),
        ("port_flows:2:0000000101:1:6:0", 100, false),
        ("protocol:0000000100:1", 100, true),
        ("protocol:0000000100", 100, true),
        ("ip_protocol:1:0000000100", 100, true),
        ("ip_protocol:1:0000000100", 99, false),
        ("ip_protocol:1", 100, false),
        ("port_stats:0000000100:443", 1000, true),
        ("port_stats:-000000005:443", -5, true),
        ("port_stats:-000000005:443", -6, false),
        ("port_stats:5:443", 5, true),
        ("port_stats:99999999999999999999999:443", i64::MAX, false),
        ("port_stats:-99999999999999999999999:443", i64::MIN, true),
        ("port_stats:9223372036854775807:443", i64::MAX, true),
        ("port_stats:9223372036854775808:443", i64::MAX, false),
        ("port_stats:-9223372036854775808:443", i64::MIN, true),
        ("port_stats::443", 100, false),
        ("port_stats:-:443", 100, false),
        ("port_stats:1x:443", 100, false),
        ("flows:0000000100:1", 100, false),
        ("", 100, false),
    ];
    for (key, cutoff, expected) in cases {
        assert_eq!(is_expired(key.as_bytes(), cutoff), expected, "{} {}", key, cutoff);
    }
    assert!(!is_expired(b"flow", 100));
    assert!(!is_expired(b"flow:", 100));
    assert!(!is_expired(&[0xff, 0xfe], 100));
    assert!(time_field_at_most(b"0000000007", 7));
    assert!(!time_field_at_most(b"+7", 7));
    assert_eq!(find_field_end(b"ab:cd", 0), 2);
    assert_eq!(find_field_end(b"ab:cd", 2), 2);
    assert_eq!(find_field_end(b"ab:cd", 3), 5);
    assert_eq!(family_of_word(b"ip_protocol"), Some(Family::IpProtocol));
    assert_eq!(family_of_word(b"port_flows"), Some(Family::PortFlows));
    assert_eq!(family_of_word(b"port"), None);
}

#[test]
fn top_ports_add_up_and_rank_the_records() {
    let record = |secs: i64, port: u16, protocol: u8, bytes: u64, last: u64| PortRecord {
        timestamp: at(secs),
        port,
        stats: SerializablePortStats { port, protocol, total_bytes: bytes, total_packets: 2, active_connections: 3, last_active: last },
    };
    let records = vec![
        record(1, 80, 6, 10, 9),
        record(1, 443, 6, 50, 1),
        record(2, 80, 17, 60, 4),
        record(2, 53, 17, 70, 2),
        record(3, 22, 6, 70, 3),
    ];
    let end = Timestamp { secs: 99, nanos: 1 };
    let top = rank_ports(&records, end, 3);
    assert_eq!(top.len(), 3);
    assert_eq!(
        top[0],
        PortRecord {
            timestamp: end,
            port: 80,
            stats: SerializablePortStats { port: 80, protocol: 6, total_bytes: 70, total_packets: 4, active_connections: 6, last_active: 9 },
        }
    );
    assert_eq!(top[1].port, 53);
    assert_eq!(top[2].port, 22);
    assert_eq!(rank_ports(&records, end, 0), vec![]);
    assert_eq!(rank_ports(&records, end, 10).len(), 4);
    assert_eq!(rank_ports(&records, end, 10)[3].port, 443);
    let full = vec![record(1, 1, 6, u64::MAX, 0), record(2, 1, 6, 5, 0)];
    assert_eq!(rank_ports(&full, end, 1)[0].stats.total_bytes, u64::MAX);

    let mut store = TrafficStorage::new();
    store.store_traffic_snapshot(&sample_snapshot(), at(10)).unwrap();
    store.store_traffic_snapshot(&sample_snapshot(), at(20)).unwrap();
    store.store_traffic_snapshot(&sample_snapshot(), at(30)).unwrap();
    let top = store.get_top_ports(at(10), at(30), 1);
    assert_eq!(top.len(), 1);
    assert_eq!(top[0].port, 443);
    assert_eq!(top[0].timestamp, at(30));
    assert_eq!(top[0].stats.total_bytes, 218);
    assert_eq!(top[0].stats.total_packets, 4);
    assert_eq!(top[0].stats.active_connections, 4);
    assert_eq!(top[0].stats.last_active, 5);
    assert_eq!(store.get_top_ports(at(10), at(31), 5).len(), 2);
    assert_eq!(store.get_top_ports(at(10), at(31), 5)[1].stats.total_bytes, 192);
}

#[test]
fn values_that_hold_no_record_are_passed_over() {
    let good = FlowRecord {
        timestamp: at(1),
        flow_key: SerializableFlowKey { ip: 1, port: 2, protocol: 6, direction: 0 },
        stats: SerializableEnhancedTrafficStats::from(EnhancedTrafficStats::new(6)),
    };
    let values = vec![b"junk".to_vec(), good.encode().unwrap(), vec![], good.encode().unwrap()];
    assert_eq!(decode_flows(&values), vec![good, good]);
    let mut store = TrafficStorage::new();
    store.put(b"flow:0000000001:9:9:6:0".to_vec(), b"junk".to_vec());
    store.put(b"flow:0000000002:1:2:6:0".to_vec(), good.encode().unwrap());
    assert_eq!(store.get_flows_in_timerange(at(0), at(5)), vec![good]);
}

#[test]
fn a_snapshot_alone_is_read_back_exactly() {
    let snapshot = sample_snapshot();
    let now = Timestamp { secs: 1_700_000_000, nanos: 5 };
    let mut store = TrafficStorage::new();
    assert_eq!(store.store_traffic_snapshot(&snapshot, now), Ok(()));
    assert_eq!(store.len(), 3 * 3 + 2 * 2 + 2);
    let start = at(1_699_999_000);
    let end = at(1_700_000_001);

    let mut written: Vec<FlowRecord> = snapshot
        .flows
        .iter()
        .map(|s| FlowRecord {
            timestamp: now,
            flow_key: SerializableFlowKey::from(s.key),
            stats: SerializableEnhancedTrafficStats::from(s.value),
        })
        .collect();
    let mut all = store.get_flows_in_timerange(start, end);
    assert_eq!(all.len(), snapshot.flows.len());
    let order = |r: &FlowRecord| (r.flow_key.ip, r.flow_key.port, r.flow_key.protocol, r.flow_key.direction);
    all.sort_by_key(order);
    written.sort_by_key(order);
    assert_eq!(all, written);

    let mut by_ip = store.get_ip_flows_history(167772165, start, end);
    by_ip.sort_by_key(order);
    let of_ip: Vec<FlowRecord> = written.iter().filter(|r| r.flow_key.ip == 167772165).cloned().collect();
    assert_eq!(by_ip, of_ip);
    assert_eq!(by_ip.len(), 2);

    for slot in snapshot.protocols.iter() {
        assert_eq!(
            store.get_protocol_stats_history(slot.key, start, end),
            vec![ProtocolRecord {
                timestamp: now,
                ip: slot.key,
                stats: SerializableProtocolStats::from(slot.value),
            }]
        );
    }
    assert_eq!(store.get_protocol_stats_history(1, start, end), vec![]);
}

#[test]
fn the_end_of_a_stretch_is_not_part_of_it() {
    let snapshot = sample_snapshot();
    let now = at(1_700_000_000);
    let mut store = TrafficStorage::new();
    assert_eq!(store.store_traffic_snapshot(&snapshot, now), Ok(()));
    let before = at(1_600_000_000);
    let after = at(1_700_000_001);
    // the second of the snapshot as the end: nothing is read in any family
    assert_eq!(store.get_flows_in_timerange(before, now).len(), 0);
    assert_eq!(store.get_ip_flows_history(167772165, before, now).len(), 0);
    assert_eq!(store.get_port_flows_history(443, before, now).len(), 0);
    assert_eq!(store.get_all_protocol_stats_in_timerange(before, now).len(), 0);
    assert_eq!(store.get_protocol_stats_history(167772165, before, now).len(), 0);
    assert_eq!(store.get_all_port_stats_in_timerange(before, now).len(), 0);
    // the second of the snapshot as the start: everything is read
    assert_eq!(store.get_flows_in_timerange(now, after).len(), 3);
    assert_eq!(store.get_ip_flows_history(167772165, now, after).len(), 2);
    assert_eq!(store.get_port_flows_history(443, now, after).len(), 2);
    assert_eq!(store.get_all_protocol_stats_in_timerange(now, after).len(), 2);
    assert_eq!(store.get_protocol_stats_history(167772165, now, after).len(), 1);
    assert_eq!(store.get_all_port_stats_in_timerange(now, after).len(), 2);
    // a stretch that starts after it reads nothing
    assert_eq!(store.get_protocol_stats_history(167772165, after, at(1_800_000_000)).len(), 0);
    // two snapshots a second apart: the stretch between them holds the first only
    let mut two = TrafficStorage::new();
    assert_eq!(two.store_traffic_snapshot(&snapshot, at(100)), Ok(()));
    assert_eq!(two.store_traffic_snapshot(&snapshot, at(101)), Ok(()));
    let history = two.get_protocol_stats_history(167772165, at(100), at(101));
    assert_eq!(history.len(), 1);
    assert_eq!(history[0].timestamp, at(100));
    assert_eq!(two.get_protocol_stats_history(167772165, at(100), at(102)).len(), 2);
}
