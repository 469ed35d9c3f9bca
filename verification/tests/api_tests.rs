use tc::analytics::TrafficAnalyzer;
use tc::api::{
    add_listener_ip, add_listener_port, get_dashboard, get_ip_history, get_ip_protocols,
    get_listeners, get_system_status, get_top_ports, health_check, ip_str_to_u32, is_valid_ip,
    parse_time_range, remove_listener_ip, remove_listener_port, top_ports_limit, ApiResponse,
    TimeRangeQuery,
};
use tc::listener_config::{
    AddListenerIpRequest, AddListenerPortRequest, ConfigError, ListenerConfig,
    RemoveListenerIpRequest, RemoveListenerPortRequest,
};
use tc::snapshot::Snapshot;
use tc::stats::{EnhancedTrafficStats, FlowKey, PortStats, ProtocolStats};
use tc::storage::TrafficStorage;
use tc::target_ip::{get_target_ip, parse_target, parse_u8, split_pieces, Piece, TargetIp};
use tc::time::Timestamp;

fn at(secs: i64) -> Timestamp {
    Timestamp { secs, nanos: 0 }
}

fn stored() -> TrafficStorage {
    let mut stats = EnhancedTrafficStats::new(6);
    stats.inbound_bytes = 10;
    let snapshot = Snapshot::from_entries(
        &vec![(FlowKey { ip: 0x0a000005, port: 443, protocol: 6, direction: 0 }, stats)],
        &vec![(0x0a000005u32, ProtocolStats::new())],
        &vec![
            (443u16, PortStats { port: 443, protocol: 6, total_bytes: 10, total_packets: 1, active_connections: 1, last_active: 0 }),
            (80u16, PortStats { port: 80, protocol: 6, total_bytes: 20, total_packets: 1, active_connections: 1, last_active: 0 }),
        ],
    );
    let mut store = TrafficStorage::new();
    store.store_traffic_snapshot(&snapshot, at(1000)).unwrap();
    store
}

#[test]
fn a_response_carries_data_or_refuses() {
    let ok = ApiResponse::success(5u8, at(9));
    assert!(ok.success);
    assert_eq!(ok.data, Some(5));
    assert_eq!(ok.error, None);
    assert_eq!(ok.timestamp, at(9));
    let no: ApiResponse<u8> = ApiResponse::error("no".to_string(), at(9));
    assert!(!no.success);
    assert_eq!(no.data, None);
    assert_eq!(no.error.as_deref(), Some("no"));
    assert_eq!(no.timestamp, at(9));
}

#[test]
fn the_stretch_of_a_request() {
    let q = |hours, start, end| TimeRangeQuery { hours, start, end };
    let now = Timestamp { secs: 10_000, nanos: 7 };
    assert_eq!(parse_time_range(&q(None, None, None), now), Some((Timestamp { secs: 6400, nanos: 7 }, now)));
    assert_eq!(parse_time_range(&q(Some(2), None, None), now), Some((Timestamp { secs: 2800, nanos: 7 }, now)));
    assert_eq!(parse_time_range(&q(Some(-1), None, None), now), Some((Timestamp { secs: 13_600, nanos: 7 }, now)));
    assert_eq!(parse_time_range(&q(Some(2), Some(at(5)), None), now), Some((at(5), now)));
    assert_eq!(parse_time_range(&q(None, None, Some(at(7200))), now), Some((at(3600), at(7200))));
    assert_eq!(parse_time_range(&q(Some(1), Some(at(9)), Some(at(3))), now), Some((at(9), at(3))));
    assert_eq!(parse_time_range(&q(Some(i64::MAX), None, None), now), None);
    assert_eq!(parse_time_range(&q(Some(i64::MIN), None, None), now), None);
    assert_eq!(parse_time_range(&q(Some(1), None, Some(at(i64::MIN))), now), None);
    assert_eq!(top_ports_limit(None), 10);
    assert_eq!(top_ports_limit(Some(0)), 0);
    assert_eq!(top_ports_limit(Some(50)), 50);
    assert_eq!(top_ports_limit(Some(51)), 50);
    assert_eq!(top_ports_limit(Some(usize::MAX)), 50);
}

#[test]
fn requests_about_an_address() {
    let store = stored();
    assert!(is_valid_ip("10.0.0.5"));
    assert!(!is_valid_ip("10.0.0"));
    assert_eq!(ip_str_to_u32("10.0.0.5"), Ok(0x0a000005));
    assert_eq!(ip_str_to_u32("ten"), Err(ConfigError::InvalidIp));

    let r = get_ip_history(&store, "10.0.0.5", at(0), at(2000), at(3000));
    assert!(r.success);
    assert_eq!(r.timestamp, at(3000));
    let records = r.data.unwrap();
    assert_eq!(records.len(), 1);
    assert_eq!(records[0].stats.inbound_bytes, 10);
    assert_eq!(records[0].timestamp, at(1000));
    let r = get_ip_history(&store, "10.0.0.6", at(0), at(2000), at(3000));
    assert_eq!(r.data.unwrap().len(), 0);
    let r = get_ip_history(&store, "10.0.0.256", at(0), at(2000), at(3000));
    assert!(!r.success);
    assert!(r.data.is_none());
    assert_eq!(r.error.as_deref(), Some("无效的 IP 地址格式"));

    let r = get_ip_protocols(&store, "10.0.0.5", at(0), at(1001), at(3000));
    let history = r.data.unwrap();
    assert_eq!(history.len(), 1);
    assert_eq!(history[0].ip, 0x0a000005);
    assert_eq!(history[0].timestamp, at(1000));
    // the end of the stretch is not part of it
    let r = get_ip_protocols(&store, "10.0.0.5", at(0), at(1000), at(3000));
    assert!(r.success);
    assert_eq!(r.data.unwrap().len(), 0);
    let r = get_ip_history(&store, "10.0.0.5", at(0), at(1000), at(3000));
    assert_eq!(r.data.unwrap().len(), 0);
    let r = get_ip_protocols(&store, "", at(0), at(1000), at(3000));
    assert_eq!(r.error.as_deref(), Some("无效的 IP 地址格式"));

    let r = get_top_ports(&store, None, at(0), at(2000), at(3000));
    let ports = r.data.unwrap();
    assert_eq!(ports.iter().map(|p| p.port).collect::<Vec<u16>>(), vec![80, 443]);
    assert_eq!(ports[0].timestamp, at(2000));
    let r = get_top_ports(&store, Some(1), at(0), at(2000), at(3000));
    assert_eq!(r.data.unwrap().len(), 1);

    let r = get_system_status(&store, at(1030));
    let status = r.data.unwrap();
    assert_eq!((status.active_flows, status.monitored_ips, status.active_ports), (1, 1, 2));
    assert_eq!(status.last_updated, at(1030));
    assert_eq!(status.storage_status, "正常");
    let status = get_system_status(&store, at(5000)).data.unwrap();
    assert_eq!((status.active_flows, status.monitored_ips, status.active_ports), (0, 0, 0));
}

#[test]
fn the_dashboard_and_the_health_of_the_service() {
    let none = None;
    let r = get_dashboard(&none, at(1));
    assert!(!r.success);
    assert!(r.data.is_none());
    assert_eq!(r.error.as_deref(), Some("尚无可用数据"));
    let data = TrafficAnalyzer::new(at(0)).analyze_ebpf_data(&Snapshot::from_entries(&vec![], &vec![], &vec![]), at(5));
    let some = Some(data);
    let r = get_dashboard(&some, at(6));
    assert!(r.success);
    assert_eq!(r.data.unwrap().realtime_metrics.last_updated, at(5));
    assert_eq!(r.timestamp, at(6));

    let r = health_check(at(2));
    assert!(r.success);
    let entries = r.data.unwrap();
    assert_eq!(
        entries.iter().map(|e| (e.name.as_str(), e.value.as_str())).collect::<Vec<_>>(),
        vec![("status", "healthy"), ("service", "tc-network-monitor")]
    );
}

#[test]
fn requests_to_edit_the_watch_list() {
    let mut config = ListenerConfig::new("eth0".to_string());
    let r = add_listener_ip(&mut config, &AddListenerIpRequest { ip: "10.0.0.5".to_string() }, at(1));
    assert!(r.success);
    let result = r.data.unwrap();
    assert!(result.success);
    assert_eq!(result.message, "成功添加监听 IP 地址: 10.0.0.5");
    let r = add_listener_ip(&mut config, &AddListenerIpRequest { ip: "10.0.0.5".to_string() }, at(1));
    assert!(r.success);
    assert!(!r.data.unwrap().success);
    let r = add_listener_ip(&mut config, &AddListenerIpRequest { ip: "invalid.ip.address".to_string() }, at(1));
    assert!(!r.success);
    assert_eq!(r.error.as_deref(), Some("无效的 IP 地址格式: invalid.ip.address"));
    let r = remove_listener_ip(&mut config, &RemoveListenerIpRequest { ip: "nope".to_string() }, at(1));
    assert_eq!(r.error.as_deref(), Some("无效的 IP 地址格式: nope"));
    let r = add_listener_port(&mut config, &AddListenerPortRequest { port: 0 }, at(1));
    assert!(!r.success);
    assert_eq!(r.error.as_deref(), Some("端口号不能为 0"));
    let r = add_listener_port(&mut config, &AddListenerPortRequest { port: 9090 }, at(1));
    assert_eq!(r.data.unwrap().message, "成功添加监听端口: 9090");
    let r = get_listeners(&config, at(2));
    let shown = r.data.unwrap();
    assert_eq!(shown.listen_ips, vec!["10.0.0.5"]);
    assert_eq!(shown.listen_ports, vec![9090]);
    assert_eq!(shown.interface, "eth0");
    let r = remove_listener_port(&mut config, &RemoveListenerPortRequest { port: 0 }, at(1));
    assert_eq!(r.error.as_deref(), Some("端口号不能为 0"));
    let r = remove_listener_port(&mut config, &RemoveListenerPortRequest { port: 9090 }, at(1));
    assert!(r.data.unwrap().success);
    let r = remove_listener_port(&mut config, &RemoveListenerPortRequest { port: 9090 }, at(1));
    assert!(!r.data.unwrap().success);
    let r = remove_listener_ip(&mut config, &RemoveListenerIpRequest { ip: "10.0.0.5".to_string() }, at(1));
    assert!(r.data.unwrap().success);
    assert_eq!(config.get_listen_ips_u32(), Vec::<u32>::new());
    assert_eq!(config.get_listen_ports(), Vec::<u16>::new());
}

#[test]
fn a_line_of_watched_addresses() {
    assert_eq!(get_target_ip("10.0.0.5"), Some(vec![TargetIp(0x0a000005)]));
    assert_eq!(
        get_target_ip("10.0.0.5,192.168.1.100,0.0.0.0,255.255.255.255"),
        Some(vec![TargetIp(0x0a000005), TargetIp(0xc0a80164), TargetIp(0), TargetIp(u32::MAX)])
    );
    assert_eq!(get_target_ip("010.+0.000.005"), Some(vec![TargetIp(0x0a000005)]));
    assert_eq!(get_target_ip("1.2.3.4,1.2.3.4"), Some(vec![TargetIp(0x01020304), TargetIp(0x01020304)]));
    for bad in [
        "", ",", "1.2.3.4,", ",1.2.3.4", "1.2.3", "1.2.3.4.5", "1.2.3.256", "1.2.3.-4", "1.2.3.", "1..3.4",
        "1.2.3.4 ", " 1.2.3.4", "1.2.3.4, 5.6.7.8", "1.2.3.+", "a.b.c.d", "1.2.3.4;5.6.7.8", "1.2.3.٤",
    ] {
        assert_eq!(get_target_ip(bad), None, "{:?}", bad);
    }
    for text in ["0", "7", "255", "+255", "000255", "256", "", "+", "-1", "1a", " 1", "+-1", "99999999999999999999"] {
        assert_eq!(parse_u8(text.as_bytes()), text.parse::<u8>().ok(), "{:?}", text);
    }
    assert_eq!(parse_target(b"1.2.3.4"), Some(0x01020304));
    assert_eq!(parse_target(b"1.2.3.4.5"), None);
    for (text, sep) in [("a,b", b','), ("", b','), (",", b','), ("a,,b,", b','), ("1.2.3.4", b'.'), ("abc", b',')] {
        let pieces = split_pieces(text.as_bytes(), sep);
        let got: Vec<&str> = pieces.iter().map(|p| &text[p.start..p.end]).collect();
        let expected: Vec<&str> = text.split(sep as char).collect();
        assert_eq!(got, expected, "{:?}", text);
    }
    assert_eq!(split_pieces(b"a,bc", b','), vec![Piece { start: 0, end: 1 }, Piece { start: 2, end: 4 }]);
}
