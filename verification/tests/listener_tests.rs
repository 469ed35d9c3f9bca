use tc::ipv4::{format_ipv4, parse_ipv4};
use tc::listener_config::{
    invalid_ip_message, validate_ip_address, validate_port, ConfigError, ListenerConfig,
};
use tc::target_ip::TargetIp;

#[test]
fn test_listener_config_basic_operations() {
    let mut config = ListenerConfig::new("eth0".to_string());

    let result = config.add_listen_ip("192.168.1.100").unwrap();
    assert!(result.success);

    let result = config.add_listen_ip("192.168.1.100").unwrap();
    assert!(!result.success);

    let result = config.add_listen_port(8080).unwrap();
    assert!(result.success);

    let result = config.add_listen_port(8080).unwrap();
    assert!(!result.success);

    let config_response = config.get_config();
    assert_eq!(config_response.listen_ips.len(), 1);
    assert_eq!(config_response.listen_ports.len(), 1);
    assert_eq!(config_response.interface, "eth0");
}

#[test]
fn test_ip_validation() {
    assert!(validate_ip_address("192.168.1.1").is_ok());
    assert!(validate_ip_address("10.0.0.1").is_ok());
    assert!(validate_ip_address("invalid_ip").is_err());
    assert!(validate_ip_address("256.256.256.256").is_err());
}

#[test]
fn test_port_validation() {
    assert!(validate_port(80).is_ok());
    assert!(validate_port(8080).is_ok());
    assert!(validate_port(65535).is_ok());
    assert!(validate_port(0).is_err());
}

#[test]
fn edits_answer_in_the_words_of_the_list() {
    let mut config = ListenerConfig::new("eth0".to_string());
    let r = config.add_listen_ip("10.1.2.3").unwrap();
    assert_eq!(r.message, "成功添加监听 IP 地址: 10.1.2.3");
    assert_eq!(r.affected_item.as_deref(), Some("10.1.2.3"));
    let r = config.add_listen_ip("10.1.2.3").unwrap();
    assert_eq!(r.message, "IP 地址 10.1.2.3 已经在监听列表中");
    let r = config.remove_listen_ip("10.1.2.4").unwrap();
    assert!(!r.success);
    assert_eq!(r.message, "IP 地址 10.1.2.4 不在监听列表中");
    let r = config.remove_listen_ip("10.1.2.3").unwrap();
    assert!(r.success);
    assert_eq!(r.message, "成功移除监听 IP 地址: 10.1.2.3");
    assert_eq!(config.get_listen_ips_u32(), Vec::<u32>::new());

    assert_eq!(config.add_listen_ip("10.1.2").unwrap_err(), ConfigError::InvalidIp);
    assert_eq!(config.remove_listen_ip("x").unwrap_err(), ConfigError::InvalidIp);
    assert_eq!(invalid_ip_message("x"), "无效的 IP 地址格式: x");

    assert_eq!(config.add_listen_port(0).unwrap_err(), ConfigError::ZeroPort);
    assert_eq!(ConfigError::ZeroPort.message(), "端口号不能为 0");
    let r = config.add_listen_port(443).unwrap();
    assert_eq!(r.message, "成功添加监听端口: 443");
    assert_eq!(r.affected_item.as_deref(), Some("443"));
    let r = config.add_listen_port(443).unwrap();
    assert_eq!(r.message, "端口 443 已经在监听列表中");
    let r = config.remove_listen_port(80).unwrap();
    assert!(!r.success);
    assert_eq!(r.message, "端口 80 不在监听列表中");
    let r = config.remove_listen_port(443).unwrap();
    assert!(r.success);
    assert_eq!(r.message, "成功移除监听端口: 443");
    assert_eq!(config.get_listen_ports(), Vec::<u16>::new());
}

#[test]
fn the_list_keeps_the_order_of_arrival() {
    let mut config = ListenerConfig::from_target_ips("wlan0".to_string(), vec![5, 3, 5, 9]);
    assert_eq!(config.get_listen_ips_u32(), vec![5, 3, 9]);
    config.add_listen_ip("0.0.0.4").unwrap();
    config.remove_listen_ip("0.0.0.3").unwrap();
    assert_eq!(config.get_listen_ips_u32(), vec![5, 9, 4]);
    config.add_listen_port(9).unwrap();
    config.add_listen_port(7).unwrap();
    config.add_listen_port(8).unwrap();
    config.remove_listen_port(7).unwrap();
    assert_eq!(config.get_listen_ports(), vec![9, 8]);
    let response = config.get_config();
    assert_eq!(response.listen_ips, vec!["0.0.0.5", "0.0.0.9", "0.0.0.4"]);
    assert_eq!(response.listen_ports, vec![9, 8]);
    assert_eq!(response.interface, "wlan0");
    assert_eq!(config.get_interface(), "wlan0");
    assert!(config.set_interface("eth1".to_string()).is_ok());
    assert_eq!(config.get_interface(), "eth1");
    assert_eq!(config.parse_ip("1.2.3.4"), Ok(0x01020304));
    assert_eq!(config.parse_ip("1.2.3.400"), Err(ConfigError::InvalidIp));
    assert_eq!(config.u32_to_ip_string(0x01020304), "1.2.3.4");
}

#[test]
fn addresses_are_read_in_dotted_form_only() {
    assert_eq!(parse_ipv4(b"0.0.0.0"), Some(0));
    assert_eq!(parse_ipv4(b"255.255.255.255"), Some(u32::MAX));
    assert_eq!(parse_ipv4(b"192.168.1.100"), Some(0xc0a80164));
    assert_eq!(parse_ipv4(b"10.0.0.1"), Some(0x0a000001));
    for bad in [
        "", ".", "1", "1.2.3", "1.2.3.", ".1.2.3", "1.2.3.4.", "1.2.3.4.5", "1..2.3", "01.2.3.4",
        "1.2.3.04", "00.0.0.0", "256.1.1.1", "1.2.3.256", "1.2.3.1000", "1.2.3.4 ", " 1.2.3.4",
        "+1.2.3.4", "1.2.3.-4", "a.b.c.d", "1,2,3,4", "1.2.3.4\n", "１.2.3.4",
    ] {
        assert_eq!(parse_ipv4(bad.as_bytes()), None, "{}", bad);
        assert!(validate_ip_address(bad).is_err(), "{}", bad);
    }
}

#[test]
fn addresses_are_written_and_read_back() {
    for ip in [0u32, 1, 255, 256, 0x0a000005, 0xc0a80164, 0x7f000001, u32::MAX, 0x01020304] {
        let text = format_ipv4(ip);
        let bytes = ip.to_be_bytes();
        assert_eq!(text, format!("{}.{}.{}.{}", bytes[0], bytes[1], bytes[2], bytes[3]));
        assert_eq!(parse_ipv4(text.as_bytes()), Some(ip));
        assert_eq!(TargetIp(ip).to_string(), text);
    }
    assert_eq!(TargetIp(0x0a000005).to_string(), "10.0.0.5");
}
