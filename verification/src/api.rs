//! What the query interface answers: the plain values behind each request
//! and response. Reading a request and sending a response are left to the
//! program around the library.

use vstd::prelude::*;
use vstd::string::{StringExecFns, StringSliceAdditionalSpecFns};
use crate::analytics::DashboardData;
use crate::ipv4::{parse_ipv4, parse_ipv4_spec};
use crate::listener_config::{
    add_ip_words,
    add_port_words,
    invalid_ip_message,
    remove_ip_words,
    remove_port_words,
    validate_port,
    with_item,
    without_item,
    AddListenerIpRequest,
    AddListenerPortRequest,
    ConfigError,
    ListenerConfig,
    ListenerConfigResponse,
    ListenerOperationResult,
    RemoveListenerIpRequest,
    RemoveListenerPortRequest,
};
use crate::listing::scanned;
use crate::records::{FlowRecord, PortRecord, ProtocolRecord};
use crate::storage::{
    decoded_flows,
    decoded_ports,
    decoded_protocols,
    minute_before,
    top_ports_spec,
    TrafficStorage,
};
use crate::storage_keys::{Bounds, Family};
use crate::text::decimal_text;
use crate::time::Timestamp;

verus! {

/// The ports that a ranking request gets where it names no number.
pub const DEFAULT_TOP_PORTS: usize = 10;

/// The most ports that a ranking request can get.
pub const MAX_TOP_PORTS: usize = 50;

/// Seconds in an hour.
pub const SECONDS_PER_HOUR: i64 = 3600;

/// The answer to a request: the data asked for, or why there is none.
#[derive(Debug)]
pub struct ApiResponse<T> {
    pub success: bool,
    pub data: Option<T>,
    pub error: Option<String>,
    pub timestamp: Timestamp,
}

impl<T> ApiResponse<T> {
    /// Whether the response carries `data` and no error.
    pub open spec fn carries(&self, data: T, now: Timestamp) -> bool {
        &&& self.success
        &&& self.data == Some(data)
        &&& self.error is None
        &&& self.timestamp == now
    }

    /// Whether the response refuses with the words `words`.
    pub open spec fn refuses(&self, words: Seq<char>, now: Timestamp) -> bool {
        &&& !self.success
        &&& self.data is None
        &&& self.error matches Some(e)
        &&& e@ == words
        &&& self.timestamp == now
    }

    /// A response that carries `data`.
    pub fn success(data: T, now: Timestamp) -> (r: Self)
        ensures
            r.carries(data, now),
    {
        ApiResponse { success: true, data: Some(data), error: None, timestamp: now }
    }

    /// A response that refuses with `error`.
    pub fn error(error: String, now: Timestamp) -> (r: Self)
        ensures
            r.refuses(error@, now),
    {
        ApiResponse { success: false, data: None, error: Some(error), timestamp: now }
    }
}

/// The stretch of time that a request asks about: its start and end where
/// it names them, and else a number of hours back from the end.
#[derive(Clone, Copy, Debug, PartialEq, Eq, Structural)]
pub struct TimeRangeQuery {
    pub hours: Option<i64>,
    pub start: Option<Timestamp>,
    pub end: Option<Timestamp>,
}

/// A request about one address.
#[derive(Debug)]
pub struct IpQuery {
    pub ip: String,
    pub time_range: TimeRangeQuery,
}

/// A request for the ports with the most traffic.
#[derive(Clone, Copy, Debug, PartialEq, Eq, Structural)]
pub struct TopPortsQuery {
    pub limit: Option<usize>,
    pub time_range: TimeRangeQuery,
}

/// How much the store holds of the last minute.
#[derive(Debug)]
pub struct SystemStatus {
    pub active_flows: usize,
    pub monitored_ips: usize,
    pub active_ports: usize,
    pub last_updated: Timestamp,
    pub storage_status: String,
}

/// The stretch of time that `query` asks about at `now`. The end is the
/// one named, or `now`. The start is the one named, or the end less the
/// hours named, or less one hour; `None` where that start is no second
/// that can be written.
pub open spec fn time_range_spec(query: TimeRangeQuery, now: Timestamp) -> Option<
    (Timestamp, Timestamp),
> {
    let end = match query.end {
        Some(end) => end,
        None => now,
    };
    match query.start {
        Some(start) => Some((start, end)),
        None => {
            let hours = match query.hours {
                Some(hours) => hours,
                None => 1,
            };
            let secs = end.secs - hours * SECONDS_PER_HOUR;
            if i64::MIN <= secs <= i64::MAX {
                Some((Timestamp { secs: secs as i64, nanos: end.nanos }, end))
            } else {
                None
            }
        },
    }
}

/// The stretch of time that `query` asks about at `now`.
pub fn parse_time_range(query: &TimeRangeQuery, now: Timestamp) -> (r: Option<
    (Timestamp, Timestamp),
>)
    ensures
        r == time_range_spec(*query, now),
{
    let end = match query.end {
        Some(end) => end,
        None => now,
    };
    match query.start {
        Some(start) => Some((start, end)),
        None => {
            let hours: i64 = match query.hours {
                Some(hours) => hours,
                None => 1,
            };
            let back: i128 = (hours as i128) * 3600;
            let secs: i128 = (end.secs as i128) - back;
            if secs < -0x8000_0000_0000_0000 || secs > 0x7fff_ffff_ffff_ffff {
                None
            } else {
                Some((Timestamp { secs: secs as i64, nanos: end.nanos }, end))
            }
        },
    }
}

/// The number of ports that a ranking request gets: the number it names
/// or ten, and never more than fifty.
pub fn top_ports_limit(limit: Option<usize>) -> (r: usize)
    ensures
        r == match limit {
            Some(n) => if n <= MAX_TOP_PORTS {
                n
            } else {
                MAX_TOP_PORTS
            },
            None => DEFAULT_TOP_PORTS,
        },
{
    match limit {
        Some(n) => if n <= MAX_TOP_PORTS {
            n
        } else {
            MAX_TOP_PORTS
        },
        None => DEFAULT_TOP_PORTS,
    }
}

/// Whether `ip` is an IPv4 address in dotted form.
pub fn is_valid_ip(ip: &str) -> (r: bool)
    ensures
        r == parse_ipv4_spec(ip.spec_bytes()) is Some,
{
    parse_ipv4(ip.as_bytes()).is_some()
}

/// The address that `ip` spells.
pub fn ip_str_to_u32(ip: &str) -> (r: Result<u32, ConfigError>)
    ensures
        r == match parse_ipv4_spec(ip.spec_bytes()) {
            Some(addr) => Ok::<u32, ConfigError>(addr),
            None => Err::<u32, ConfigError>(ConfigError::InvalidIp),
        },
{
    match parse_ipv4(ip.as_bytes()) {
        Some(addr) => Ok(addr),
        None => Err(ConfigError::InvalidIp),
    }
}

/// The dashboard of the last cycle, or a refusal where no cycle has run.
pub fn get_dashboard<'a>(latest: &'a Option<DashboardData>, now: Timestamp) -> (r: ApiResponse<
    &'a DashboardData,
>)
    ensures
        match latest {
            Some(data) => r.carries(data, now),
            None => r.refuses("尚无可用数据"@, now),
        },
{
    match latest {
        Some(data) => ApiResponse::success(data, now),
        None => ApiResponse::error(String::from_str("尚无可用数据"), now),
    }
}

/// The flow records of the address that `ip` spells, from `start` up to,
/// but not at, `end`. A text that spells no address is refused.
pub fn get_ip_history(
    storage: &TrafficStorage,
    ip: &str,
    start: Timestamp,
    end: Timestamp,
    now: Timestamp,
) -> (r: ApiResponse<Vec<FlowRecord>>)
    requires
        storage.wf(),
    ensures
        match parse_ipv4_spec(ip.spec_bytes()) {
            Some(addr) => {
                &&& r.success
                &&& r.error is None
                &&& r.timestamp == now
                &&& r.data matches Some(records)
                &&& records@ == decoded_flows(
                    scanned(
                        storage.listing(),
                        Bounds::by_dimension(
                            Family::IpFlows,
                            addr as nat,
                            start.secs as int,
                            end.secs as int,
                        ),
                    ),
                )
            },
            None => r.refuses("无效的 IP 地址格式"@, now),
        },
{
    match parse_ipv4(ip.as_bytes()) {
        Some(addr) => ApiResponse::success(storage.get_ip_flows_history(addr, start, end), now),
        None => ApiResponse::error(String::from_str("无效的 IP 地址格式"), now),
    }
}

/// The protocol records of the address that `ip` spells, from `start` up
/// to, but not at, `end`. A text that spells no address is refused.
pub fn get_ip_protocols(
    storage: &TrafficStorage,
    ip: &str,
    start: Timestamp,
    end: Timestamp,
    now: Timestamp,
) -> (r: ApiResponse<Vec<ProtocolRecord>>)
    requires
        storage.wf(),
    ensures
        match parse_ipv4_spec(ip.spec_bytes()) {
            Some(addr) => {
                &&& r.success
                &&& r.error is None
                &&& r.timestamp == now
                &&& r.data matches Some(records)
                &&& records@ == decoded_protocols(
                    scanned(
                        storage.listing(),
                        Bounds::ip_protocol(addr, start.secs as int, end.secs as int),
                    ),
                )
            },
            None => r.refuses("无效的 IP 地址格式"@, now),
        },
{
    match parse_ipv4(ip.as_bytes()) {
        Some(addr) => ApiResponse::success(
            storage.get_protocol_stats_history(addr, start, end),
            now,
        ),
        None => ApiResponse::error(String::from_str("无效的 IP 地址格式"), now),
    }
}

/// The ports with the most bytes from `start` up to, but not at, `end`:
/// as many as the request names, ten where it names none, fifty at most.
pub fn get_top_ports(
    storage: &TrafficStorage,
    limit: Option<usize>,
    start: Timestamp,
    end: Timestamp,
    now: Timestamp,
) -> (r: ApiResponse<Vec<PortRecord>>)
    requires
        storage.wf(),
    ensures
        r.success,
        r.error is None,
        r.timestamp == now,
        r.data matches Some(records) && records@ == top_ports_spec(
            decoded_ports(
                scanned(
                    storage.listing(),
                    Bounds::by_time(Family::PortStats, start.secs as int, end.secs as int),
                ),
            ),
            end,
            match limit {
                Some(n) => if n <= MAX_TOP_PORTS {
                    n as nat
                } else {
                    MAX_TOP_PORTS as nat
                },
                None => DEFAULT_TOP_PORTS as nat,
            },
        ),
{
    ApiResponse::success(storage.get_top_ports(start, end, top_ports_limit(limit)), now)
}

/// How much the store holds of the minute before `now`.
pub fn get_system_status(storage: &TrafficStorage, now: Timestamp) -> (r: ApiResponse<SystemStatus>)
    requires
        storage.wf(),
    ensures
        r.success,
        r.error is None,
        r.timestamp == now,
        r.data matches Some(status) && ({
            let start = minute_before(now.secs) as int;
            &&& status.active_flows == decoded_flows(
                scanned(storage.listing(), Bounds::by_time(Family::Flow, start, now.secs as int)),
            ).len()
            &&& status.monitored_ips == decoded_protocols(
                scanned(
                    storage.listing(),
                    Bounds::by_time(Family::Protocol, start, now.secs as int),
                ),
            ).len()
            &&& status.active_ports == decoded_ports(
                scanned(
                    storage.listing(),
                    Bounds::by_time(Family::PortStats, start, now.secs as int),
                ),
            ).len()
            &&& status.last_updated == now
            &&& status.storage_status@ == "正常"@
        }),
{
    let (flows, protocols, ports) = storage.get_latest_snapshot(now);
    ApiResponse::success(
        SystemStatus {
            active_flows: flows.len(),
            monitored_ips: protocols.len(),
            active_ports: ports.len(),
            last_updated: now,
            storage_status: String::from_str("正常"),
        },
        now,
    )
}

/// One name and what it stands for.
#[derive(Debug)]
pub struct Entry {
    pub name: String,
    pub value: String,
}

/// That the service is up: its status and its name.
pub fn health_check(now: Timestamp) -> (r: ApiResponse<Vec<Entry>>)
    ensures
        r.success,
        r.error is None,
        r.timestamp == now,
        r.data matches Some(entries) && ({
            &&& entries@.len() == 2
            &&& entries@[0].name@ == "status"@
            &&& entries@[0].value@ == "healthy"@
            &&& entries@[1].name@ == "service"@
            &&& entries@[1].value@ == "tc-network-monitor"@
        }),
{
    let mut entries: Vec<Entry> = Vec::new();
    entries.push(Entry { name: String::from_str("status"), value: String::from_str("healthy") });
    entries.push(
        Entry { name: String::from_str("service"), value: String::from_str("tc-network-monitor") },
    );
    ApiResponse::success(entries, now)
}

/// The watch-list as it stands.
pub fn get_listeners(config: &ListenerConfig, now: Timestamp) -> (r: ApiResponse<
    ListenerConfigResponse,
>)
    requires
        config.wf(),
    ensures
        r.success,
        r.error is None,
        r.timestamp == now,
        r.data matches Some(response) && config.shown_as(response),
{
    ApiResponse::success(config.get_config(), now)
}

/// Puts the address of a request on the watch-list. A text that spells no
/// address is refused, and the list stays as it was.
pub fn add_listener_ip(config: &mut ListenerConfig, request: &AddListenerIpRequest, now: Timestamp) -> (r:
    ApiResponse<ListenerOperationResult>)
    requires
        old(config).wf(),
    ensures
        final(config).wf(),
        final(config).ports() == old(config).ports(),
        final(config).interface_name() == old(config).interface_name(),
        r.timestamp == now,
        match parse_ipv4_spec(vstd::utf8::encode_utf8(request.ip@)) {
            Some(ip) => {
                &&& final(config).ips() == with_item(old(config).ips(), ip as u64)
                &&& r.success
                &&& r.error is None
                &&& r.data matches Some(result)
                &&& result.says(
                    !old(config).ips().contains(ip as u64),
                    add_ip_words(request.ip@, !old(config).ips().contains(ip as u64)),
                    request.ip@,
                )
            },
            None => final(config).ips() == old(config).ips() && r.refuses(
                "无效的 IP 地址格式: "@ + request.ip@,
                now,
            ),
        },
{
    match config.add_listen_ip(request.ip.as_str()) {
        Ok(result) => ApiResponse::success(result, now),
        Err(_) => ApiResponse::error(invalid_ip_message(request.ip.as_str()), now),
    }
}

/// Takes the address of a request off the watch-list. A text that spells
/// no address is refused, and the list stays as it was.
pub fn remove_listener_ip(
    config: &mut ListenerConfig,
    request: &RemoveListenerIpRequest,
    now: Timestamp,
) -> (r: ApiResponse<ListenerOperationResult>)
    requires
        old(config).wf(),
    ensures
        final(config).wf(),
        final(config).ports() == old(config).ports(),
        final(config).interface_name() == old(config).interface_name(),
        r.timestamp == now,
        match parse_ipv4_spec(vstd::utf8::encode_utf8(request.ip@)) {
            Some(ip) => {
                &&& final(config).ips() == without_item(old(config).ips(), ip as u64)
                &&& r.success
                &&& r.error is None
                &&& r.data matches Some(result)
                &&& result.says(
                    old(config).ips().contains(ip as u64),
                    remove_ip_words(request.ip@, old(config).ips().contains(ip as u64)),
                    request.ip@,
                )
            },
            None => final(config).ips() == old(config).ips() && r.refuses(
                "无效的 IP 地址格式: "@ + request.ip@,
                now,
            ),
        },
{
    match config.remove_listen_ip(request.ip.as_str()) {
        Ok(result) => ApiResponse::success(result, now),
        Err(_) => ApiResponse::error(invalid_ip_message(request.ip.as_str()), now),
    }
}

/// Puts the port of a request on the watch-list. Port 0 is refused, and
/// the list stays as it was.
pub fn add_listener_port(
    config: &mut ListenerConfig,
    request: &AddListenerPortRequest,
    now: Timestamp,
) -> (r: ApiResponse<ListenerOperationResult>)
    requires
        old(config).wf(),
    ensures
        final(config).wf(),
        final(config).ips() == old(config).ips(),
        final(config).interface_name() == old(config).interface_name(),
        r.timestamp == now,
        if request.port == 0 {
            final(config).ports() == old(config).ports() && r.refuses("端口号不能为 0"@, now)
        } else {
            &&& final(config).ports() == with_item(old(config).ports(), request.port as u64)
            &&& r.success
            &&& r.error is None
            &&& r.data matches Some(result)
            &&& result.says(
                !old(config).ports().contains(request.port as u64),
                add_port_words(
                    decimal_text(request.port as nat),
                    !old(config).ports().contains(request.port as u64),
                ),
                decimal_text(request.port as nat),
            )
        },
{
    match config.add_listen_port(request.port) {
        Ok(result) => ApiResponse::success(result, now),
        Err(e) => ApiResponse::error(e.message(), now),
    }
}

/// Takes the port of a request off the watch-list. Port 0 is refused, and
/// the list stays as it was.
pub fn remove_listener_port(
    config: &mut ListenerConfig,
    request: &RemoveListenerPortRequest,
    now: Timestamp,
) -> (r: ApiResponse<ListenerOperationResult>)
    requires
        old(config).wf(),
    ensures
        final(config).wf(),
        final(config).ips() == old(config).ips(),
        final(config).interface_name() == old(config).interface_name(),
        r.timestamp == now,
        if request.port == 0 {
            final(config).ports() == old(config).ports() && r.refuses("端口号不能为 0"@, now)
        } else {
            &&& final(config).ports() == without_item(old(config).ports(), request.port as u64)
            &&& r.success
            &&& r.error is None
            &&& r.data matches Some(result)
            &&& result.says(
                old(config).ports().contains(request.port as u64),
                remove_port_words(
                    decimal_text(request.port as nat),
                    old(config).ports().contains(request.port as u64),
                ),
                decimal_text(request.port as nat),
            )
        },
{
    match validate_port(request.port) {
        Ok(()) => {},
        Err(e) => {
            return ApiResponse::error(e.message(), now);
        },
    }
    match config.remove_listen_port(request.port) {
        Ok(result) => ApiResponse::success(result, now),
        Err(e) => ApiResponse::error(e.message(), now),
    }
}

} // verus!
