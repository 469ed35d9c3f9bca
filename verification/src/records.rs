//! The records that the store holds: a time, the dimension the counters
//! belong to, and the counters. A record is written as the bytes that
//! `bincode` gives for its fields in this order, the time as a
//! `chrono::DateTime<Utc>`.

use chrono::{DateTime, Utc};
use vstd::prelude::*;
use crate::serializable_types::{
    SerializableEnhancedTrafficStats,
    SerializableFlowKey,
    SerializablePortStats,
    SerializableProtocolStats,
};
use crate::time::Timestamp;

verus! {

/// Why a record could not be written.
#[derive(Clone, Copy, Debug, PartialEq, Eq, Structural)]
pub enum StorageError {
    /// The record has no stored form: its time is not one that the date
    /// library can hold, or the encoder refused it.
    Serialization,
}

/// The counters of one flow at one time.
#[derive(Clone, Copy, Debug, PartialEq, Eq, Structural)]
pub struct FlowRecord {
    pub timestamp: Timestamp,
    pub flow_key: SerializableFlowKey,
    pub stats: SerializableEnhancedTrafficStats,
}

/// The per-protocol counters of one address at one time.
#[derive(Clone, Copy, Debug, PartialEq, Eq, Structural)]
pub struct ProtocolRecord {
    pub timestamp: Timestamp,
    pub ip: u32,
    pub stats: SerializableProtocolStats,
}

/// The counters of one port at one time.
#[derive(Clone, Copy, Debug, PartialEq, Eq, Structural)]
pub struct PortRecord {
    pub timestamp: Timestamp,
    pub port: u16,
    pub stats: SerializablePortStats,
}

/// The bytes that `bincode::serialize` gives for a flow record's fields,
/// or `None` where it gives none.
pub uninterp spec fn flow_record_bytes(
    secs: i64,
    nanos: u32,
    key: (u32, u16, u8, u8),
    stats: (u64, u64, u64, u64, u8, u64, u32),
) -> Option<Seq<u8>>;

/// The fields that `bincode::deserialize` reads from the bytes of a flow
/// record, or `None` where it reads none.
pub uninterp spec fn flow_record_fields(bytes: Seq<u8>) -> Option<
    (i64, u32, (u32, u16, u8, u8), (u64, u64, u64, u64, u8, u64, u32)),
>;

/// The bytes that `bincode::serialize` gives for a protocol record's
/// fields, or `None` where it gives none.
pub uninterp spec fn protocol_record_bytes(
    secs: i64,
    nanos: u32,
    ip: u32,
    stats: (u32, u32, u64, u64, u64, u64),
) -> Option<Seq<u8>>;

/// The fields that `bincode::deserialize` reads from the bytes of a
/// protocol record, or `None` where it reads none.
pub uninterp spec fn protocol_record_fields(bytes: Seq<u8>) -> Option<
    (i64, u32, u32, (u32, u32, u64, u64, u64, u64)),
>;

/// The bytes that `bincode::serialize` gives for a port record's fields,
/// or `None` where it gives none.
pub uninterp spec fn port_record_bytes(
    secs: i64,
    nanos: u32,
    port: u16,
    stats: (u16, u8, u64, u64, u32, u64),
) -> Option<Seq<u8>>;

/// The fields that `bincode::deserialize` reads from the bytes of a port
/// record, or `None` where it reads none.
pub uninterp spec fn port_record_fields(bytes: Seq<u8>) -> Option<
    (i64, u32, u16, (u16, u8, u64, u64, u32, u64)),
>;

/// Calls `chrono::DateTime::from_timestamp` on the time and
/// `bincode::serialize` on the triple of that date, the key and the
/// counters. The result is a function of the arguments alone, and
/// `flow_record_bytes` is its name: nothing else is claimed of it.
#[verifier::external_body]
fn bincode_flow_record(
    secs: i64,
    nanos: u32,
    key: (u32, u16, u8, u8),
    stats: (u64, u64, u64, u64, u8, u64, u32),
) -> (res: Option<Vec<u8>>)
    ensures
        res is Some <==> flow_record_bytes(secs, nanos, key, stats) is Some,
        res matches Some(bytes) ==> flow_record_bytes(secs, nanos, key, stats) == Some(bytes@),
{
    let time = DateTime::<Utc>::from_timestamp(secs, nanos)?;
    bincode::serialize(&(time, key, stats)).ok()
}

/// Calls `bincode::deserialize` for a triple of a `DateTime<Utc>`, a key
/// and counters, and hands out the date as `timestamp()` and
/// `timestamp_subsec_nanos()` give it. The result is a function of the
/// bytes alone, and `flow_record_fields` is its name: nothing else is
/// claimed of it.
#[verifier::external_body]
fn bincode_flow_fields(bytes: &[u8]) -> (res: Option<
    (i64, u32, (u32, u16, u8, u8), (u64, u64, u64, u64, u8, u64, u32)),
>)
    ensures
        res == flow_record_fields(bytes@),
{
    let (time, key, stats): (
        DateTime<Utc>,
        (u32, u16, u8, u8),
        (u64, u64, u64, u64, u8, u64, u32),
    ) = bincode::deserialize(bytes).ok()?;
    Some((time.timestamp(), time.timestamp_subsec_nanos(), key, stats))
}

/// Calls `chrono::DateTime::from_timestamp` on the time and
/// `bincode::serialize` on the triple of that date, the address and the
/// counters. The result is a function of the arguments alone, and
/// `protocol_record_bytes` is its name: nothing else is claimed of it.
#[verifier::external_body]
fn bincode_protocol_record(
    secs: i64,
    nanos: u32,
    ip: u32,
    stats: (u32, u32, u64, u64, u64, u64),
) -> (res: Option<Vec<u8>>)
    ensures
        res is Some <==> protocol_record_bytes(secs, nanos, ip, stats) is Some,
        res matches Some(bytes) ==> protocol_record_bytes(secs, nanos, ip, stats) == Some(bytes@),
{
    let time = DateTime::<Utc>::from_timestamp(secs, nanos)?;
    bincode::serialize(&(time, ip, stats)).ok()
}

/// Calls `bincode::deserialize` for a triple of a `DateTime<Utc>`, an
/// address and counters, and hands out the date as `timestamp()` and
/// `timestamp_subsec_nanos()` give it. The result is a function of the
/// bytes alone, and `protocol_record_fields` is its name: nothing else is
/// claimed of it.
#[verifier::external_body]
fn bincode_protocol_fields(bytes: &[u8]) -> (res: Option<
    (i64, u32, u32, (u32, u32, u64, u64, u64, u64)),
>)
    ensures
        res == protocol_record_fields(bytes@),
{
    let (time, ip, stats): (DateTime<Utc>, u32, (u32, u32, u64, u64, u64, u64)) =
        bincode::deserialize(bytes).ok()?;
    Some((time.timestamp(), time.timestamp_subsec_nanos(), ip, stats))
}

/// Calls `chrono::DateTime::from_timestamp` on the time and
/// `bincode::serialize` on the triple of that date, the port and the
/// counters. The result is a function of the arguments alone, and
/// `port_record_bytes` is its name: nothing else is claimed of it.
#[verifier::external_body]
fn bincode_port_record(
    secs: i64,
    nanos: u32,
    port: u16,
    stats: (u16, u8, u64, u64, u32, u64),
) -> (res: Option<Vec<u8>>)
    ensures
        res is Some <==> port_record_bytes(secs, nanos, port, stats) is Some,
        res matches Some(bytes) ==> port_record_bytes(secs, nanos, port, stats) == Some(bytes@),
{
    let time = DateTime::<Utc>::from_timestamp(secs, nanos)?;
    bincode::serialize(&(time, port, stats)).ok()
}

/// Calls `bincode::deserialize` for a triple of a `DateTime<Utc>`, a port
/// and counters, and hands out the date as `timestamp()` and
/// `timestamp_subsec_nanos()` give it. The result is a function of the
/// bytes alone, and `port_record_fields` is its name: nothing else is
/// claimed of it.
#[verifier::external_body]
fn bincode_port_fields(bytes: &[u8]) -> (res: Option<
    (i64, u32, u16, (u16, u8, u64, u64, u32, u64)),
>)
    ensures
        res == port_record_fields(bytes@),
{
    let (time, port, stats): (DateTime<Utc>, u16, (u16, u8, u64, u64, u32, u64)) =
        bincode::deserialize(bytes).ok()?;
    Some((time.timestamp(), time.timestamp_subsec_nanos(), port, stats))
}

impl FlowRecord {
    /// The record's stored form, if it has one.
    pub open spec fn encoding(&self) -> Option<Seq<u8>> {
        flow_record_bytes(
            self.timestamp.secs,
            self.timestamp.nanos,
            (self.flow_key.ip, self.flow_key.port, self.flow_key.protocol, self.flow_key.direction),
            (
                self.stats.inbound_packets,
                self.stats.inbound_bytes,
                self.stats.outbound_packets,
                self.stats.outbound_bytes,
                self.stats.protocol,
                self.stats.last_seen,
                self.stats.connection_count,
            ),
        )
    }

    /// The record that stored bytes hold, if they hold one.
    pub open spec fn decoding(bytes: Seq<u8>) -> Option<FlowRecord> {
        match flow_record_fields(bytes) {
            Some((secs, nanos, key, stats)) => Some(
                FlowRecord {
                    timestamp: Timestamp { secs, nanos },
                    flow_key: SerializableFlowKey {
                        ip: key.0,
                        port: key.1,
                        protocol: key.2,
                        direction: key.3,
                    },
                    stats: SerializableEnhancedTrafficStats {
                        inbound_packets: stats.0,
                        inbound_bytes: stats.1,
                        outbound_packets: stats.2,
                        outbound_bytes: stats.3,
                        protocol: stats.4,
                        last_seen: stats.5,
                        connection_count: stats.6,
                    },
                },
            ),
            None => None,
        }
    }

    /// The record's stored form, or `Serialization` where it has none.
    pub fn encode(&self) -> (r: Result<Vec<u8>, StorageError>)
        ensures
            r is Ok <==> self.encoding() is Some,
            r matches Ok(bytes) ==> self.encoding() == Some(bytes@),
            r matches Err(e) ==> e == StorageError::Serialization,
    {
        let key = (
            self.flow_key.ip,
            self.flow_key.port,
            self.flow_key.protocol,
            self.flow_key.direction,
        );
        let stats = (
            self.stats.inbound_packets,
            self.stats.inbound_bytes,
            self.stats.outbound_packets,
            self.stats.outbound_bytes,
            self.stats.protocol,
            self.stats.last_seen,
            self.stats.connection_count,
        );
        match bincode_flow_record(self.timestamp.secs, self.timestamp.nanos, key, stats) {
            Some(bytes) => Ok(bytes),
            None => Err(StorageError::Serialization),
        }
    }

    /// The record that `bytes` hold, or `None` where they hold none.
    pub fn decode(bytes: &[u8]) -> (r: Option<FlowRecord>)
        ensures
            r == FlowRecord::decoding(bytes@),
    {
        match bincode_flow_fields(bytes) {
            Some((secs, nanos, key, stats)) => Some(
                FlowRecord {
                    timestamp: Timestamp { secs, nanos },
                    flow_key: SerializableFlowKey {
                        ip: key.0,
                        port: key.1,
                        protocol: key.2,
                        direction: key.3,
                    },
                    stats: SerializableEnhancedTrafficStats {
                        inbound_packets: stats.0,
                        inbound_bytes: stats.1,
                        outbound_packets: stats.2,
                        outbound_bytes: stats.3,
                        protocol: stats.4,
                        last_seen: stats.5,
                        connection_count: stats.6,
                    },
                },
            ),
            None => None,
        }
    }
}

impl ProtocolRecord {
    /// The record's stored form, if it has one.
    pub open spec fn encoding(&self) -> Option<Seq<u8>> {
        protocol_record_bytes(
            self.timestamp.secs,
            self.timestamp.nanos,
            self.ip,
            (
                self.stats.tcp_flows,
                self.stats.udp_flows,
                self.stats.tcp_bytes,
                self.stats.udp_bytes,
                self.stats.tcp_packets,
                self.stats.udp_packets,
            ),
        )
    }

    /// The record that stored bytes hold, if they hold one.
    pub open spec fn decoding(bytes: Seq<u8>) -> Option<ProtocolRecord> {
        match protocol_record_fields(bytes) {
            Some((secs, nanos, ip, stats)) => Some(
                ProtocolRecord {
                    timestamp: Timestamp { secs, nanos },
                    ip,
                    stats: SerializableProtocolStats {
                        tcp_flows: stats.0,
                        udp_flows: stats.1,
                        tcp_bytes: stats.2,
                        udp_bytes: stats.3,
                        tcp_packets: stats.4,
                        udp_packets: stats.5,
                    },
                },
            ),
            None => None,
        }
    }

    /// The record's stored form, or `Serialization` where it has none.
    pub fn encode(&self) -> (r: Result<Vec<u8>, StorageError>)
        ensures
            r is Ok <==> self.encoding() is Some,
            r matches Ok(bytes) ==> self.encoding() == Some(bytes@),
            r matches Err(e) ==> e == StorageError::Serialization,
    {
        let stats = (
            self.stats.tcp_flows,
            self.stats.udp_flows,
            self.stats.tcp_bytes,
            self.stats.udp_bytes,
            self.stats.tcp_packets,
            self.stats.udp_packets,
        );
        match bincode_protocol_record(self.timestamp.secs, self.timestamp.nanos, self.ip, stats) {
            Some(bytes) => Ok(bytes),
            None => Err(StorageError::Serialization),
        }
    }

    /// The record that `bytes` hold, or `None` where they hold none.
    pub fn decode(bytes: &[u8]) -> (r: Option<ProtocolRecord>)
        ensures
            r == ProtocolRecord::decoding(bytes@),
    {
        match bincode_protocol_fields(bytes) {
            Some((secs, nanos, ip, stats)) => Some(
                ProtocolRecord {
                    timestamp: Timestamp { secs, nanos },
                    ip,
                    stats: SerializableProtocolStats {
                        tcp_flows: stats.0,
                        udp_flows: stats.1,
                        tcp_bytes: stats.2,
                        udp_bytes: stats.3,
                        tcp_packets: stats.4,
                        udp_packets: stats.5,
                    },
                },
            ),
            None => None,
        }
    }
}

impl PortRecord {
    /// The record's stored form, if it has one.
    pub open spec fn encoding(&self) -> Option<Seq<u8>> {
        port_record_bytes(
            self.timestamp.secs,
            self.timestamp.nanos,
            self.port,
            (
                self.stats.port,
                self.stats.protocol,
                self.stats.total_bytes,
                self.stats.total_packets,
                self.stats.active_connections,
                self.stats.last_active,
            ),
        )
    }

    /// The record that stored bytes hold, if they hold one.
    pub open spec fn decoding(bytes: Seq<u8>) -> Option<PortRecord> {
        match port_record_fields(bytes) {
            Some((secs, nanos, port, stats)) => Some(
                PortRecord {
                    timestamp: Timestamp { secs, nanos },
                    port,
                    stats: SerializablePortStats {
                        port: stats.0,
                        protocol: stats.1,
                        total_bytes: stats.2,
                        total_packets: stats.3,
                        active_connections: stats.4,
                        last_active: stats.5,
                    },
                },
            ),
            None => None,
        }
    }

    /// The record's stored form, or `Serialization` where it has none.
    pub fn encode(&self) -> (r: Result<Vec<u8>, StorageError>)
        ensures
            r is Ok <==> self.encoding() is Some,
            r matches Ok(bytes) ==> self.encoding() == Some(bytes@),
            r matches Err(e) ==> e == StorageError::Serialization,
    {
        let stats = (
            self.stats.port,
            self.stats.protocol,
            self.stats.total_bytes,
            self.stats.total_packets,
            self.stats.active_connections,
            self.stats.last_active,
        );
        match bincode_port_record(self.timestamp.secs, self.timestamp.nanos, self.port, stats) {
            Some(bytes) => Ok(bytes),
            None => Err(StorageError::Serialization),
        }
    }

    /// The record that `bytes` hold, or `None` where they hold none.
    pub fn decode(bytes: &[u8]) -> (r: Option<PortRecord>)
        ensures
            r == PortRecord::decoding(bytes@),
    {
        match bincode_port_fields(bytes) {
            Some((secs, nanos, port, stats)) => Some(
                PortRecord {
                    timestamp: Timestamp { secs, nanos },
                    port,
                    stats: SerializablePortStats {
                        port: stats.0,
                        protocol: stats.1,
                        total_bytes: stats.2,
                        total_packets: stats.3,
                        active_connections: stats.4,
                        last_active: stats.5,
                    },
                },
            ),
            None => None,
        }
    }
}

} // verus!
