//! What holds of the storage engine as a whole: what a snapshot writes is
//! held by the store, and a range scan over a stretch of time reads every
//! record of that stretch.

use vstd::prelude::*;
use crate::key_order::{lemma_key_in_range, time_limit};
use crate::key_time::{
    after_first_field,
    colon_free,
    family_of,
    first_field,
    lemma_decimal_colon_free,
    lemma_joined,
    lemma_padded_value,
    lemma_time_field_parses,
    lemma_words,
};
use crate::listing::{
    admitted_run,
    apply_puts,
    lemma_run,
    lemma_seek,
    lemma_store_put,
    scanned,
    seek,
    sorted,
    value_at,
    Listing,
    Pair,
};
use crate::records::{FlowRecord, PortRecord, ProtocolRecord};
use crate::stats::{EnhancedTrafficStats, FlowKey, PortStats, ProtocolStats};
use crate::storage::{
    decoded_flows,
    decoded_ports,
    decoded_protocols,
    flow_entries,
    flow_puts,
    flow_record_of,
    port_entries,
    port_puts,
    port_record_of,
    protocol_entries,
    protocol_puts,
    protocol_record_of,
    snapshot_puts,
};
use crate::storage_keys::{
    colon,
    flow_key_spec,
    ip_flows_key_spec,
    ip_protocol_key_spec,
    joined,
    port_flows_key_spec,
    port_stats_key_spec,
    protocol_key_spec,
    word_flow,
    word_ip_flows,
    word_ip_protocol,
    word_port_flows,
    word_port_stats,
    word_protocol,
    Bounds,
    Family,
};
use crate::table::{distinct_keys, Slot};
use crate::text::{
    decimal,
    has_prefix,
    lemma_between_keeps_prefix,
    lemma_lex_le_antisym,
    lemma_lex_le_refl,
    lemma_lex_le_trans,
    lex_le,
    lex_lt,
    time_field,
};
use crate::time::Timestamp;

verus! {

/// The family that a key belongs to by its first field.
pub open spec fn key_family(key: Seq<u8>) -> Option<Family> {
    family_of(first_field(key))
}

/// What is left of a key after its first `n` fields and the colons behind
/// them, or `None` where it has fewer fields.
pub open spec fn rest_after(key: Seq<u8>, n: nat) -> Option<Seq<u8>>
    decreases n,
{
    if n == 0 {
        Some(key)
    } else {
        match rest_after(key, (n - 1) as nat) {
            Some(rest) => after_first_field(rest),
            None => None,
        }
    }
}

/// Field `n` of a key, counted from 0, or `None` where it has fewer
/// fields.
pub open spec fn field_at(key: Seq<u8>, n: nat) -> Option<Seq<u8>> {
    match rest_after(key, n) {
        Some(rest) => Some(first_field(rest)),
        None => None,
    }
}

/// Decimal text spells one number only.
pub proof fn lemma_decimal_injective(m: nat, n: nat)
    requires
        decimal(m) == decimal(n),
    ensures
        m == n,
{
    lemma_padded_value(Seq::<u8>::empty(), m);
    lemma_padded_value(Seq::<u8>::empty(), n);
    assert(Seq::<u8>::empty() + decimal(m) =~= decimal(m));
    assert(Seq::<u8>::empty() + decimal(n) =~= decimal(n));
}

/// A key of six fields has those fields.
pub proof fn lemma_six_fields(
    w: Seq<u8>,
    a: Seq<u8>,
    b: Seq<u8>,
    c: Seq<u8>,
    d: Seq<u8>,
    e: Seq<u8>,
)
    requires
        colon_free(w),
        colon_free(a),
        colon_free(b),
        colon_free(c),
        colon_free(d),
        colon_free(e),
    ensures
        ({
            let key = joined(w, joined(a, joined(b, joined(c, joined(d, e)))));
            &&& field_at(key, 0) == Some(w)
            &&& field_at(key, 1) == Some(a)
            &&& field_at(key, 2) == Some(b)
            &&& field_at(key, 3) == Some(c)
            &&& field_at(key, 4) == Some(d)
            &&& field_at(key, 5) == Some(e)
        }),
{
    let r4 = joined(d, e);
    let r3 = joined(c, r4);
    let r2 = joined(b, r3);
    let r1 = joined(a, r2);
    let key = joined(w, r1);
    lemma_joined(w, r1);
    lemma_joined(a, r2);
    lemma_joined(b, r3);
    lemma_joined(c, r4);
    lemma_joined(d, e);
    crate::key_time::lemma_field_whole(e);
    reveal_with_fuel(rest_after, 6);
    assert(rest_after(key, 1) == Some(r1));
    assert(rest_after(key, 2) == Some(r2));
    assert(rest_after(key, 3) == Some(r3));
    assert(rest_after(key, 4) == Some(r4));
    assert(rest_after(key, 5) == Some(e));
}

/// A key of three fields has those fields.
pub proof fn lemma_three_fields(w: Seq<u8>, a: Seq<u8>, b: Seq<u8>)
    requires
        colon_free(w),
        colon_free(a),
        colon_free(b),
    ensures
        ({
            let key = joined(w, joined(a, b));
            &&& field_at(key, 0) == Some(w)
            &&& field_at(key, 1) == Some(a)
            &&& field_at(key, 2) == Some(b)
        }),
{
    let r1 = joined(a, b);
    let key = joined(w, r1);
    lemma_joined(w, r1);
    lemma_joined(a, b);
    crate::key_time::lemma_field_whole(b);
    reveal_with_fuel(rest_after, 3);
    assert(rest_after(key, 1) == Some(r1));
    assert(rest_after(key, 2) == Some(b));
}

/// The fields of the three keys of a flow.
pub proof fn lemma_flow_key_fields(secs: int, k: FlowKey)
    ensures
        ({
            let t = time_field(secs);
            let ip = decimal(k.ip as nat);
            let port = decimal(k.port as nat);
            let protocol = decimal(k.protocol as nat);
            let direction = decimal(k.direction as nat);
            let by_time = flow_key_spec(secs, k);
            let by_ip = ip_flows_key_spec(secs, k);
            let by_port = port_flows_key_spec(secs, k);
            &&& key_family(by_time) == Some(Family::Flow)
            &&& field_at(by_time, 1) == Some(t)
            &&& field_at(by_time, 2) == Some(ip)
            &&& field_at(by_time, 3) == Some(port)
            &&& field_at(by_time, 4) == Some(protocol)
            &&& field_at(by_time, 5) == Some(direction)
            &&& key_family(by_ip) == Some(Family::IpFlows)
            &&& field_at(by_ip, 1) == Some(ip)
            &&& field_at(by_ip, 2) == Some(t)
            &&& field_at(by_ip, 3) == Some(port)
            &&& field_at(by_ip, 4) == Some(protocol)
            &&& field_at(by_ip, 5) == Some(direction)
            &&& key_family(by_port) == Some(Family::PortFlows)
            &&& field_at(by_port, 1) == Some(port)
            &&& field_at(by_port, 2) == Some(t)
            &&& field_at(by_port, 3) == Some(ip)
            &&& field_at(by_port, 4) == Some(protocol)
            &&& field_at(by_port, 5) == Some(direction)
        }),
{
    let t = time_field(secs);
    let ip = decimal(k.ip as nat);
    let port = decimal(k.port as nat);
    let protocol = decimal(k.protocol as nat);
    let direction = decimal(k.direction as nat);
    lemma_time_field_parses(secs);
    lemma_decimal_colon_free(k.ip as nat);
    lemma_decimal_colon_free(k.port as nat);
    lemma_decimal_colon_free(k.protocol as nat);
    lemma_decimal_colon_free(k.direction as nat);
    lemma_words(Family::Flow);
    lemma_words(Family::IpFlows);
    lemma_words(Family::PortFlows);
    lemma_six_fields(word_flow(), t, ip, port, protocol, direction);
    lemma_six_fields(word_ip_flows(), ip, t, port, protocol, direction);
    lemma_six_fields(word_port_flows(), port, t, ip, protocol, direction);
}

/// The fields of the keys of a protocol record and of a port record.
pub proof fn lemma_record_key_fields(secs: int, ip: u32, port: u16)
    ensures
        ({
            let t = time_field(secs);
            let by_time = protocol_key_spec(secs, ip);
            let by_ip = ip_protocol_key_spec(secs, ip);
            let of_port = port_stats_key_spec(secs, port);
            &&& key_family(by_time) == Some(Family::Protocol)
            &&& field_at(by_time, 1) == Some(t)
            &&& field_at(by_time, 2) == Some(decimal(ip as nat))
            &&& key_family(by_ip) == Some(Family::IpProtocol)
            &&& field_at(by_ip, 1) == Some(decimal(ip as nat))
            &&& field_at(by_ip, 2) == Some(t)
            &&& key_family(of_port) == Some(Family::PortStats)
            &&& field_at(of_port, 1) == Some(t)
            &&& field_at(of_port, 2) == Some(decimal(port as nat))
        }),
{
    let t = time_field(secs);
    lemma_time_field_parses(secs);
    lemma_decimal_colon_free(ip as nat);
    lemma_decimal_colon_free(port as nat);
    lemma_words(Family::Protocol);
    lemma_words(Family::IpProtocol);
    lemma_words(Family::PortStats);
    lemma_three_fields(word_protocol(), t, decimal(ip as nat));
    lemma_three_fields(word_ip_protocol(), decimal(ip as nat), t);
    lemma_three_fields(word_port_stats(), t, decimal(port as nat));
}

/// Two flows with the same key in one family, written at the same time or
/// not, are the same flow written at the same time.
pub proof fn lemma_flow_keys_injective(s1: int, k1: FlowKey, s2: int, k2: FlowKey)
    ensures
        flow_key_spec(s1, k1) == flow_key_spec(s2, k2) ==> s1 == s2 && k1 == k2,
        ip_flows_key_spec(s1, k1) == ip_flows_key_spec(s2, k2) ==> s1 == s2 && k1 == k2,
        port_flows_key_spec(s1, k1) == port_flows_key_spec(s2, k2) ==> s1 == s2 && k1 == k2,
{
    lemma_flow_key_fields(s1, k1);
    lemma_flow_key_fields(s2, k2);
    lemma_time_field_parses(s1);
    lemma_time_field_parses(s2);
    if decimal(k1.ip as nat) == decimal(k2.ip as nat) {
        lemma_decimal_injective(k1.ip as nat, k2.ip as nat);
    }
    if decimal(k1.port as nat) == decimal(k2.port as nat) {
        lemma_decimal_injective(k1.port as nat, k2.port as nat);
    }
    if decimal(k1.protocol as nat) == decimal(k2.protocol as nat) {
        lemma_decimal_injective(k1.protocol as nat, k2.protocol as nat);
    }
    if decimal(k1.direction as nat) == decimal(k2.direction as nat) {
        lemma_decimal_injective(k1.direction as nat, k2.direction as nat);
    }
}

/// Two protocol records, or two port records, with the same key in one
/// family are of the same address, or port, and time.
pub proof fn lemma_record_keys_injective(s1: int, ip1: u32, port1: u16, s2: int, ip2: u32, port2: u16)
    ensures
        protocol_key_spec(s1, ip1) == protocol_key_spec(s2, ip2) ==> s1 == s2 && ip1 == ip2,
        ip_protocol_key_spec(s1, ip1) == ip_protocol_key_spec(s2, ip2) ==> s1 == s2 && ip1 == ip2,
        port_stats_key_spec(s1, port1) == port_stats_key_spec(s2, port2) ==> s1 == s2 && port1
            == port2,
{
    lemma_record_key_fields(s1, ip1, port1);
    lemma_record_key_fields(s2, ip2, port2);
    lemma_time_field_parses(s1);
    lemma_time_field_parses(s2);
    if decimal(ip1 as nat) == decimal(ip2 as nat) {
        lemma_decimal_injective(ip1 as nat, ip2 as nat);
    }
    if decimal(port1 as nat) == decimal(port2 as nat) {
        lemma_decimal_injective(port1 as nat, port2 as nat);
    }
}

/// The stored form of the record written for a flow, if it has one.
pub open spec fn flow_value(now: Timestamp, slot: Slot<FlowKey, EnhancedTrafficStats>) -> Option<
    Seq<u8>,
> {
    flow_record_of(now, slot).encoding()
}

/// The stored form of the record written for an address, if it has one.
pub open spec fn protocol_value(now: Timestamp, slot: Slot<u32, ProtocolStats>) -> Option<Seq<u8>> {
    protocol_record_of(now, slot).encoding()
}

/// The stored form of the record written for a port, if it has one.
pub open spec fn port_value(now: Timestamp, slot: Slot<u16, PortStats>) -> Option<Seq<u8>> {
    port_record_of(now, slot).encoding()
}

/// The entries written for flows are three for each flow, in the order of
/// the flows: the record under its key in the family ordered by time, by
/// address and by port.
pub proof fn lemma_flow_puts_shape(now: Timestamp, flows: Seq<Slot<FlowKey, EnhancedTrafficStats>>)
    requires
        flow_puts(now, flows) is Some,
    ensures
        flow_puts(now, flows).unwrap().len() == 3 * flows.len(),
        forall|m: int|
            0 <= m < flows.len() ==> flow_value(now, #[trigger] flows[m]) is Some && ({
                let puts = flow_puts(now, flows).unwrap();
                let value = flow_value(now, flows[m]).unwrap();
                puts.subrange(3 * m, 3 * m + 3) == flow_entries(now, flows[m].key, value)
            }),
    decreases flows.len(),
{
    if flows.len() > 0 {
        let front = flows.drop_last();
        let last = flows.last();
        let puts = flow_puts(now, flows).unwrap();
        let front_puts = flow_puts(now, front).unwrap();
        let entries = flow_entries(now, last.key, flow_value(now, last).unwrap());
        lemma_flow_puts_shape(now, front);
        assert(puts == front_puts + entries);
        assert forall|m: int| 0 <= m < flows.len() implies flow_value(
            now,
            #[trigger] flows[m],
        ) is Some && puts.subrange(3 * m, 3 * m + 3) == flow_entries(
            now,
            flows[m].key,
            flow_value(now, flows[m]).unwrap(),
        ) by {
            if m < front.len() {
                assert(front[m] == flows[m]);
                assert(puts.subrange(3 * m, 3 * m + 3) =~= front_puts.subrange(3 * m, 3 * m + 3));
            } else {
                assert(puts.subrange(3 * m, 3 * m + 3) =~= entries);
            }
        }
    }
}

/// The entries written for addresses are two for each address, in the
/// order of the addresses.
pub proof fn lemma_protocol_puts_shape(now: Timestamp, protocols: Seq<Slot<u32, ProtocolStats>>)
    requires
        protocol_puts(now, protocols) is Some,
    ensures
        protocol_puts(now, protocols).unwrap().len() == 2 * protocols.len(),
        forall|m: int|
            0 <= m < protocols.len() ==> protocol_value(now, #[trigger] protocols[m]) is Some && ({
                let puts = protocol_puts(now, protocols).unwrap();
                let value = protocol_value(now, protocols[m]).unwrap();
                puts.subrange(2 * m, 2 * m + 2) == protocol_entries(now, protocols[m].key, value)
            }),
    decreases protocols.len(),
{
    if protocols.len() > 0 {
        let front = protocols.drop_last();
        let last = protocols.last();
        let puts = protocol_puts(now, protocols).unwrap();
        let front_puts = protocol_puts(now, front).unwrap();
        let entries = protocol_entries(now, last.key, protocol_value(now, last).unwrap());
        lemma_protocol_puts_shape(now, front);
        assert(puts == front_puts + entries);
        assert forall|m: int| 0 <= m < protocols.len() implies protocol_value(
            now,
            #[trigger] protocols[m],
        ) is Some && puts.subrange(2 * m, 2 * m + 2) == protocol_entries(
            now,
            protocols[m].key,
            protocol_value(now, protocols[m]).unwrap(),
        ) by {
            if m < front.len() {
                assert(front[m] == protocols[m]);
                assert(puts.subrange(2 * m, 2 * m + 2) =~= front_puts.subrange(2 * m, 2 * m + 2));
            } else {
                assert(puts.subrange(2 * m, 2 * m + 2) =~= entries);
            }
        }
    }
}

/// The entries written for ports are one for each port, in the order of
/// the ports.
pub proof fn lemma_port_puts_shape(now: Timestamp, ports: Seq<Slot<u16, PortStats>>)
    requires
        port_puts(now, ports) is Some,
    ensures
        port_puts(now, ports).unwrap().len() == ports.len(),
        forall|m: int|
            0 <= m < ports.len() ==> port_value(now, #[trigger] ports[m]) is Some && ({
                let puts = port_puts(now, ports).unwrap();
                let value = port_value(now, ports[m]).unwrap();
                puts.subrange(m, m + 1) == port_entries(now, ports[m].key, value)
            }),
    decreases ports.len(),
{
    if ports.len() > 0 {
        let front = ports.drop_last();
        let last = ports.last();
        let puts = port_puts(now, ports).unwrap();
        let front_puts = port_puts(now, front).unwrap();
        let entries = port_entries(now, last.key, port_value(now, last).unwrap());
        lemma_port_puts_shape(now, front);
        assert(puts == front_puts + entries);
        assert forall|m: int| 0 <= m < ports.len() implies port_value(
            now,
            #[trigger] ports[m],
        ) is Some && puts.subrange(m, m + 1) == port_entries(
            now,
            ports[m].key,
            port_value(now, ports[m]).unwrap(),
        ) by {
            if m < front.len() {
                assert(front[m] == ports[m]);
                assert(puts.subrange(m, m + 1) =~= front_puts.subrange(m, m + 1));
            } else {
                assert(puts.subrange(m, m + 1) =~= entries);
            }
        }
    }
}

/// A batch has three entries for each flow, two for each address and one
/// for each port.
pub proof fn lemma_batch_len(
    now: Timestamp,
    flows: Seq<Slot<FlowKey, EnhancedTrafficStats>>,
    protocols: Seq<Slot<u32, ProtocolStats>>,
    ports: Seq<Slot<u16, PortStats>>,
)
    requires
        snapshot_puts(now, flows, protocols, ports) is Some,
    ensures
        snapshot_puts(now, flows, protocols, ports).unwrap().len() == 3 * flows.len() + 2
            * protocols.len() + ports.len(),
{
    lemma_flow_puts_shape(now, flows);
    lemma_protocol_puts_shape(now, protocols);
    lemma_port_puts_shape(now, ports);
}

/// What a batch holds at each place: the entries of the flows, then of the
/// addresses, then of the ports.
pub proof fn lemma_batch_entry(
    now: Timestamp,
    flows: Seq<Slot<FlowKey, EnhancedTrafficStats>>,
    protocols: Seq<Slot<u32, ProtocolStats>>,
    ports: Seq<Slot<u16, PortStats>>,
    q: int,
)
    requires
        snapshot_puts(now, flows, protocols, ports) is Some,
        0 <= q < snapshot_puts(now, flows, protocols, ports).unwrap().len(),
    ensures
        ({
            let puts = snapshot_puts(now, flows, protocols, ports).unwrap();
            let nf = 3 * flows.len();
            let np = 2 * protocols.len();
            &&& puts.len() == nf + np + ports.len()
            &&& q < nf ==> {
                let m = q / 3;
                &&& 0 <= m < flows.len()
                &&& flow_value(now, flows[m]) is Some
                &&& puts[q] == flow_entries(
                    now,
                    flows[m].key,
                    flow_value(now, flows[m]).unwrap(),
                )[q % 3]
            }
            &&& nf <= q < nf + np ==> {
                let m = (q - nf) / 2;
                &&& 0 <= m < protocols.len()
                &&& protocol_value(now, protocols[m]) is Some
                &&& puts[q] == protocol_entries(
                    now,
                    protocols[m].key,
                    protocol_value(now, protocols[m]).unwrap(),
                )[(q - nf) % 2]
            }
            &&& nf + np <= q ==> {
                let m = q - nf - np;
                &&& 0 <= m < ports.len()
                &&& port_value(now, ports[m]) is Some
                &&& puts[q] == port_entries(
                    now,
                    ports[m].key,
                    port_value(now, ports[m]).unwrap(),
                )[0]
            }
        }),
{
    let a = flow_puts(now, flows).unwrap();
    let b = protocol_puts(now, protocols).unwrap();
    let c = port_puts(now, ports).unwrap();
    let puts = snapshot_puts(now, flows, protocols, ports).unwrap();
    let nf = 3 * flows.len();
    let np = 2 * protocols.len();
    lemma_flow_puts_shape(now, flows);
    lemma_protocol_puts_shape(now, protocols);
    lemma_port_puts_shape(now, ports);
    assert(puts == a + b + c);
    if q < nf {
        let m = q / 3;
        assert(flows[m] == flows[m]);
        assert(a.subrange(3 * m, 3 * m + 3)[q % 3] == a[q]);
        assert(puts[q] == a[q]);
    } else if q < nf + np {
        let m = (q - nf) / 2;
        assert(protocols[m] == protocols[m]);
        assert(b.subrange(2 * m, 2 * m + 2)[(q - nf) % 2] == b[q - nf]);
        assert(puts[q] == b[q - nf]);
    } else {
        let m = q - nf - np;
        assert(ports[m] == ports[m]);
        assert(c.subrange(m, m + 1)[0] == c[m]);
        assert(puts[q] == c[m]);
    }
}

/// The family of the key of each entry of a batch: the three flow
/// families in turn for the entries of a flow, the two protocol families
/// for those of an address, and the port family for that of a port.
pub proof fn lemma_entry_families(now: Timestamp, key: FlowKey, ip: u32, port: u16, value: Seq<u8>)
    ensures
        key_family(flow_entries(now, key, value)[0].key) == Some(Family::Flow),
        key_family(flow_entries(now, key, value)[1].key) == Some(Family::IpFlows),
        key_family(flow_entries(now, key, value)[2].key) == Some(Family::PortFlows),
        key_family(protocol_entries(now, ip, value)[0].key) == Some(Family::Protocol),
        key_family(protocol_entries(now, ip, value)[1].key) == Some(Family::IpProtocol),
        key_family(port_entries(now, port, value)[0].key) == Some(Family::PortStats),
        forall|c: int| 0 <= c < 3 ==> (#[trigger] flow_entries(now, key, value)[c]).value == value,
        forall|c: int|
            0 <= c < 2 ==> (#[trigger] protocol_entries(now, ip, value)[c]).value == value,
        port_entries(now, port, value)[0].value == value,
{
    lemma_flow_key_fields(now.secs as int, key);
    lemma_record_key_fields(now.secs as int, ip, port);
}

/// Every entry of a batch that is written under a key of a flow's record
/// holds the bytes of that record.
proof fn lemma_flow_key_once(
    now: Timestamp,
    flows: Seq<Slot<FlowKey, EnhancedTrafficStats>>,
    protocols: Seq<Slot<u32, ProtocolStats>>,
    ports: Seq<Slot<u16, PortStats>>,
    i: int,
    c: int,
    q: int,
)
    requires
        snapshot_puts(now, flows, protocols, ports) is Some,
        distinct_keys(flows),
        0 <= i < flows.len(),
        0 <= c < 3,
        flow_value(now, flows[i]) is Some,
        0 <= q < snapshot_puts(now, flows, protocols, ports).unwrap().len(),
        snapshot_puts(now, flows, protocols, ports).unwrap()[q].key == flow_entries(
            now,
            flows[i].key,
            flow_value(now, flows[i]).unwrap(),
        )[c].key,
    ensures
        snapshot_puts(now, flows, protocols, ports).unwrap()[q].value == flow_value(
            now,
            flows[i],
        ).unwrap(),
{
    let nf = 3 * flows.len();
    let np = 2 * protocols.len();
    let key = flows[i].key;
    let value = flow_value(now, flows[i]).unwrap();
    lemma_batch_entry(now, flows, protocols, ports, q);
    lemma_entry_families(now, key, 0, 0, value);
    if q < nf {
        let m = q / 3;
        lemma_entry_families(now, flows[m].key, 0, 0, flow_value(now, flows[m]).unwrap());
        lemma_flow_keys_injective(now.secs as int, key, now.secs as int, flows[m].key);
        assert(q % 3 == c);
        assert(flows[m].key == key);
        if m < i {
            assert(flows[m].key != flows[i].key);
        } else if i < m {
            assert(flows[i].key != flows[m].key);
        }
    } else if q < nf + np {
        let m = (q - nf) / 2;
        lemma_entry_families(now, key, protocols[m].key, 0, protocol_value(now, protocols[m]).unwrap());
    } else {
        let m = q - nf - np;
        lemma_entry_families(now, key, 0, ports[m].key, port_value(now, ports[m]).unwrap());
    }
}

/// After a snapshot is written, each of its flows is held under the
/// flow's three keys, as the bytes of the flow's record.
pub proof fn lemma_snapshot_flows_held(
    l: Listing,
    now: Timestamp,
    flows: Seq<Slot<FlowKey, EnhancedTrafficStats>>,
    protocols: Seq<Slot<u32, ProtocolStats>>,
    ports: Seq<Slot<u16, PortStats>>,
    i: int,
)
    requires
        sorted(l),
        snapshot_puts(now, flows, protocols, ports) is Some,
        distinct_keys(flows),
        0 <= i < flows.len(),
    ensures
        ({
            let after = apply_puts(l, snapshot_puts(now, flows, protocols, ports).unwrap());
            let value = flow_value(now, flows[i]);
            let key = flows[i].key;
            &&& value is Some
            &&& sorted(after)
            &&& value_at(after, flow_key_spec(now.secs as int, key)) == value
            &&& value_at(after, ip_flows_key_spec(now.secs as int, key)) == value
            &&& value_at(after, port_flows_key_spec(now.secs as int, key)) == value
        }),
{
    let puts = snapshot_puts(now, flows, protocols, ports).unwrap();
    lemma_batch_len(now, flows, protocols, ports);
    lemma_batch_entry(now, flows, protocols, ports, 3 * i);
    let value = flow_value(now, flows[i]).unwrap();
    let key = flows[i].key;
    let entries = flow_entries(now, key, value);
    assert forall|c: int| 0 <= c < 3 implies sorted(apply_puts(l, puts)) && value_at(
        apply_puts(l, puts),
        (#[trigger] entries[c]).key,
    ) == Some(value) by {
        lemma_batch_entry(now, flows, protocols, ports, 3 * i + c);
        assert(puts[3 * i + c] == (Pair { key: entries[c].key, value }));
        assert forall|q: int|
            0 <= q < puts.len() && (#[trigger] puts[q]).key == entries[c].key implies puts[q].value
            == value by {
            lemma_flow_key_once(now, flows, protocols, ports, i, c, q);
        }
        lemma_apply_puts(l, puts, entries[c].key, value);
    }
    assert(entries[0].key == flow_key_spec(now.secs as int, key));
    assert(entries[1].key == ip_flows_key_spec(now.secs as int, key));
    assert(entries[2].key == port_flows_key_spec(now.secs as int, key));
}

/// In a sorted listing, an entry whose key is not before the start key and
/// is admitted by the bounds lies in the stretch that a range scan reads.
pub proof fn lemma_scan_place(l: Listing, bounds: Bounds, j: int)
    requires
        sorted(l),
        0 <= j < l.len(),
        has_prefix(bounds.start, bounds.prefix),
        lex_le(bounds.start, l[j].key),
        bounds.admits(l[j].key),
    ensures
        seek(l, bounds.start) <= j < seek(l, bounds.start) + scanned(l, bounds).len(),
        scanned(l, bounds)[j - seek(l, bounds.start)] == l[j].value,
{
    let from = seek(l, bounds.start);
    let rest = l.skip(from);
    let run = admitted_run(rest, bounds);
    lemma_seek(l, bounds.start);
    lemma_run(rest, bounds);
    assert(from <= j) by {
        if j < from {
            assert(!lex_le(bounds.start, l[j].key));
        }
    }
    assert forall|x: int| from <= x <= j implies bounds.admits(l[x].key) by {
        let key = l[x].key;
        if x > from {
            assert(lex_lt(l[from].key, key));
            lemma_lex_le_trans(bounds.start, l[from].key, key);
        }
        if x < j {
            assert(lex_lt(key, l[j].key));
        } else {
            lemma_lex_le_refl(key);
        }
        lemma_lex_le_trans(key, l[j].key, bounds.end);
        lemma_between_keeps_prefix(bounds.prefix, bounds.start, key, l[j].key);
        if key == bounds.end {
            lemma_lex_le_antisym(l[j].key, bounds.end);
        }
    }
    assert(run > j - from) by {
        if run <= j - from {
            assert(rest[run] == l[from + run]);
            assert(bounds.admits(l[from + run].key));
        }
    }
}

/// In a sorted listing, a range scan reads the value of every entry whose
/// key is not before the start key and is admitted by the bounds.
pub proof fn lemma_scan_includes(l: Listing, bounds: Bounds, j: int)
    requires
        sorted(l),
        0 <= j < l.len(),
        has_prefix(bounds.start, bounds.prefix),
        lex_le(bounds.start, l[j].key),
        bounds.admits(l[j].key),
    ensures
        scanned(l, bounds).contains(l[j].value),
{
    lemma_scan_place(l, bounds, j);
}

/// Whether a range scan of `l` reads the entry that `l` holds under `key`:
/// the entry lies in the stretch that the scan reads.
pub open spec fn scan_reads_key(l: Listing, bounds: Bounds, key: Seq<u8>) -> bool {
    let at = seek(l, key);
    let from = seek(l, bounds.start);
    &&& 0 <= at < l.len()
    &&& l[at].key == key
    &&& from <= at < from + scanned(l, bounds).len()
    &&& scanned(l, bounds)[at - from] == l[at].value
}

/// A range scan over the times from `start` up to, but not at, `end`
/// reads what a sorted listing holds under a key of a time in that range,
/// where the key and the bounds start with the same prefix and have the
/// time behind it.
pub proof fn lemma_scan_reads(
    l: Listing,
    bounds: Bounds,
    secs: int,
    rest: Seq<u8>,
    start: int,
    end: int,
    tail: Seq<u8>,
    key: Seq<u8>,
)
    requires
        sorted(l),
        0 <= start <= secs < end < time_limit(),
        bounds.start == bounds.prefix + time_field(start) + tail,
        bounds.end == bounds.prefix + time_field(end) + tail,
        key == bounds.prefix + time_field(secs) + rest,
        tail.len() == 0 || (tail.len() <= rest.len() && rest.subrange(0, tail.len() as int) == tail),
        value_at(l, key) is Some,
    ensures
        scanned(l, bounds).contains(value_at(l, key).unwrap()),
        scan_reads_key(l, bounds, key),
{
    let prefix = bounds.prefix;
    let j = seek(l, key);
    lemma_seek(l, key);
    lemma_key_in_range(prefix, secs, rest, start, end, tail);
    assert(bounds.start.subrange(0, prefix.len() as int) =~= prefix);
    assert(key.subrange(0, prefix.len() as int) =~= prefix);
    lemma_scan_place(l, bounds, j);
}

/// A range scan of a family of flow records, over times that a record's
/// time lies in, reads what a sorted listing holds under the record's key
/// in that family: all flows for the family ordered by time, the flows of
/// the record's address or port for the other two.
pub proof fn lemma_scan_reads_flows(l: Listing, secs: int, k: FlowKey, start: int, end: int)
    requires
        sorted(l),
        0 <= start <= secs < end < time_limit(),
    ensures
        value_at(l, flow_key_spec(secs, k)) matches Some(v) ==> scanned(
            l,
            Bounds::by_time(Family::Flow, start, end),
        ).contains(v),
        value_at(l, ip_flows_key_spec(secs, k)) matches Some(v) ==> scanned(
            l,
            Bounds::by_dimension(Family::IpFlows, k.ip as nat, start, end),
        ).contains(v),
        value_at(l, port_flows_key_spec(secs, k)) matches Some(v) ==> scanned(
            l,
            Bounds::by_dimension(Family::PortFlows, k.port as nat, start, end),
        ).contains(v),
        value_at(l, flow_key_spec(secs, k)) is Some ==> scan_reads_key(
            l,
            Bounds::by_time(Family::Flow, start, end),
            flow_key_spec(secs, k),
        ),
        value_at(l, ip_flows_key_spec(secs, k)) is Some ==> scan_reads_key(
            l,
            Bounds::by_dimension(Family::IpFlows, k.ip as nat, start, end),
            ip_flows_key_spec(secs, k),
        ),
        value_at(l, port_flows_key_spec(secs, k)) is Some ==> scan_reads_key(
            l,
            Bounds::by_dimension(Family::PortFlows, k.port as nat, start, end),
            port_flows_key_spec(secs, k),
        ),
{
    let ip = decimal(k.ip as nat);
    let port = decimal(k.port as nat);
    let tail = joined(decimal(k.protocol as nat), decimal(k.direction as nat));
    if value_at(l, flow_key_spec(secs, k)) is Some {
        let bounds = Bounds::by_time(Family::Flow, start, end);
        let rest = colon() + joined(ip, joined(port, tail));
        let key = flow_key_spec(secs, k);
        assert(key =~= bounds.prefix + time_field(secs) + rest);
        assert(rest.subrange(0, 1) =~= colon());
        lemma_scan_reads(l, bounds, secs, rest, start, end, colon(), key);
    }
    if value_at(l, ip_flows_key_spec(secs, k)) is Some {
        let bounds = Bounds::by_dimension(Family::IpFlows, k.ip as nat, start, end);
        let rest = colon() + joined(port, tail);
        let key = ip_flows_key_spec(secs, k);
        assert(key =~= bounds.prefix + time_field(secs) + rest);
        assert(rest.subrange(0, 1) =~= colon());
        lemma_scan_reads(l, bounds, secs, rest, start, end, colon(), key);
    }
    if value_at(l, port_flows_key_spec(secs, k)) is Some {
        let bounds = Bounds::by_dimension(Family::PortFlows, k.port as nat, start, end);
        let rest = colon() + joined(ip, tail);
        let key = port_flows_key_spec(secs, k);
        assert(key =~= bounds.prefix + time_field(secs) + rest);
        assert(rest.subrange(0, 1) =~= colon());
        lemma_scan_reads(l, bounds, secs, rest, start, end, colon(), key);
    }
}

/// A range scan of protocol records or of port records, over times that a
/// record's time lies in, reads what a sorted listing holds under the
/// record's key.
pub proof fn lemma_scan_reads_records(
    l: Listing,
    secs: int,
    ip: u32,
    port: u16,
    start: int,
    end: int,
)
    requires
        sorted(l),
        0 <= start <= secs < end < time_limit(),
    ensures
        value_at(l, protocol_key_spec(secs, ip)) matches Some(v) ==> scanned(
            l,
            Bounds::by_time(Family::Protocol, start, end),
        ).contains(v),
        value_at(l, ip_protocol_key_spec(secs, ip)) matches Some(v) ==> scanned(
            l,
            Bounds::ip_protocol(ip, start, end),
        ).contains(v),
        value_at(l, port_stats_key_spec(secs, port)) matches Some(v) ==> scanned(
            l,
            Bounds::by_time(Family::PortStats, start, end),
        ).contains(v),
        value_at(l, protocol_key_spec(secs, ip)) is Some ==> scan_reads_key(
            l,
            Bounds::by_time(Family::Protocol, start, end),
            protocol_key_spec(secs, ip),
        ),
        value_at(l, ip_protocol_key_spec(secs, ip)) is Some ==> scan_reads_key(
            l,
            Bounds::ip_protocol(ip, start, end),
            ip_protocol_key_spec(secs, ip),
        ),
        value_at(l, port_stats_key_spec(secs, port)) is Some ==> scan_reads_key(
            l,
            Bounds::by_time(Family::PortStats, start, end),
            port_stats_key_spec(secs, port),
        ),
{
    if value_at(l, protocol_key_spec(secs, ip)) is Some {
        let bounds = Bounds::by_time(Family::Protocol, start, end);
        let rest = colon() + decimal(ip as nat);
        let key = protocol_key_spec(secs, ip);
        assert(key =~= bounds.prefix + time_field(secs) + rest);
        assert(rest.subrange(0, 1) =~= colon());
        lemma_scan_reads(l, bounds, secs, rest, start, end, colon(), key);
    }
    if value_at(l, ip_protocol_key_spec(secs, ip)) is Some {
        let bounds = Bounds::ip_protocol(ip, start, end);
        let rest = Seq::<u8>::empty();
        let key = ip_protocol_key_spec(secs, ip);
        assert(key =~= bounds.prefix + time_field(secs) + rest);
        assert(bounds.start =~= bounds.prefix + time_field(start) + rest);
        assert(bounds.end =~= bounds.prefix + time_field(end) + rest);
        lemma_scan_reads(l, bounds, secs, rest, start, end, rest, key);
    }
    if value_at(l, port_stats_key_spec(secs, port)) is Some {
        let bounds = Bounds::by_time(Family::PortStats, start, end);
        let rest = colon() + decimal(port as nat);
        let key = port_stats_key_spec(secs, port);
        assert(key =~= bounds.prefix + time_field(secs) + rest);
        assert(rest.subrange(0, 1) =~= colon());
        lemma_scan_reads(l, bounds, secs, rest, start, end, colon(), key);
    }
}

/// Round trip of a snapshot's flows. A snapshot with one entry for each
/// flow is written at `now` to a sorted store. Every flow whose record is
/// read back from its stored bytes as it was written is then among the
/// records that each of the three families gives for a stretch of time
/// that `now` lies in: all flows by time, the flows of its address, and
/// the flows of its port.
pub proof fn lemma_snapshot_round_trip(
    l: Listing,
    now: Timestamp,
    flows: Seq<Slot<FlowKey, EnhancedTrafficStats>>,
    protocols: Seq<Slot<u32, ProtocolStats>>,
    ports: Seq<Slot<u16, PortStats>>,
    i: int,
    start: int,
    end: int,
)
    requires
        sorted(l),
        snapshot_puts(now, flows, protocols, ports) is Some,
        distinct_keys(flows),
        0 <= i < flows.len(),
        0 <= start <= now.secs < end < time_limit(),
        flow_value(now, flows[i]) matches Some(bytes) ==> FlowRecord::decoding(bytes) == Some(
            flow_record_of(now, flows[i]),
        ),
    ensures
        ({
            let after = apply_puts(l, snapshot_puts(now, flows, protocols, ports).unwrap());
            let record = flow_record_of(now, flows[i]);
            let key = flows[i].key;
            &&& decoded_flows(scanned(after, Bounds::by_time(Family::Flow, start, end))).contains(
                record,
            )
            &&& decoded_flows(
                scanned(after, Bounds::by_dimension(Family::IpFlows, key.ip as nat, start, end)),
            ).contains(record)
            &&& decoded_flows(
                scanned(after, Bounds::by_dimension(Family::PortFlows, key.port as nat, start, end)),
            ).contains(record)
        }),
{
    let after = apply_puts(l, snapshot_puts(now, flows, protocols, ports).unwrap());
    let record = flow_record_of(now, flows[i]);
    let key = flows[i].key;
    lemma_snapshot_flows_held(l, now, flows, protocols, ports, i);
    lemma_scan_reads_flows(after, now.secs as int, key, start, end);
    let bytes = flow_value(now, flows[i]).unwrap();
    let by_time = scanned(after, Bounds::by_time(Family::Flow, start, end));
    let by_ip = scanned(after, Bounds::by_dimension(Family::IpFlows, key.ip as nat, start, end));
    let by_port = scanned(
        after,
        Bounds::by_dimension(Family::PortFlows, key.port as nat, start, end),
    );
    let x = choose|x: int| 0 <= x < by_time.len() && by_time[x] == bytes;
    lemma_decoded_flows_contains(by_time, x, record);
    let y = choose|y: int| 0 <= y < by_ip.len() && by_ip[y] == bytes;
    lemma_decoded_flows_contains(by_ip, y, record);
    let z = choose|z: int| 0 <= z < by_port.len() && by_port[z] == bytes;
    lemma_decoded_flows_contains(by_port, z, record);
}

/// Every entry of a batch that is written under a key of an address's
/// record holds the bytes of that record.
proof fn lemma_protocol_key_once(
    now: Timestamp,
    flows: Seq<Slot<FlowKey, EnhancedTrafficStats>>,
    protocols: Seq<Slot<u32, ProtocolStats>>,
    ports: Seq<Slot<u16, PortStats>>,
    i: int,
    c: int,
    q: int,
)
    requires
        snapshot_puts(now, flows, protocols, ports) is Some,
        distinct_keys(protocols),
        0 <= i < protocols.len(),
        0 <= c < 2,
        protocol_value(now, protocols[i]) is Some,
        0 <= q < snapshot_puts(now, flows, protocols, ports).unwrap().len(),
        snapshot_puts(now, flows, protocols, ports).unwrap()[q].key == protocol_entries(
            now,
            protocols[i].key,
            protocol_value(now, protocols[i]).unwrap(),
        )[c].key,
    ensures
        snapshot_puts(now, flows, protocols, ports).unwrap()[q].value == protocol_value(
            now,
            protocols[i],
        ).unwrap(),
{
    let nf = 3 * flows.len();
    let np = 2 * protocols.len();
    let ip = protocols[i].key;
    let value = protocol_value(now, protocols[i]).unwrap();
    let none = FlowKey { ip: 0, port: 0, protocol: 0, direction: 0 };
    lemma_batch_entry(now, flows, protocols, ports, q);
    lemma_entry_families(now, none, ip, 0, value);
    if q < nf {
        let m = q / 3;
        lemma_entry_families(now, flows[m].key, ip, 0, flow_value(now, flows[m]).unwrap());
    } else if q < nf + np {
        let m = (q - nf) / 2;
        lemma_entry_families(now, none, protocols[m].key, 0, protocol_value(now, protocols[m]).unwrap());
        lemma_record_keys_injective(now.secs as int, ip, 0, now.secs as int, protocols[m].key, 0);
        assert(protocols[m].key == ip);
        if m < i {
            assert(protocols[m].key != protocols[i].key);
        } else if i < m {
            assert(protocols[i].key != protocols[m].key);
        }
    } else {
        let m = q - nf - np;
        lemma_entry_families(now, none, ip, ports[m].key, port_value(now, ports[m]).unwrap());
    }
}

/// Every entry of a batch that is written under the key of a port's record
/// holds the bytes of that record.
proof fn lemma_port_key_once(
    now: Timestamp,
    flows: Seq<Slot<FlowKey, EnhancedTrafficStats>>,
    protocols: Seq<Slot<u32, ProtocolStats>>,
    ports: Seq<Slot<u16, PortStats>>,
    i: int,
    q: int,
)
    requires
        snapshot_puts(now, flows, protocols, ports) is Some,
        distinct_keys(ports),
        0 <= i < ports.len(),
        port_value(now, ports[i]) is Some,
        0 <= q < snapshot_puts(now, flows, protocols, ports).unwrap().len(),
        snapshot_puts(now, flows, protocols, ports).unwrap()[q].key == port_stats_key_spec(
            now.secs as int,
            ports[i].key,
        ),
    ensures
        snapshot_puts(now, flows, protocols, ports).unwrap()[q].value == port_value(
            now,
            ports[i],
        ).unwrap(),
{
    let nf = 3 * flows.len();
    let np = 2 * protocols.len();
    let port = ports[i].key;
    let value = port_value(now, ports[i]).unwrap();
    let none = FlowKey { ip: 0, port: 0, protocol: 0, direction: 0 };
    lemma_batch_entry(now, flows, protocols, ports, q);
    lemma_entry_families(now, none, 0, port, value);
    if q < nf {
        let m = q / 3;
        lemma_entry_families(now, flows[m].key, 0, port, flow_value(now, flows[m]).unwrap());
    } else if q < nf + np {
        let m = (q - nf) / 2;
        lemma_entry_families(now, none, protocols[m].key, port, protocol_value(now, protocols[m]).unwrap());
    } else {
        let m = q - nf - np;
        lemma_record_keys_injective(now.secs as int, 0, port, now.secs as int, 0, ports[m].key);
        assert(ports[m].key == port);
        if m < i {
            assert(ports[m].key != ports[i].key);
        } else if i < m {
            assert(ports[i].key != ports[m].key);
        }
    }
}

/// After a snapshot is written, each of its addresses is held under the
/// address's two keys, as the bytes of the address's record.
pub proof fn lemma_snapshot_protocols_held(
    l: Listing,
    now: Timestamp,
    flows: Seq<Slot<FlowKey, EnhancedTrafficStats>>,
    protocols: Seq<Slot<u32, ProtocolStats>>,
    ports: Seq<Slot<u16, PortStats>>,
    i: int,
)
    requires
        sorted(l),
        snapshot_puts(now, flows, protocols, ports) is Some,
        distinct_keys(protocols),
        0 <= i < protocols.len(),
    ensures
        ({
            let after = apply_puts(l, snapshot_puts(now, flows, protocols, ports).unwrap());
            let value = protocol_value(now, protocols[i]);
            &&& value is Some
            &&& sorted(after)
            &&& value_at(after, protocol_key_spec(now.secs as int, protocols[i].key)) == value
            &&& value_at(after, ip_protocol_key_spec(now.secs as int, protocols[i].key)) == value
        }),
{
    let puts = snapshot_puts(now, flows, protocols, ports).unwrap();
    let nf = 3 * flows.len();
    lemma_batch_len(now, flows, protocols, ports);
    lemma_batch_entry(now, flows, protocols, ports, nf + 2 * i);
    let value = protocol_value(now, protocols[i]).unwrap();
    let entries = protocol_entries(now, protocols[i].key, value);
    assert forall|c: int| 0 <= c < 2 implies sorted(apply_puts(l, puts)) && value_at(
        apply_puts(l, puts),
        (#[trigger] entries[c]).key,
    ) == Some(value) by {
        lemma_batch_entry(now, flows, protocols, ports, nf + 2 * i + c);
        assert(puts[nf + 2 * i + c] == (Pair { key: entries[c].key, value }));
        assert forall|q: int|
            0 <= q < puts.len() && (#[trigger] puts[q]).key == entries[c].key implies puts[q].value
            == value by {
            lemma_protocol_key_once(now, flows, protocols, ports, i, c, q);
        }
        lemma_apply_puts(l, puts, entries[c].key, value);
    }
    assert(entries[0].key == protocol_key_spec(now.secs as int, protocols[i].key));
    assert(entries[1].key == ip_protocol_key_spec(now.secs as int, protocols[i].key));
}

/// After a snapshot is written, each of its ports is held under the port's
/// key, as the bytes of the port's record.
pub proof fn lemma_snapshot_ports_held(
    l: Listing,
    now: Timestamp,
    flows: Seq<Slot<FlowKey, EnhancedTrafficStats>>,
    protocols: Seq<Slot<u32, ProtocolStats>>,
    ports: Seq<Slot<u16, PortStats>>,
    i: int,
)
    requires
        sorted(l),
        snapshot_puts(now, flows, protocols, ports) is Some,
        distinct_keys(ports),
        0 <= i < ports.len(),
    ensures
        ({
            let after = apply_puts(l, snapshot_puts(now, flows, protocols, ports).unwrap());
            let value = port_value(now, ports[i]);
            &&& value is Some
            &&& sorted(after)
            &&& value_at(after, port_stats_key_spec(now.secs as int, ports[i].key)) == value
        }),
{
    let puts = snapshot_puts(now, flows, protocols, ports).unwrap();
    let nf = 3 * flows.len();
    let np = 2 * protocols.len();
    lemma_batch_len(now, flows, protocols, ports);
    lemma_batch_entry(now, flows, protocols, ports, nf + np + i);
    let value = port_value(now, ports[i]).unwrap();
    let key = port_stats_key_spec(now.secs as int, ports[i].key);
    assert(puts[nf + np + i] == (Pair { key, value }));
    assert forall|q: int| 0 <= q < puts.len() && (#[trigger] puts[q]).key == key implies puts[q].value
        == value by {
        lemma_port_key_once(now, flows, protocols, ports, i, q);
    }
    lemma_apply_puts(l, puts, key, value);
}

/// Round trip of a snapshot's protocol records. A snapshot with one entry
/// for each address is written at `now` to a sorted store. Every address
/// whose record is read back from its stored bytes as it was written is
/// then among the records that each of the two families gives for a
/// stretch of time that `now` lies in.
pub proof fn lemma_snapshot_protocols_round_trip(
    l: Listing,
    now: Timestamp,
    flows: Seq<Slot<FlowKey, EnhancedTrafficStats>>,
    protocols: Seq<Slot<u32, ProtocolStats>>,
    ports: Seq<Slot<u16, PortStats>>,
    i: int,
    start: int,
    end: int,
)
    requires
        sorted(l),
        snapshot_puts(now, flows, protocols, ports) is Some,
        distinct_keys(protocols),
        0 <= i < protocols.len(),
        0 <= start <= now.secs < end < time_limit(),
        protocol_value(now, protocols[i]) matches Some(bytes) ==> ProtocolRecord::decoding(bytes)
            == Some(protocol_record_of(now, protocols[i])),
    ensures
        ({
            let after = apply_puts(l, snapshot_puts(now, flows, protocols, ports).unwrap());
            let record = protocol_record_of(now, protocols[i]);
            &&& decoded_protocols(
                scanned(after, Bounds::by_time(Family::Protocol, start, end)),
            ).contains(record)
            &&& decoded_protocols(
                scanned(after, Bounds::ip_protocol(protocols[i].key, start, end)),
            ).contains(record)
        }),
{
    let after = apply_puts(l, snapshot_puts(now, flows, protocols, ports).unwrap());
    let record = protocol_record_of(now, protocols[i]);
    lemma_snapshot_protocols_held(l, now, flows, protocols, ports, i);
    let bytes = protocol_value(now, protocols[i]).unwrap();
    lemma_scan_reads_records(after, now.secs as int, protocols[i].key, 0, start, end);
    let by_time = scanned(after, Bounds::by_time(Family::Protocol, start, end));
    let by_ip = scanned(after, Bounds::ip_protocol(protocols[i].key, start, end));
    let x = choose|x: int| 0 <= x < by_time.len() && by_time[x] == bytes;
    lemma_decoded_protocols_contains(by_time, x, record);
    let y = choose|y: int| 0 <= y < by_ip.len() && by_ip[y] == bytes;
    lemma_decoded_protocols_contains(by_ip, y, record);
}

/// Round trip of a snapshot's port records. A snapshot with one entry for
/// each port is written at `now` to a sorted store. Every port whose record
/// is read back from its stored bytes as it was written is then among the
/// port records of a stretch of time that `now` lies in.
pub proof fn lemma_snapshot_ports_round_trip(
    l: Listing,
    now: Timestamp,
    flows: Seq<Slot<FlowKey, EnhancedTrafficStats>>,
    protocols: Seq<Slot<u32, ProtocolStats>>,
    ports: Seq<Slot<u16, PortStats>>,
    i: int,
    start: int,
    end: int,
)
    requires
        sorted(l),
        snapshot_puts(now, flows, protocols, ports) is Some,
        distinct_keys(ports),
        0 <= i < ports.len(),
        0 <= start <= now.secs < end < time_limit(),
        port_value(now, ports[i]) matches Some(bytes) ==> PortRecord::decoding(bytes) == Some(
            port_record_of(now, ports[i]),
        ),
    ensures
        decoded_ports(
            scanned(
                apply_puts(l, snapshot_puts(now, flows, protocols, ports).unwrap()),
                Bounds::by_time(Family::PortStats, start, end),
            ),
        ).contains(port_record_of(now, ports[i])),
{
    let after = apply_puts(l, snapshot_puts(now, flows, protocols, ports).unwrap());
    let record = port_record_of(now, ports[i]);
    lemma_snapshot_ports_held(l, now, flows, protocols, ports, i);
    let bytes = port_value(now, ports[i]).unwrap();
    lemma_scan_reads_records(after, now.secs as int, 0, ports[i].key, start, end);
    let by_time = scanned(after, Bounds::by_time(Family::PortStats, start, end));
    let x = choose|x: int| 0 <= x < by_time.len() && by_time[x] == bytes;
    lemma_decoded_ports_contains(by_time, x, record);
}

/// Among the flow records read from values is the record of every value
/// that holds one.
pub proof fn lemma_decoded_flows_contains(values: Seq<Seq<u8>>, x: int, record: FlowRecord)
    requires
        0 <= x < values.len(),
        FlowRecord::decoding(values[x]) == Some(record),
    ensures
        decoded_flows(values).contains(record),
    decreases values.len(),
{
    let front = values.drop_last();
    let rest = decoded_flows(front);
    let all = decoded_flows(values);
    if x < values.len() - 1 {
        assert(front[x] == values[x]);
        lemma_decoded_flows_contains(front, x, record);
        let i = choose|i: int| 0 <= i < rest.len() && rest[i] == record;
        assert(all[i] == record);
    } else {
        assert(all[rest.len() as int] == record);
    }
}

/// Among the protocol records read from values is the record of every
/// value that holds one.
pub proof fn lemma_decoded_protocols_contains(
    values: Seq<Seq<u8>>,
    x: int,
    record: ProtocolRecord,
)
    requires
        0 <= x < values.len(),
        ProtocolRecord::decoding(values[x]) == Some(record),
    ensures
        decoded_protocols(values).contains(record),
    decreases values.len(),
{
    let front = values.drop_last();
    let rest = decoded_protocols(front);
    let all = decoded_protocols(values);
    if x < values.len() - 1 {
        assert(front[x] == values[x]);
        lemma_decoded_protocols_contains(front, x, record);
        let i = choose|i: int| 0 <= i < rest.len() && rest[i] == record;
        assert(all[i] == record);
    } else {
        assert(all[rest.len() as int] == record);
    }
}

/// Among the port records read from values is the record of every value
/// that holds one.
pub proof fn lemma_decoded_ports_contains(values: Seq<Seq<u8>>, x: int, record: PortRecord)
    requires
        0 <= x < values.len(),
        PortRecord::decoding(values[x]) == Some(record),
    ensures
        decoded_ports(values).contains(record),
    decreases values.len(),
{
    let front = values.drop_last();
    let rest = decoded_ports(front);
    let all = decoded_ports(values);
    if x < values.len() - 1 {
        assert(front[x] == values[x]);
        lemma_decoded_ports_contains(front, x, record);
        let i = choose|i: int| 0 <= i < rest.len() && rest[i] == record;
        assert(all[i] == record);
    } else {
        assert(all[rest.len() as int] == record);
    }
}

/// A batch keeps a sorted listing sorted, and a key that the batch writes
/// with one value only holds that value afterwards.
pub proof fn lemma_apply_puts(l: Listing, puts: Seq<Pair>, key: Seq<u8>, value: Seq<u8>)
    requires
        sorted(l),
        exists|p: int| 0 <= p < puts.len() && #[trigger] puts[p] == (Pair { key, value }),
        forall|q: int| 0 <= q < puts.len() && (#[trigger] puts[q]).key == key ==> puts[q].value == value,
    ensures
        sorted(apply_puts(l, puts)),
        value_at(apply_puts(l, puts), key) == Some(value),
    decreases puts.len(),
{
    let front = puts.drop_last();
    let last = puts.last();
    lemma_apply_puts_sorted(l, front);
    lemma_store_put(apply_puts(l, front), last.key, last.value, key);
    if last.key != key {
        let p = choose|p: int| 0 <= p < puts.len() && #[trigger] puts[p] == (Pair { key, value });
        assert(front[p] == puts[p]);
        assert forall|q: int| 0 <= q < front.len() && (#[trigger] front[q]).key == key implies front[q].value
            == value by {
            assert(front[q] == puts[q]);
        }
        lemma_apply_puts(l, front, key, value);
    } else {
        assert(puts[puts.len() - 1].value == value);
    }
}

/// A batch keeps a sorted listing sorted.
pub proof fn lemma_apply_puts_sorted(l: Listing, puts: Seq<Pair>)
    requires
        sorted(l),
    ensures
        sorted(apply_puts(l, puts)),
    decreases puts.len(),
{
    if puts.len() > 0 {
        let front = puts.drop_last();
        lemma_apply_puts_sorted(l, front);
        lemma_store_put(apply_puts(l, front), puts.last().key, puts.last().value, puts.last().key);
    }
}

} // verus!
