//! What a range scan reads, and nothing else: every value read is that of
//! an entry that the bounds admit, and in a store that holds one snapshot
//! every such entry is one that the snapshot wrote for the family and the
//! dimension asked for.

use vstd::prelude::*;
use vstd::set_lib::{lemma_int_range, lemma_len_subset, set_int_range};
use crate::key_order::{lemma_key_time_in_range, lemma_time_field_order, time_limit};
use crate::key_time::{lemma_decimal_colon_free, lemma_joined, lemma_words};
use crate::listing::{
    apply_puts,
    lemma_run,
    lemma_seek,
    scanned,
    seek,
    sorted,
    store_put,
    Listing,
    Pair,
};
use crate::records::{FlowRecord, ProtocolRecord};
use crate::stats::{EnhancedTrafficStats, FlowKey, PortStats, ProtocolStats};
use crate::storage::{
    decoded_flows,
    decoded_protocols,
    flow_record_of,
    protocol_record_of,
    snapshot_puts,
};
use crate::storage_keys::{
    colon,
    flow_key_spec,
    ip_flows_key_spec,
    ip_protocol_key_spec,
    joined,
    port_flows_key_spec,
    port_stats_key_spec,
    protocol_key_spec,
    Bounds,
    Family,
};
use crate::storage_laws::{
    field_at,
    flow_value,
    key_family,
    lemma_apply_puts_sorted,
    lemma_batch_entry,
    lemma_decimal_injective,
    lemma_entry_families,
    lemma_flow_key_fields,
    lemma_flow_keys_injective,
    lemma_record_key_fields,
    lemma_scan_reads_flows,
    lemma_scan_reads_records,
    lemma_snapshot_flows_held,
    lemma_snapshot_protocols_held,
    lemma_snapshot_round_trip,
    port_value,
    protocol_value,
    rest_after,
    scan_reads_key,
};
use crate::table::{distinct_keys, Slot};
use crate::text::{
    decimal,
    has_prefix,
    lemma_decimal_digits,
    lemma_lex_le_trans,
    lex_le,
    lex_lt,
    time_field,
};
use crate::time::Timestamp;

verus! {

/// A store that holds one snapshot and nothing else.
pub open spec fn snapshot_listing(
    now: Timestamp,
    flows: Seq<Slot<FlowKey, EnhancedTrafficStats>>,
    protocols: Seq<Slot<u32, ProtocolStats>>,
    ports: Seq<Slot<u16, PortStats>>,
) -> Listing {
    apply_puts(Seq::<Pair>::empty(), snapshot_puts(now, flows, protocols, ports).unwrap())
}

/// Every value that a range scan of a sorted listing reads is that of an
/// entry that the bounds admit and whose key is not before the start key:
/// the value at place `x` of the scan is that of the entry `x` places
/// behind the place where the scan starts.
pub proof fn lemma_scan_entry(l: Listing, bounds: Bounds, x: int)
    requires
        sorted(l),
        0 <= x < scanned(l, bounds).len(),
    ensures
        ({
            let j = seek(l, bounds.start) + x;
            &&& 0 <= j < l.len()
            &&& scanned(l, bounds)[x] == l[j].value
            &&& bounds.admits(l[j].key)
            &&& lex_le(bounds.start, l[j].key)
        }),
{
    let from = seek(l, bounds.start);
    let rest = l.skip(from);
    lemma_seek(l, bounds.start);
    lemma_run(rest, bounds);
    assert(rest[x] == l[from + x]);
    if x > 0 {
        assert(lex_lt(l[from].key, l[from + x].key));
        lemma_lex_le_trans(bounds.start, l[from].key, l[from + x].key);
    }
}

/// Every entry of a listing after a batch is an entry of the batch or one
/// that the listing held before.
pub proof fn lemma_applied_entry(l: Listing, puts: Seq<Pair>, j: int)
    requires
        0 <= j < apply_puts(l, puts).len(),
    ensures
        (exists|q: int| 0 <= q < puts.len() && #[trigger] puts[q] == apply_puts(l, puts)[j]) || (
        exists|i: int| 0 <= i < l.len() && #[trigger] l[i] == apply_puts(l, puts)[j]),
    decreases puts.len(),
{
    if puts.len() > 0 {
        let front = puts.drop_last();
        let before = apply_puts(l, front);
        let last = puts.last();
        let after = store_put(before, last.key, last.value);
        let at = seek(before, last.key);
        lemma_seek(before, last.key);
        assert(after == apply_puts(l, puts));
        let kept: int = if at < before.len() && before[at].key == last.key {
            if j == at {
                -1
            } else {
                j
            }
        } else {
            if j < at {
                j
            } else if j == at {
                -1
            } else {
                j - 1
            }
        };
        if kept < 0 {
            assert(after[j] == (Pair { key: last.key, value: last.value }));
            assert(puts[puts.len() - 1] == after[j]);
        } else {
            assert(after[j] == before[kept]);
            lemma_applied_entry(l, front, kept);
            if exists|q: int| 0 <= q < front.len() && #[trigger] front[q] == before[kept] {
                let q = choose|q: int| 0 <= q < front.len() && #[trigger] front[q] == before[kept];
                assert(puts[q] == after[j]);
            }
        }
    } else {
        assert(l[j] == apply_puts(l, puts)[j]);
    }
}

/// A key that starts with the word of a family and a colon is a key of
/// that family.
pub proof fn lemma_prefix_family(key: Seq<u8>, family: Family)
    requires
        has_prefix(key, family.word() + colon()),
    ensures
        key_family(key) == Some(family),
{
    let word = family.word();
    let n = word.len() as int + 1;
    let rest = key.skip(n);
    lemma_words(family);
    assert(key.subrange(0, n) == word + colon());
    assert forall|i: int| 0 <= i < key.len() implies key[i] == joined(word, rest)[i] by {
        if i < n {
            assert(key[i] == key.subrange(0, n)[i]);
        }
    }
    assert(key =~= joined(word, rest));
    lemma_joined(word, rest);
}

/// A key that starts with the word of a family, a number and a colon
/// after each has that number as its second field.
pub proof fn lemma_prefix_dimension(key: Seq<u8>, family: Family, dimension: nat)
    requires
        has_prefix(key, family.word() + colon() + decimal(dimension) + colon()),
    ensures
        key_family(key) == Some(family),
        field_at(key, 1) == Some(decimal(dimension)),
{
    let word = family.word();
    let number = decimal(dimension);
    let prefix = word + colon() + number + colon();
    let rest = key.skip(prefix.len() as int);
    lemma_words(family);
    lemma_decimal_colon_free(dimension);
    assert forall|i: int| 0 <= i < key.len() implies key[i] == joined(word, joined(number, rest))[i] by {
        if i < prefix.len() {
            assert(key[i] == key.subrange(0, prefix.len() as int)[i]);
        }
    }
    assert(key =~= joined(word, joined(number, rest)));
    lemma_joined(word, joined(number, rest));
    lemma_joined(number, rest);
    reveal_with_fuel(rest_after, 2);
}

/// In a store that holds one snapshot, every value that a range scan
/// reads is that of an entry of the snapshot's batch, and the key of that
/// entry starts with the prefix of the scan. The entry's place in the
/// batch is returned.
pub proof fn lemma_scan_reads_put(
    now: Timestamp,
    flows: Seq<Slot<FlowKey, EnhancedTrafficStats>>,
    protocols: Seq<Slot<u32, ProtocolStats>>,
    ports: Seq<Slot<u16, PortStats>>,
    bounds: Bounds,
    x: int,
) -> (q: int)
    requires
        snapshot_puts(now, flows, protocols, ports) is Some,
        0 <= x < scanned(snapshot_listing(now, flows, protocols, ports), bounds).len(),
    ensures
        ({
            let puts = snapshot_puts(now, flows, protocols, ports).unwrap();
            let l = snapshot_listing(now, flows, protocols, ports);
            let j = seek(l, bounds.start) + x;
            &&& sorted(l)
            &&& 0 <= j < l.len()
            &&& 0 <= q < puts.len()
            &&& puts[q] == l[j]
            &&& scanned(l, bounds)[x] == puts[q].value
            &&& bounds.admits(puts[q].key)
            &&& lex_le(bounds.start, puts[q].key)
        }),
{
    let puts = snapshot_puts(now, flows, protocols, ports).unwrap();
    let l = snapshot_listing(now, flows, protocols, ports);
    lemma_apply_puts_sorted(Seq::<Pair>::empty(), puts);
    lemma_scan_entry(l, bounds, x);
    let j = seek(l, bounds.start) + x;
    lemma_applied_entry(Seq::<Pair>::empty(), puts, j);
    choose|q: int| 0 <= q < puts.len() && #[trigger] puts[q] == l[j]
}

/// Where in a batch the entries of a family stand: those of the three
/// flow families in turn among the entries of the flows, those of the two
/// protocol families in turn among the entries of the addresses, and those
/// of the port family among the entries of the ports.
pub proof fn lemma_put_of_family(
    now: Timestamp,
    flows: Seq<Slot<FlowKey, EnhancedTrafficStats>>,
    protocols: Seq<Slot<u32, ProtocolStats>>,
    ports: Seq<Slot<u16, PortStats>>,
    q: int,
    family: Family,
)
    requires
        snapshot_puts(now, flows, protocols, ports) is Some,
        0 <= q < snapshot_puts(now, flows, protocols, ports).unwrap().len(),
        key_family(snapshot_puts(now, flows, protocols, ports).unwrap()[q].key) == Some(family),
    ensures
        ({
            let nf = 3 * flows.len();
            let np = 2 * protocols.len();
            match family {
                Family::Flow => q < nf && q % 3 == 0,
                Family::IpFlows => q < nf && q % 3 == 1,
                Family::PortFlows => q < nf && q % 3 == 2,
                Family::Protocol => nf <= q < nf + np && (q - nf) % 2 == 0,
                Family::IpProtocol => nf <= q < nf + np && (q - nf) % 2 == 1,
                Family::PortStats => nf + np <= q,
            }
        }),
{
    let nf = 3 * flows.len();
    let np = 2 * protocols.len();
    let none = FlowKey { ip: 0, port: 0, protocol: 0, direction: 0 };
    lemma_batch_entry(now, flows, protocols, ports, q);
    if q < nf {
        let m = q / 3;
        lemma_entry_families(now, flows[m].key, 0, 0, flow_value(now, flows[m]).unwrap());
    } else if q < nf + np {
        let m = (q - nf) / 2;
        lemma_entry_families(now, none, protocols[m].key, 0, protocol_value(now, protocols[m]).unwrap());
    } else {
        let m = q - nf - np;
        lemma_entry_families(now, none, 0, ports[m].key, port_value(now, ports[m]).unwrap());
    }
}

/// A key that a scan over a stretch of time reads is of a time in that
/// stretch, where the key and the bounds start with the same prefix and
/// have the time behind it.
pub proof fn lemma_admitted_time(
    bounds: Bounds,
    key: Seq<u8>,
    secs: int,
    rest: Seq<u8>,
    start: int,
    end: int,
    tail: Seq<u8>,
)
    requires
        0 <= start < time_limit(),
        0 <= secs < time_limit(),
        0 <= end < time_limit(),
        bounds.start == bounds.prefix + time_field(start) + tail,
        bounds.end == bounds.prefix + time_field(end) + tail,
        key == bounds.prefix + time_field(secs) + rest,
        tail.len() <= rest.len(),
        rest.subrange(0, tail.len() as int) == tail,
        rest.len() > tail.len() || bounds.end_open,
        bounds.admits(key),
        lex_le(bounds.start, key),
    ensures
        start <= secs < end,
{
    lemma_time_field_order(secs, end);
    if rest.len() > tail.len() {
        assert(key.len() != bounds.end.len());
    }
    lemma_key_time_in_range(bounds.prefix, secs, rest, start, end, tail);
}

/// In a store that holds one snapshot, a scan of all flows reads the
/// stored records of flows of the snapshot and nothing else: the value at
/// each place of the scan is the record of the flow whose place in the
/// snapshot is returned, read from the flow's key in the family.
pub proof fn lemma_flow_scan_reads_flow(
    now: Timestamp,
    flows: Seq<Slot<FlowKey, EnhancedTrafficStats>>,
    protocols: Seq<Slot<u32, ProtocolStats>>,
    ports: Seq<Slot<u16, PortStats>>,
    start: int,
    end: int,
    x: int,
) -> (m: int)
    requires
        snapshot_puts(now, flows, protocols, ports) is Some,
        0 <= x < scanned(
            snapshot_listing(now, flows, protocols, ports),
            Bounds::by_time(Family::Flow, start, end),
        ).len(),
    ensures
        0 <= start < time_limit() && 0 <= end < time_limit() && 0 <= now.secs < time_limit()
            ==> start <= now.secs < end,
        ({
            let l = snapshot_listing(now, flows, protocols, ports);
            let bounds = Bounds::by_time(Family::Flow, start, end);
            &&& 0 <= m < flows.len()
            &&& flow_value(now, flows[m]) is Some
            &&& scanned(l, bounds)[x] == flow_value(now, flows[m]).unwrap()
            &&& sorted(l)
            &&& 0 <= seek(l, bounds.start) + x < l.len()
            &&& l[seek(l, bounds.start) + x].key == flow_key_spec(now.secs as int, flows[m].key)
        }),
{
    let bounds = Bounds::by_time(Family::Flow, start, end);
    let puts = snapshot_puts(now, flows, protocols, ports).unwrap();
    let q = lemma_scan_reads_put(now, flows, protocols, ports, bounds, x);
    lemma_prefix_family(puts[q].key, Family::Flow);
    lemma_put_of_family(now, flows, protocols, ports, q, Family::Flow);
    lemma_batch_entry(now, flows, protocols, ports, q);
    let m = q / 3;
    if 0 <= start < time_limit() && 0 <= end < time_limit() && 0 <= now.secs < time_limit() {
        let k = flows[m].key;
        let tail = joined(decimal(k.protocol as nat), decimal(k.direction as nat));
        let rest = colon() + joined(decimal(k.ip as nat), joined(decimal(k.port as nat), tail));
        let key = flow_key_spec(now.secs as int, k);
        assert(key =~= bounds.prefix + time_field(now.secs as int) + rest);
        assert(rest.subrange(0, 1) =~= colon());
        lemma_admitted_time(bounds, key, now.secs as int, rest, start, end, colon());
    }
    m
}

/// In a store that holds one snapshot, a scan of the flows of an address
/// reads the stored records of flows of that address and nothing else.
pub proof fn lemma_ip_scan_reads_flow(
    now: Timestamp,
    flows: Seq<Slot<FlowKey, EnhancedTrafficStats>>,
    protocols: Seq<Slot<u32, ProtocolStats>>,
    ports: Seq<Slot<u16, PortStats>>,
    ip: u32,
    start: int,
    end: int,
    x: int,
) -> (m: int)
    requires
        snapshot_puts(now, flows, protocols, ports) is Some,
        0 <= x < scanned(
            snapshot_listing(now, flows, protocols, ports),
            Bounds::by_dimension(Family::IpFlows, ip as nat, start, end),
        ).len(),
    ensures
        0 <= start < time_limit() && 0 <= end < time_limit() && 0 <= now.secs < time_limit()
            ==> start <= now.secs < end,
        ({
            let l = snapshot_listing(now, flows, protocols, ports);
            let bounds = Bounds::by_dimension(Family::IpFlows, ip as nat, start, end);
            &&& 0 <= m < flows.len()
            &&& flows[m].key.ip == ip
            &&& flow_value(now, flows[m]) is Some
            &&& scanned(l, bounds)[x] == flow_value(now, flows[m]).unwrap()
            &&& sorted(l)
            &&& 0 <= seek(l, bounds.start) + x < l.len()
            &&& l[seek(l, bounds.start) + x].key == ip_flows_key_spec(now.secs as int, flows[m].key)
        }),
{
    let bounds = Bounds::by_dimension(Family::IpFlows, ip as nat, start, end);
    let puts = snapshot_puts(now, flows, protocols, ports).unwrap();
    let q = lemma_scan_reads_put(now, flows, protocols, ports, bounds, x);
    lemma_prefix_dimension(puts[q].key, Family::IpFlows, ip as nat);
    lemma_put_of_family(now, flows, protocols, ports, q, Family::IpFlows);
    lemma_batch_entry(now, flows, protocols, ports, q);
    let m = q / 3;
    lemma_flow_key_fields(now.secs as int, flows[m].key);
    lemma_decimal_injective(flows[m].key.ip as nat, ip as nat);
    if 0 <= start < time_limit() && 0 <= end < time_limit() && 0 <= now.secs < time_limit() {
        let k = flows[m].key;
        let tail = joined(decimal(k.protocol as nat), decimal(k.direction as nat));
        let rest = colon() + joined(decimal(k.port as nat), tail);
        let key = ip_flows_key_spec(now.secs as int, k);
        assert(key =~= bounds.prefix + time_field(now.secs as int) + rest);
        assert(rest.subrange(0, 1) =~= colon());
        lemma_admitted_time(bounds, key, now.secs as int, rest, start, end, colon());
    }
    m
}

/// In a store that holds one snapshot, a scan of the flows of a port
/// reads the stored records of flows of that port and nothing else.
pub proof fn lemma_port_scan_reads_flow(
    now: Timestamp,
    flows: Seq<Slot<FlowKey, EnhancedTrafficStats>>,
    protocols: Seq<Slot<u32, ProtocolStats>>,
    ports: Seq<Slot<u16, PortStats>>,
    port: u16,
    start: int,
    end: int,
    x: int,
) -> (m: int)
    requires
        snapshot_puts(now, flows, protocols, ports) is Some,
        0 <= x < scanned(
            snapshot_listing(now, flows, protocols, ports),
            Bounds::by_dimension(Family::PortFlows, port as nat, start, end),
        ).len(),
    ensures
        0 <= start < time_limit() && 0 <= end < time_limit() && 0 <= now.secs < time_limit()
            ==> start <= now.secs < end,
        ({
            let l = snapshot_listing(now, flows, protocols, ports);
            let bounds = Bounds::by_dimension(Family::PortFlows, port as nat, start, end);
            &&& 0 <= m < flows.len()
            &&& flows[m].key.port == port
            &&& flow_value(now, flows[m]) is Some
            &&& scanned(l, bounds)[x] == flow_value(now, flows[m]).unwrap()
            &&& sorted(l)
            &&& 0 <= seek(l, bounds.start) + x < l.len()
            &&& l[seek(l, bounds.start) + x].key == port_flows_key_spec(
                now.secs as int,
                flows[m].key,
            )
        }),
{
    let bounds = Bounds::by_dimension(Family::PortFlows, port as nat, start, end);
    let puts = snapshot_puts(now, flows, protocols, ports).unwrap();
    let q = lemma_scan_reads_put(now, flows, protocols, ports, bounds, x);
    lemma_prefix_dimension(puts[q].key, Family::PortFlows, port as nat);
    lemma_put_of_family(now, flows, protocols, ports, q, Family::PortFlows);
    lemma_batch_entry(now, flows, protocols, ports, q);
    let m = q / 3;
    lemma_flow_key_fields(now.secs as int, flows[m].key);
    lemma_decimal_injective(flows[m].key.port as nat, port as nat);
    if 0 <= start < time_limit() && 0 <= end < time_limit() && 0 <= now.secs < time_limit() {
        let k = flows[m].key;
        let tail = joined(decimal(k.protocol as nat), decimal(k.direction as nat));
        let rest = colon() + joined(decimal(k.ip as nat), tail);
        let key = port_flows_key_spec(now.secs as int, k);
        assert(key =~= bounds.prefix + time_field(now.secs as int) + rest);
        assert(rest.subrange(0, 1) =~= colon());
        lemma_admitted_time(bounds, key, now.secs as int, rest, start, end, colon());
    }
    m
}

/// In a store that holds one snapshot, a scan of all protocol records
/// reads the stored records of addresses of the snapshot and nothing else.
pub proof fn lemma_protocol_scan_reads_record(
    now: Timestamp,
    flows: Seq<Slot<FlowKey, EnhancedTrafficStats>>,
    protocols: Seq<Slot<u32, ProtocolStats>>,
    ports: Seq<Slot<u16, PortStats>>,
    start: int,
    end: int,
    x: int,
) -> (m: int)
    requires
        snapshot_puts(now, flows, protocols, ports) is Some,
        0 <= x < scanned(
            snapshot_listing(now, flows, protocols, ports),
            Bounds::by_time(Family::Protocol, start, end),
        ).len(),
    ensures
        0 <= start < time_limit() && 0 <= end < time_limit() && 0 <= now.secs < time_limit()
            ==> start <= now.secs < end,
        ({
            let l = snapshot_listing(now, flows, protocols, ports);
            let bounds = Bounds::by_time(Family::Protocol, start, end);
            &&& 0 <= m < protocols.len()
            &&& protocol_value(now, protocols[m]) is Some
            &&& scanned(l, bounds)[x] == protocol_value(now, protocols[m]).unwrap()
            &&& sorted(l)
            &&& 0 <= seek(l, bounds.start) + x < l.len()
            &&& l[seek(l, bounds.start) + x].key == protocol_key_spec(
                now.secs as int,
                protocols[m].key,
            )
        }),
{
    let bounds = Bounds::by_time(Family::Protocol, start, end);
    let puts = snapshot_puts(now, flows, protocols, ports).unwrap();
    let q = lemma_scan_reads_put(now, flows, protocols, ports, bounds, x);
    lemma_prefix_family(puts[q].key, Family::Protocol);
    lemma_put_of_family(now, flows, protocols, ports, q, Family::Protocol);
    lemma_batch_entry(now, flows, protocols, ports, q);
    let m = (q - 3 * flows.len()) / 2;
    if 0 <= start < time_limit() && 0 <= end < time_limit() && 0 <= now.secs < time_limit() {
        let rest = colon() + decimal(protocols[m].key as nat);
        let key = protocol_key_spec(now.secs as int, protocols[m].key);
        assert(key =~= bounds.prefix + time_field(now.secs as int) + rest);
        assert(rest.subrange(0, 1) =~= colon());
        lemma_decimal_digits(protocols[m].key as nat);
        lemma_admitted_time(bounds, key, now.secs as int, rest, start, end, colon());
    }
    m
}

/// In a store that holds one snapshot, a scan of the protocol records of
/// an address reads the stored record of that address and nothing else.
pub proof fn lemma_ip_scan_reads_record(
    now: Timestamp,
    flows: Seq<Slot<FlowKey, EnhancedTrafficStats>>,
    protocols: Seq<Slot<u32, ProtocolStats>>,
    ports: Seq<Slot<u16, PortStats>>,
    ip: u32,
    start: int,
    end: int,
    x: int,
) -> (m: int)
    requires
        snapshot_puts(now, flows, protocols, ports) is Some,
        0 <= x < scanned(
            snapshot_listing(now, flows, protocols, ports),
            Bounds::ip_protocol(ip, start, end),
        ).len(),
    ensures
        0 <= start < time_limit() && 0 <= end < time_limit() && 0 <= now.secs < time_limit()
            ==> start <= now.secs < end,
        ({
            let l = snapshot_listing(now, flows, protocols, ports);
            let bounds = Bounds::ip_protocol(ip, start, end);
            &&& 0 <= m < protocols.len()
            &&& protocols[m].key == ip
            &&& protocol_value(now, protocols[m]) is Some
            &&& scanned(l, bounds)[x] == protocol_value(now, protocols[m]).unwrap()
            &&& sorted(l)
            &&& 0 <= seek(l, bounds.start) + x < l.len()
            &&& l[seek(l, bounds.start) + x].key == ip_protocol_key_spec(
                now.secs as int,
                protocols[m].key,
            )
        }),
{
    let bounds = Bounds::ip_protocol(ip, start, end);
    let puts = snapshot_puts(now, flows, protocols, ports).unwrap();
    let q = lemma_scan_reads_put(now, flows, protocols, ports, bounds, x);
    lemma_prefix_dimension(puts[q].key, Family::IpProtocol, ip as nat);
    lemma_put_of_family(now, flows, protocols, ports, q, Family::IpProtocol);
    lemma_batch_entry(now, flows, protocols, ports, q);
    let m = (q - 3 * flows.len()) / 2;
    lemma_record_key_fields(now.secs as int, protocols[m].key, 0);
    lemma_decimal_injective(protocols[m].key as nat, ip as nat);
    if 0 <= start < time_limit() && 0 <= end < time_limit() && 0 <= now.secs < time_limit() {
        let rest = Seq::<u8>::empty();
        let key = ip_protocol_key_spec(now.secs as int, protocols[m].key);
        assert(key =~= bounds.prefix + time_field(now.secs as int) + rest);
        assert(bounds.start =~= bounds.prefix + time_field(start) + rest);
        assert(bounds.end =~= bounds.prefix + time_field(end) + rest);
        assert(rest.subrange(0, 0) =~= rest);
        lemma_admitted_time(bounds, key, now.secs as int, rest, start, end, rest);
    }
    m
}

/// In a store that holds one snapshot, a scan of all port records reads
/// the stored records of ports of the snapshot and nothing else.
pub proof fn lemma_port_scan_reads_record(
    now: Timestamp,
    flows: Seq<Slot<FlowKey, EnhancedTrafficStats>>,
    protocols: Seq<Slot<u32, ProtocolStats>>,
    ports: Seq<Slot<u16, PortStats>>,
    start: int,
    end: int,
    x: int,
) -> (m: int)
    requires
        snapshot_puts(now, flows, protocols, ports) is Some,
        0 <= x < scanned(
            snapshot_listing(now, flows, protocols, ports),
            Bounds::by_time(Family::PortStats, start, end),
        ).len(),
    ensures
        0 <= start < time_limit() && 0 <= end < time_limit() && 0 <= now.secs < time_limit()
            ==> start <= now.secs < end,
        ({
            let l = snapshot_listing(now, flows, protocols, ports);
            let bounds = Bounds::by_time(Family::PortStats, start, end);
            &&& 0 <= m < ports.len()
            &&& port_value(now, ports[m]) is Some
            &&& scanned(l, bounds)[x] == port_value(now, ports[m]).unwrap()
            &&& sorted(l)
            &&& 0 <= seek(l, bounds.start) + x < l.len()
            &&& l[seek(l, bounds.start) + x].key == port_stats_key_spec(
                now.secs as int,
                ports[m].key,
            )
        }),
{
    let bounds = Bounds::by_time(Family::PortStats, start, end);
    let puts = snapshot_puts(now, flows, protocols, ports).unwrap();
    let q = lemma_scan_reads_put(now, flows, protocols, ports, bounds, x);
    lemma_prefix_family(puts[q].key, Family::PortStats);
    lemma_put_of_family(now, flows, protocols, ports, q, Family::PortStats);
    lemma_batch_entry(now, flows, protocols, ports, q);
    let m = q - 3 * flows.len() - 2 * protocols.len();
    if 0 <= start < time_limit() && 0 <= end < time_limit() && 0 <= now.secs < time_limit() {
        let rest = colon() + decimal(ports[m].key as nat);
        let key = port_stats_key_spec(now.secs as int, ports[m].key);
        assert(key =~= bounds.prefix + time_field(now.secs as int) + rest);
        assert(rest.subrange(0, 1) =~= colon());
        lemma_decimal_digits(ports[m].key as nat);
        lemma_admitted_time(bounds, key, now.secs as int, rest, start, end, colon());
    }
    m
}

/// Places that differ from each other and lie among the first `bound`
/// are at most `bound`.
pub proof fn lemma_places_bound(places: Seq<int>, bound: int)
    requires
        0 <= bound,
        places.no_duplicates(),
        forall|i: int| 0 <= i < places.len() ==> 0 <= #[trigger] places[i] < bound,
    ensures
        places.len() <= bound,
{
    if places.len() > 0 {
        places.unique_seq_to_set();
        lemma_int_range(0, bound);
        assert forall|a: int| places.to_set().contains(a) implies set_int_range(0, bound).contains(
            a,
        ) by {
            let i = choose|i: int| 0 <= i < places.len() && places[i] == a;
            assert(0 <= places[i] < bound);
        }
        assert(places.to_set().subset_of(set_int_range(0, bound)));
        lemma_len_subset(places.to_set(), set_int_range(0, bound));
    }
}

/// In a store that holds one snapshot, a scan of all flows over a stretch
/// of time that the snapshot's time lies in reads as many values as the
/// snapshot has flows.
pub proof fn lemma_flow_scan_len(
    now: Timestamp,
    flows: Seq<Slot<FlowKey, EnhancedTrafficStats>>,
    protocols: Seq<Slot<u32, ProtocolStats>>,
    ports: Seq<Slot<u16, PortStats>>,
    start: int,
    end: int,
)
    requires
        snapshot_puts(now, flows, protocols, ports) is Some,
        distinct_keys(flows),
        0 <= start <= now.secs < end < time_limit(),
    ensures
        scanned(
            snapshot_listing(now, flows, protocols, ports),
            Bounds::by_time(Family::Flow, start, end),
        ).len() == flows.len(),
{
    let l = snapshot_listing(now, flows, protocols, ports);
    let bounds = Bounds::by_time(Family::Flow, start, end);
    let n = scanned(l, bounds).len();
    let from = seek(l, bounds.start);
    let secs = now.secs as int;
    lemma_apply_puts_sorted(Seq::<Pair>::empty(), snapshot_puts(now, flows, protocols, ports).unwrap());
    let read = Seq::new(
        n,
        |x: int|
            choose|m: int|
                0 <= m < flows.len() && l[from + x].key == flow_key_spec(secs, (#[trigger] flows[m]).key),
    );
    assert forall|x: int| 0 <= x < n implies 0 <= #[trigger] read[x] < flows.len() && l[from + x].key
        == flow_key_spec(secs, flows[read[x]].key) by {
        let m = lemma_flow_scan_reads_flow(now, flows, protocols, ports, start, end, x);
        assert(0 <= m < flows.len() && l[from + x].key == flow_key_spec(secs, flows[m].key));
    }
    assert forall|x: int, y: int| 0 <= x < y < n implies read[x] != read[y] by {
        assert(0 <= read[x] < flows.len() && l[from + x].key == flow_key_spec(secs, flows[read[x]].key));
        assert(0 <= read[y] < flows.len() && l[from + y].key == flow_key_spec(secs, flows[read[y]].key));
        lemma_seek(l, bounds.start);
        lemma_scan_entry(l, bounds, y);
        assert(lex_lt(l[from + x].key, l[from + y].key));
    }
    assert(read.no_duplicates()) by {
        assert forall|x: int, y: int| 0 <= x < read.len() && 0 <= y < read.len() && x != y implies read[x]
            != read[y] by {
            if x < y {
                assert(read[x] != read[y]);
            } else {
                assert(read[y] != read[x]);
            }
        }
    }
    lemma_places_bound(read, flows.len() as int);
    let written = Seq::new(flows.len(), |m: int| seek(l, flow_key_spec(secs, flows[m].key)) - from);
    assert forall|m: int| 0 <= m < flows.len() implies scan_reads_key(
        l,
        bounds,
        flow_key_spec(secs, (#[trigger] flows[m]).key),
    ) by {
        lemma_snapshot_flows_held(Seq::<Pair>::empty(), now, flows, protocols, ports, m);
        lemma_scan_reads_flows(l, secs, flows[m].key, start, end);
    }
    assert forall|m: int| 0 <= m < written.len() implies 0 <= #[trigger] written[m] < n by {
        assert(scan_reads_key(l, bounds, flow_key_spec(secs, flows[m].key)));
    }
    assert(written.no_duplicates()) by {
        assert forall|a: int, b: int|
            0 <= a < written.len() && 0 <= b < written.len() && a != b implies written[a]
            != written[b] by {
            assert(scan_reads_key(l, bounds, flow_key_spec(secs, flows[a].key)));
            assert(scan_reads_key(l, bounds, flow_key_spec(secs, flows[b].key)));
            if written[a] == written[b] {
                lemma_flow_keys_injective(secs, flows[a].key, secs, flows[b].key);
                if a < b {
                    assert(flows[a].key != flows[b].key);
                } else {
                    assert(flows[b].key != flows[a].key);
                }
            }
        }
    }
    lemma_places_bound(written, n as int);
}

/// In a store that holds one snapshot, a scan over a stretch of time that
/// the snapshot's time does not lie in reads nothing, in every family: the
/// start of the stretch is part of it, and the end is not.
pub proof fn lemma_scan_outside_reads_nothing(
    now: Timestamp,
    flows: Seq<Slot<FlowKey, EnhancedTrafficStats>>,
    protocols: Seq<Slot<u32, ProtocolStats>>,
    ports: Seq<Slot<u16, PortStats>>,
    ip: u32,
    port: u16,
    start: int,
    end: int,
)
    requires
        snapshot_puts(now, flows, protocols, ports) is Some,
        0 <= start < time_limit(),
        0 <= end < time_limit(),
        0 <= now.secs < time_limit(),
        !(start <= now.secs < end),
    ensures
        ({
            let l = snapshot_listing(now, flows, protocols, ports);
            &&& scanned(l, Bounds::by_time(Family::Flow, start, end)).len() == 0
            &&& scanned(l, Bounds::by_dimension(Family::IpFlows, ip as nat, start, end)).len() == 0
            &&& scanned(l, Bounds::by_dimension(Family::PortFlows, port as nat, start, end)).len()
                == 0
            &&& scanned(l, Bounds::by_time(Family::Protocol, start, end)).len() == 0
            &&& scanned(l, Bounds::ip_protocol(ip, start, end)).len() == 0
            &&& scanned(l, Bounds::by_time(Family::PortStats, start, end)).len() == 0
        }),
{
    let l = snapshot_listing(now, flows, protocols, ports);
    if scanned(l, Bounds::by_time(Family::Flow, start, end)).len() > 0 {
        lemma_flow_scan_reads_flow(now, flows, protocols, ports, start, end, 0);
    }
    if scanned(l, Bounds::by_dimension(Family::IpFlows, ip as nat, start, end)).len() > 0 {
        lemma_ip_scan_reads_flow(now, flows, protocols, ports, ip, start, end, 0);
    }
    if scanned(l, Bounds::by_dimension(Family::PortFlows, port as nat, start, end)).len() > 0 {
        lemma_port_scan_reads_flow(now, flows, protocols, ports, port, start, end, 0);
    }
    if scanned(l, Bounds::by_time(Family::Protocol, start, end)).len() > 0 {
        lemma_protocol_scan_reads_record(now, flows, protocols, ports, start, end, 0);
    }
    if scanned(l, Bounds::ip_protocol(ip, start, end)).len() > 0 {
        lemma_ip_scan_reads_record(now, flows, protocols, ports, ip, start, end, 0);
    }
    if scanned(l, Bounds::by_time(Family::PortStats, start, end)).len() > 0 {
        lemma_port_scan_reads_record(now, flows, protocols, ports, start, end, 0);
    }
}

/// Whether every flow of a snapshot is read back from its stored bytes as
/// the record that was written for it.
pub open spec fn flows_read_back(
    now: Timestamp,
    flows: Seq<Slot<FlowKey, EnhancedTrafficStats>>,
) -> bool {
    forall|m: int|
        0 <= m < flows.len() ==> (flow_value(now, #[trigger] flows[m]) matches Some(bytes)
            ==> FlowRecord::decoding(bytes) == Some(flow_record_of(now, flows[m])))
}

/// Whether every address of a snapshot is read back from its stored bytes
/// as the record that was written for it.
pub open spec fn protocols_read_back(now: Timestamp, protocols: Seq<Slot<u32, ProtocolStats>>) -> bool {
    forall|m: int|
        0 <= m < protocols.len() ==> (protocol_value(now, #[trigger] protocols[m]) matches Some(
            bytes,
        ) ==> ProtocolRecord::decoding(bytes) == Some(protocol_record_of(now, protocols[m])))
}

/// Whether `record` is the record written for one of `flows`.
pub open spec fn is_written_flow(
    now: Timestamp,
    flows: Seq<Slot<FlowKey, EnhancedTrafficStats>>,
    record: FlowRecord,
) -> bool {
    exists|m: int| 0 <= m < flows.len() && record == flow_record_of(now, #[trigger] flows[m])
}

/// Values that all hold a flow record are read as those records, one for
/// one.
pub proof fn lemma_decoded_flows_all(values: Seq<Seq<u8>>, records: Seq<FlowRecord>)
    requires
        records.len() == values.len(),
        forall|x: int|
            0 <= x < values.len() ==> FlowRecord::decoding(#[trigger] values[x]) == Some(records[x]),
    ensures
        decoded_flows(values) == records,
    decreases values.len(),
{
    if values.len() > 0 {
        lemma_decoded_flows_all(values.drop_last(), records.drop_last());
        assert(FlowRecord::decoding(values[values.len() - 1]) == Some(records[values.len() - 1]));
        assert(records.drop_last().push(records.last()) =~= records);
    } else {
        assert(records =~= Seq::<FlowRecord>::empty());
    }
}

/// Values that all hold a protocol record are read as those records, one
/// for one.
pub proof fn lemma_decoded_protocols_all(values: Seq<Seq<u8>>, records: Seq<ProtocolRecord>)
    requires
        records.len() == values.len(),
        forall|x: int|
            0 <= x < values.len() ==> ProtocolRecord::decoding(#[trigger] values[x]) == Some(
                records[x],
            ),
    ensures
        decoded_protocols(values) == records,
    decreases values.len(),
{
    if values.len() > 0 {
        lemma_decoded_protocols_all(values.drop_last(), records.drop_last());
        assert(ProtocolRecord::decoding(values[values.len() - 1]) == Some(
            records[values.len() - 1],
        ));
        assert(records.drop_last().push(records.last()) =~= records);
    } else {
        assert(records =~= Seq::<ProtocolRecord>::empty());
    }
}

/// Exact round trip of a snapshot's flows through the family ordered by
/// time. A snapshot with one entry for each flow is written at `now` to an
/// empty store, and every flow is read back from its stored bytes as it
/// was written. The flows of a stretch of time that `now` lies in are then
/// as many records as the snapshot has flows, each of them the record of a
/// flow of the snapshot, and the record of every flow is among them.
pub proof fn lemma_snapshot_flows_read_exactly(
    now: Timestamp,
    flows: Seq<Slot<FlowKey, EnhancedTrafficStats>>,
    protocols: Seq<Slot<u32, ProtocolStats>>,
    ports: Seq<Slot<u16, PortStats>>,
    start: int,
    end: int,
)
    requires
        snapshot_puts(now, flows, protocols, ports) is Some,
        distinct_keys(flows),
        0 <= start <= now.secs < end < time_limit(),
        flows_read_back(now, flows),
    ensures
        ({
            let records = decoded_flows(
                scanned(
                    snapshot_listing(now, flows, protocols, ports),
                    Bounds::by_time(Family::Flow, start, end),
                ),
            );
            &&& records.len() == flows.len()
            &&& forall|x: int|
                0 <= x < records.len() ==> is_written_flow(now, flows, #[trigger] records[x])
            &&& forall|m: int|
                0 <= m < flows.len() ==> records.contains(flow_record_of(now, #[trigger] flows[m]))
        }),
{
    let l = snapshot_listing(now, flows, protocols, ports);
    let values = scanned(l, Bounds::by_time(Family::Flow, start, end));
    let records = Seq::new(values.len(), |x: int| FlowRecord::decoding(values[x]).unwrap());
    assert forall|x: int| 0 <= x < values.len() implies FlowRecord::decoding(#[trigger] values[x])
        == Some(records[x]) && is_written_flow(now, flows, records[x]) by {
        let m = lemma_flow_scan_reads_flow(now, flows, protocols, ports, start, end, x);
        assert(flow_value(now, flows[m]) is Some);
    }
    lemma_decoded_flows_all(values, records);
    lemma_flow_scan_len(now, flows, protocols, ports, start, end);
    assert forall|m: int| 0 <= m < flows.len() implies decoded_flows(values).contains(
        flow_record_of(now, #[trigger] flows[m]),
    ) by {
        assert(flow_value(now, flows[m]) matches Some(bytes) ==> FlowRecord::decoding(bytes) == Some(
            flow_record_of(now, flows[m]),
        ));
        lemma_snapshot_round_trip(Seq::<Pair>::empty(), now, flows, protocols, ports, m, start, end);
    }
}

/// Exact round trip of a snapshot's flows through the family ordered by
/// address. A snapshot with one entry for each flow is written at `now` to
/// an empty store, and every flow is read back from its stored bytes as it
/// was written. The flows of an address over a stretch of time that `now`
/// lies in are then records of flows of that address in the snapshot, no
/// two of them of the same flow, and the record of every flow of the
/// address is among them.
pub proof fn lemma_snapshot_ip_flows_read_exactly(
    now: Timestamp,
    flows: Seq<Slot<FlowKey, EnhancedTrafficStats>>,
    protocols: Seq<Slot<u32, ProtocolStats>>,
    ports: Seq<Slot<u16, PortStats>>,
    ip: u32,
    start: int,
    end: int,
)
    requires
        snapshot_puts(now, flows, protocols, ports) is Some,
        distinct_keys(flows),
        0 <= start <= now.secs < end < time_limit(),
        flows_read_back(now, flows),
    ensures
        ({
            let records = decoded_flows(
                scanned(
                    snapshot_listing(now, flows, protocols, ports),
                    Bounds::by_dimension(Family::IpFlows, ip as nat, start, end),
                ),
            );
            &&& forall|x: int|
                0 <= x < records.len() ==> (#[trigger] records[x]).flow_key.ip == ip
                    && is_written_flow(now, flows, records[x])
            &&& forall|x: int, y: int|
                0 <= x < y < records.len() ==> (#[trigger] records[x]).flow_key != (
                #[trigger] records[y]).flow_key
            &&& forall|m: int|
                0 <= m < flows.len() && (#[trigger] flows[m]).key.ip == ip ==> records.contains(
                    flow_record_of(now, flows[m]),
                )
        }),
{
    let l = snapshot_listing(now, flows, protocols, ports);
    let bounds = Bounds::by_dimension(Family::IpFlows, ip as nat, start, end);
    let from = seek(l, bounds.start);
    let values = scanned(l, bounds);
    let records = Seq::new(values.len(), |x: int| FlowRecord::decoding(values[x]).unwrap());
    assert forall|x: int| 0 <= x < values.len() implies FlowRecord::decoding(#[trigger] values[x])
        == Some(records[x]) && is_written_flow(now, flows, records[x]) && records[x].flow_key.ip
        == ip by {
        let m = lemma_ip_scan_reads_flow(now, flows, protocols, ports, ip, start, end, x);
        assert(flow_value(now, flows[m]) is Some);
    }
    lemma_decoded_flows_all(values, records);
    assert forall|x: int, y: int| 0 <= x < y < records.len() implies (#[trigger] records[x]).flow_key
        != (#[trigger] records[y]).flow_key by {
        let a = lemma_ip_scan_reads_flow(now, flows, protocols, ports, ip, start, end, x);
        let b = lemma_ip_scan_reads_flow(now, flows, protocols, ports, ip, start, end, y);
        assert(flow_value(now, flows[a]) is Some);
        assert(flow_value(now, flows[b]) is Some);
        assert(lex_lt(l[from + x].key, l[from + y].key));
        if records[x].flow_key == records[y].flow_key {
            assert(flows[a].key == flows[b].key);
        }
    }
    assert forall|m: int| 0 <= m < flows.len() && (#[trigger] flows[m]).key.ip
        == ip implies decoded_flows(values).contains(flow_record_of(now, flows[m])) by {
        assert(flow_value(now, flows[m]) matches Some(bytes) ==> FlowRecord::decoding(bytes) == Some(
            flow_record_of(now, flows[m]),
        ));
        lemma_snapshot_round_trip(Seq::<Pair>::empty(), now, flows, protocols, ports, m, start, end);
    }
}

/// Exact round trip of a snapshot's flows through the family ordered by
/// port. A snapshot with one entry for each flow is written at `now` to an
/// empty store, and every flow is read back from its stored bytes as it
/// was written. The flows of a port over a stretch of time that `now` lies
/// in are then records of flows of that port in the snapshot, no two of
/// them of the same flow, and the record of every flow of the port is
/// among them.
pub proof fn lemma_snapshot_port_flows_read_exactly(
    now: Timestamp,
    flows: Seq<Slot<FlowKey, EnhancedTrafficStats>>,
    protocols: Seq<Slot<u32, ProtocolStats>>,
    ports: Seq<Slot<u16, PortStats>>,
    port: u16,
    start: int,
    end: int,
)
    requires
        snapshot_puts(now, flows, protocols, ports) is Some,
        distinct_keys(flows),
        0 <= start <= now.secs < end < time_limit(),
        flows_read_back(now, flows),
    ensures
        ({
            let records = decoded_flows(
                scanned(
                    snapshot_listing(now, flows, protocols, ports),
                    Bounds::by_dimension(Family::PortFlows, port as nat, start, end),
                ),
            );
            &&& forall|x: int|
                0 <= x < records.len() ==> (#[trigger] records[x]).flow_key.port == port
                    && is_written_flow(now, flows, records[x])
            &&& forall|x: int, y: int|
                0 <= x < y < records.len() ==> (#[trigger] records[x]).flow_key != (
                #[trigger] records[y]).flow_key
            &&& forall|m: int|
                0 <= m < flows.len() && (#[trigger] flows[m]).key.port == port ==> records.contains(
                    flow_record_of(now, flows[m]),
                )
        }),
{
    let l = snapshot_listing(now, flows, protocols, ports);
    let bounds = Bounds::by_dimension(Family::PortFlows, port as nat, start, end);
    let from = seek(l, bounds.start);
    let values = scanned(l, bounds);
    let records = Seq::new(values.len(), |x: int| FlowRecord::decoding(values[x]).unwrap());
    assert forall|x: int| 0 <= x < values.len() implies FlowRecord::decoding(#[trigger] values[x])
        == Some(records[x]) && is_written_flow(now, flows, records[x]) && records[x].flow_key.port
        == port by {
        let m = lemma_port_scan_reads_flow(now, flows, protocols, ports, port, start, end, x);
        assert(flow_value(now, flows[m]) is Some);
    }
    lemma_decoded_flows_all(values, records);
    assert forall|x: int, y: int| 0 <= x < y < records.len() implies (#[trigger] records[x]).flow_key
        != (#[trigger] records[y]).flow_key by {
        let a = lemma_port_scan_reads_flow(now, flows, protocols, ports, port, start, end, x);
        let b = lemma_port_scan_reads_flow(now, flows, protocols, ports, port, start, end, y);
        assert(flow_value(now, flows[a]) is Some);
        assert(flow_value(now, flows[b]) is Some);
        assert(lex_lt(l[from + x].key, l[from + y].key));
        if records[x].flow_key == records[y].flow_key {
            assert(flows[a].key == flows[b].key);
        }
    }
    assert forall|m: int| 0 <= m < flows.len() && (#[trigger] flows[m]).key.port
        == port implies decoded_flows(values).contains(flow_record_of(now, flows[m])) by {
        assert(flow_value(now, flows[m]) matches Some(bytes) ==> FlowRecord::decoding(bytes) == Some(
            flow_record_of(now, flows[m]),
        ));
        lemma_snapshot_round_trip(Seq::<Pair>::empty(), now, flows, protocols, ports, m, start, end);
    }
}

/// Exact round trip of a snapshot's address records through the family
/// ordered by address. A snapshot with one entry for each address is
/// written at `now` to an empty store, and every address is read back from
/// its stored bytes as it was written. The protocol history of an address
/// of the snapshot over a stretch of time that `now` lies in is then the
/// record of that address and nothing else.
pub proof fn lemma_snapshot_protocol_history_exactly(
    now: Timestamp,
    flows: Seq<Slot<FlowKey, EnhancedTrafficStats>>,
    protocols: Seq<Slot<u32, ProtocolStats>>,
    ports: Seq<Slot<u16, PortStats>>,
    i: int,
    start: int,
    end: int,
)
    requires
        snapshot_puts(now, flows, protocols, ports) is Some,
        distinct_keys(protocols),
        0 <= i < protocols.len(),
        0 <= start <= now.secs < end < time_limit(),
        protocols_read_back(now, protocols),
    ensures
        decoded_protocols(
            scanned(
                snapshot_listing(now, flows, protocols, ports),
                Bounds::ip_protocol(protocols[i].key, start, end),
            ),
        ) == seq![protocol_record_of(now, protocols[i])],
{
    let l = snapshot_listing(now, flows, protocols, ports);
    let ip = protocols[i].key;
    let bounds = Bounds::ip_protocol(ip, start, end);
    let from = seek(l, bounds.start);
    let values = scanned(l, bounds);
    let records = seq![protocol_record_of(now, protocols[i])];
    assert forall|x: int| 0 <= x < values.len() implies (#[trigger] values[x]) == protocol_value(
        now,
        protocols[i],
    ).unwrap() && l[from + x].key == ip_protocol_key_spec(now.secs as int, ip) by {
        let m = lemma_ip_scan_reads_record(now, flows, protocols, ports, ip, start, end, x);
        if m < i {
            assert(protocols[m].key != protocols[i].key);
        } else if i < m {
            assert(protocols[i].key != protocols[m].key);
        }
    }
    lemma_apply_puts_sorted(Seq::<Pair>::empty(), snapshot_puts(now, flows, protocols, ports).unwrap());
    if values.len() >= 2 {
        lemma_scan_entry(l, bounds, 1);
        assert(values[0] == values[1]);
        assert(lex_lt(l[from + 0].key, l[from + 1].key));
    }
    lemma_snapshot_protocols_held(Seq::<Pair>::empty(), now, flows, protocols, ports, i);
    lemma_scan_reads_records(l, now.secs as int, ip, 0, start, end);
    assert(scan_reads_key(l, bounds, ip_protocol_key_spec(now.secs as int, ip)));
    assert(values.len() == 1);
    assert(protocol_value(now, protocols[i]) matches Some(bytes) ==> ProtocolRecord::decoding(bytes)
        == Some(protocol_record_of(now, protocols[i])));
    lemma_decoded_protocols_all(values, records);
}

} // verus!
