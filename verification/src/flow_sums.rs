//! Sums and groupings over the flows of a snapshot: what the analytics are
//! stated in. A sum is taken over the flows that a selector picks, of one
//! measure of their counters; it is exact, and the figure reported for it is
//! the sum held at the largest value a counter can take.

use vstd::prelude::*;
use crate::stats::{capped_u64, lemma_capped_u64_chain, EnhancedTrafficStats, FlowKey};
use crate::table::{
    lemma_position,
    lemma_position_is,
    lemma_position_none,
    lookup,
    put,
    BoundedTable,
    Slot,
};

verus! {

/// The flows of a snapshot.
pub type FlowSeq = Seq<Slot<FlowKey, EnhancedTrafficStats>>;

/// Which flows a sum or a grouping takes: those that agree with every field
/// that is set.
#[derive(Clone, Copy, Debug, PartialEq, Eq, Structural)]
pub struct Selector {
    pub ip: Option<u32>,
    pub port: Option<u16>,
    pub protocol: Option<u8>,
}

/// What is added up for each flow taken.
#[derive(Clone, Copy, Debug, PartialEq, Eq, Structural)]
pub enum Measure {
    InboundBytes,
    OutboundBytes,
    InboundPackets,
    OutboundPackets,
    /// Bytes of both directions.
    Bytes,
    /// Packets of both directions.
    Packets,
    /// The flow's observation count.
    Connections,
    /// One for each flow.
    Flows,
}

impl Selector {
    /// Every flow.
    pub open spec fn any() -> Selector {
        Selector { ip: None, port: None, protocol: None }
    }

    /// The flows of one address.
    pub open spec fn of_ip(ip: u32) -> Selector {
        Selector { ip: Some(ip), port: None, protocol: None }
    }

    /// The flows of one port.
    pub open spec fn of_port(port: u16) -> Selector {
        Selector { ip: None, port: Some(port), protocol: None }
    }

    /// The flows of one protocol.
    pub open spec fn of_protocol(protocol: u8) -> Selector {
        Selector { ip: None, port: None, protocol: Some(protocol) }
    }

    /// Whether the selector takes a flow with this key.
    pub open spec fn selects(&self, key: FlowKey) -> bool {
        &&& self.ip matches Some(ip) ==> key.ip == ip
        &&& self.port matches Some(port) ==> key.port == port
        &&& self.protocol matches Some(protocol) ==> key.protocol == protocol
    }

    /// This selector narrowed to one address.
    pub open spec fn and_ip(&self, ip: u32) -> Selector {
        Selector { ip: Some(ip), port: self.port, protocol: self.protocol }
    }

    /// This selector narrowed to one port.
    pub open spec fn and_port(&self, port: u16) -> Selector {
        Selector { ip: self.ip, port: Some(port), protocol: self.protocol }
    }

    /// This selector narrowed to one protocol.
    pub open spec fn and_protocol(&self, protocol: u8) -> Selector {
        Selector { ip: self.ip, port: self.port, protocol: Some(protocol) }
    }

    /// Whether the selector takes a flow with this key.
    pub fn takes(&self, key: &FlowKey) -> (r: bool)
        ensures
            r == self.selects(*key),
    {
        let ip_ok = match self.ip {
            Some(ip) => key.ip == ip,
            None => true,
        };
        let port_ok = match self.port {
            Some(port) => key.port == port,
            None => true,
        };
        let protocol_ok = match self.protocol {
            Some(protocol) => key.protocol == protocol,
            None => true,
        };
        ip_ok && port_ok && protocol_ok
    }
}

impl Measure {
    /// The measure of one flow's counters.
    pub open spec fn of(&self, s: EnhancedTrafficStats) -> int {
        match self {
            Measure::InboundBytes => s.inbound_bytes as int,
            Measure::OutboundBytes => s.outbound_bytes as int,
            Measure::InboundPackets => s.inbound_packets as int,
            Measure::OutboundPackets => s.outbound_packets as int,
            Measure::Bytes => s.byte_sum(),
            Measure::Packets => s.packet_sum(),
            Measure::Connections => s.connection_count as int,
            Measure::Flows => 1,
        }
    }

    /// The measure of one flow's counters, held at the largest value of a
    /// counter.
    pub fn value(&self, s: &EnhancedTrafficStats) -> (r: u64)
        ensures
            r == capped_u64(self.of(*s)),
    {
        match self {
            Measure::InboundBytes => s.inbound_bytes,
            Measure::OutboundBytes => s.outbound_bytes,
            Measure::InboundPackets => s.inbound_packets,
            Measure::OutboundPackets => s.outbound_packets,
            Measure::Bytes => s.total_bytes(),
            Measure::Packets => s.total_packets(),
            Measure::Connections => s.connection_count as u64,
            Measure::Flows => 1,
        }
    }
}

/// The sum of a measure over the flows that a selector takes.
pub open spec fn flow_sum(flows: FlowSeq, sel: Selector, m: Measure) -> int
    decreases flows.len(),
{
    if flows.len() == 0 {
        0
    } else {
        flow_sum(flows.drop_last(), sel, m) + if sel.selects(flows.last().key) {
            m.of(flows.last().value)
        } else {
            0
        }
    }
}

/// The number of flows that a selector takes.
pub open spec fn flow_count(flows: FlowSeq, sel: Selector) -> int {
    flow_sum(flows, sel, Measure::Flows)
}

/// The whole seconds of a clock reading in nanoseconds, the reading's 64
/// bits taken as a signed number and the division rounded towards zero.
pub open spec fn seen_secs_spec(reading: u64) -> i64 {
    if reading <= i64::MAX {
        (reading / 1_000_000_000) as i64
    } else {
        (-((0x1_0000_0000_0000_0000 - reading) / 1_000_000_000)) as i64
    }
}

/// The whole seconds of a clock reading in nanoseconds.
pub fn seen_secs(reading: u64) -> (r: i64)
    ensures
        r == seen_secs_spec(reading),
{
    if reading <= 0x7fff_ffff_ffff_ffff {
        (reading / 1_000_000_000) as i64
    } else {
        let magnitude: u64 = (u64::MAX - reading) + 1;
        -((magnitude / 1_000_000_000) as i64)
    }
}

/// The latest second at which a flow that the selector takes was seen, or
/// `None` where it takes no flow.
pub open spec fn latest_seen(flows: FlowSeq, sel: Selector) -> Option<i64>
    decreases flows.len(),
{
    if flows.len() == 0 {
        None
    } else {
        let rest = latest_seen(flows.drop_last(), sel);
        let last = flows.last();
        if sel.selects(last.key) {
            let secs = seen_secs_spec(last.value.last_seen);
            match rest {
                Some(r) => if secs > r {
                    Some(secs)
                } else {
                    Some(r)
                },
                None => Some(secs),
            }
        } else {
            rest
        }
    }
}

/// What a grouping splits the flows by.
#[derive(Clone, Copy, Debug, PartialEq, Eq, Structural)]
pub enum GroupBy {
    Ip,
    Port,
}

impl GroupBy {
    /// The group that a flow belongs to, as a number: its address or its
    /// port.
    pub open spec fn code_of(&self, key: FlowKey) -> u64 {
        match self {
            GroupBy::Ip => key.ip as u64,
            GroupBy::Port => key.port as u64,
        }
    }

    /// The selector narrowed to the flows of one group.
    pub open spec fn narrow(&self, sel: Selector, code: u64) -> Selector {
        match self {
            GroupBy::Ip => sel.and_ip(code as u32),
            GroupBy::Port => sel.and_port(code as u16),
        }
    }

    /// Whether the selector leaves the grouped field open, as a grouping by
    /// that field needs.
    pub open spec fn open_in(&self, sel: Selector) -> bool {
        match self {
            GroupBy::Ip => sel.ip is None,
            GroupBy::Port => sel.port is None,
        }
    }

    /// The group that a flow belongs to.
    pub fn code(&self, key: &FlowKey) -> (c: u64)
        ensures
            c == self.code_of(*key),
    {
        match self {
            GroupBy::Ip => key.ip as u64,
            GroupBy::Port => key.port as u64,
        }
    }
}

/// The groups of the flows that the selector takes, each once, in the order
/// in which they first occur.
pub open spec fn distinct_codes(flows: FlowSeq, sel: Selector, by: GroupBy) -> Seq<u64>
    decreases flows.len(),
{
    if flows.len() == 0 {
        Seq::empty()
    } else {
        let rest = distinct_codes(flows.drop_last(), sel, by);
        let key = flows.last().key;
        if sel.selects(key) && !rest.contains(by.code_of(key)) {
            rest.push(by.code_of(key))
        } else {
            rest
        }
    }
}

/// The flows taken, split into groups: one slot for each group in the
/// order of first occurrence, holding the bytes of both directions of the
/// group's flows.
pub open spec fn groups(flows: FlowSeq, sel: Selector, by: GroupBy) -> Seq<Slot<u64, u64>> {
    let codes = distinct_codes(flows, sel, by);
    Seq::new(
        codes.len(),
        |j: int|
            Slot {
                key: codes[j],
                value: capped_u64(flow_sum(flows, by.narrow(sel, codes[j]), Measure::Bytes)),
            },
    )
}

/// Whether `code` is a group of this kind: an address or a port.
pub open spec fn is_code(by: GroupBy, code: u64) -> bool {
    match by {
        GroupBy::Ip => code <= u32::MAX,
        GroupBy::Port => code <= u16::MAX,
    }
}

/// Narrowing a selector to a group takes the flows of that group among
/// those that the selector takes.
pub proof fn lemma_narrow_selects(sel: Selector, by: GroupBy, code: u64, key: FlowKey)
    requires
        by.open_in(sel),
        is_code(by, code),
    ensures
        by.narrow(sel, code).selects(key) <==> sel.selects(key) && by.code_of(key) == code,
{
}

/// The groups of a grouping are distinct, each is the group of a flow
/// taken, and the group of every flow taken is among them.
pub proof fn lemma_distinct_codes(flows: FlowSeq, sel: Selector, by: GroupBy)
    ensures
        distinct_codes(flows, sel, by).no_duplicates(),
        distinct_codes(flows, sel, by).len() <= flows.len(),
        forall|j: int|
            0 <= j < distinct_codes(flows, sel, by).len() ==> is_code(
                by,
                #[trigger] distinct_codes(flows, sel, by)[j],
            ),
        forall|i: int|
            0 <= i < flows.len() && sel.selects((#[trigger] flows[i]).key) ==> distinct_codes(
                flows,
                sel,
                by,
            ).contains(by.code_of(flows[i].key)),
    decreases flows.len(),
{
    if flows.len() > 0 {
        let front = flows.drop_last();
        let rest = distinct_codes(front, sel, by);
        let codes = distinct_codes(flows, sel, by);
        let key = flows.last().key;
        lemma_distinct_codes(front, sel, by);
        assert forall|i: int| 0 <= i < flows.len() && sel.selects(
            (#[trigger] flows[i]).key,
        ) implies codes.contains(by.code_of(flows[i].key)) by {
            if i < front.len() {
                assert(front[i] == flows[i]);
                let c = by.code_of(flows[i].key);
                assert(rest.contains(c));
                let j = choose|j: int| 0 <= j < rest.len() && rest[j] == c;
                assert(codes[j] == c);
            } else {
                let c = by.code_of(key);
                if rest.contains(c) {
                    let j = choose|j: int| 0 <= j < rest.len() && rest[j] == c;
                    assert(codes[j] == c);
                } else {
                    assert(codes[rest.len() as int] == c);
                }
            }
        }
    }
}

/// No flow taken belongs to a group that is not among the groups, so the
/// sums over such a group are zero.
pub proof fn lemma_absent_group_sum(flows: FlowSeq, sel: Selector, by: GroupBy, code: u64, m: Measure)
    requires
        by.open_in(sel),
        is_code(by, code),
        !distinct_codes(flows, sel, by).contains(code),
    ensures
        flow_sum(flows, by.narrow(sel, code), m) == 0,
    decreases flows.len(),
{
    if flows.len() > 0 {
        let front = flows.drop_last();
        let rest = distinct_codes(front, sel, by);
        let codes = distinct_codes(flows, sel, by);
        let key = flows.last().key;
        if rest.contains(code) {
            let j = choose|j: int| 0 <= j < rest.len() && rest[j] == code;
            assert(codes[j] == code);
        }
        lemma_absent_group_sum(front, sel, by, code, m);
        lemma_narrow_selects(sel, by, code, key);
        if sel.selects(key) && by.code_of(key) == code {
            lemma_distinct_codes(flows, sel, by);
            assert(flows[flows.len() - 1] == flows.last());
        }
    }
}

/// The byte total that a group has after one more flow of it.
pub open spec fn group_value_after(g: Seq<Slot<u64, u64>>, code: u64, bytes: int) -> u64 {
    capped_u64(
        match lookup(g, code) {
            Some(v) => v as int,
            None => 0,
        } + bytes,
    )
}

/// The groups over one more flow: a flow that the selector takes adds its
/// bytes to its group, which is new where the flow is the group's first.
pub proof fn lemma_groups_step(flows: FlowSeq, n: int, sel: Selector, by: GroupBy)
    requires
        0 <= n < flows.len() <= usize::MAX,
        by.open_in(sel),
    ensures
        groups(flows.take(n), sel, by).len() <= n,
        groups(flows.take(n + 1), sel, by) == if sel.selects(flows[n].key) {
            put(
                groups(flows.take(n), sel, by),
                usize::MAX as nat,
                by.code_of(flows[n].key),
                group_value_after(
                    groups(flows.take(n), sel, by),
                    by.code_of(flows[n].key),
                    flows[n].value.byte_sum(),
                ),
            )
        } else {
            groups(flows.take(n), sel, by)
        },
{
    let before = flows.take(n);
    let after = flows.take(n + 1);
    let key = flows[n].key;
    let code = by.code_of(key);
    let bytes = flows[n].value.byte_sum();
    let g = groups(before, sel, by);
    let h = groups(after, sel, by);
    let codes = distinct_codes(before, sel, by);
    let codes_after = distinct_codes(after, sel, by);
    assert(after.drop_last() == before);
    assert(after.last() == flows[n]);
    lemma_distinct_codes(before, sel, by);
    lemma_distinct_codes(after, sel, by);
    assert forall|j: int| 0 <= j < codes.len() implies flow_sum(
        after,
        by.narrow(sel, #[trigger] codes[j]),
        Measure::Bytes,
    ) == flow_sum(before, by.narrow(sel, codes[j]), Measure::Bytes) + if sel.selects(key)
        && codes[j] == code {
        bytes
    } else {
        0
    } by {
        lemma_narrow_selects(sel, by, codes[j], key);
    }
    assert forall|j: int| 0 <= j < g.len() implies (#[trigger] g[j]).key == codes[j] by {}
    if sel.selects(key) {
        let value = group_value_after(g, code, bytes);
        let expected = put(g, usize::MAX as nat, code, value);
        lemma_position(g, code);
        if codes.contains(code) {
            let j = choose|j: int| 0 <= j < codes.len() && codes[j] == code;
            assert forall|x: int| 0 <= x < j implies g[x].key != code by {
                assert(codes[x] != codes[j]);
            }
            assert(g[j].key == code);
            lemma_position_is(g, code, j);
            lemma_flow_sum_nonnegative(before, by.narrow(sel, code), Measure::Bytes);
            lemma_capped_u64_chain(flow_sum(before, by.narrow(sel, code), Measure::Bytes), bytes);
            assert(codes_after == codes);
            assert(h =~= expected);
        } else {
            assert forall|x: int| 0 <= x < g.len() implies g[x].key != code by {
                assert(codes[x] == g[x].key);
            }
            lemma_position_none(g, code);
            lemma_absent_group_sum(before, sel, by, code, Measure::Bytes);
            lemma_narrow_selects(sel, by, code, key);
            assert(codes_after == codes.push(code));
            assert(h =~= expected);
        }
    } else {
        assert(codes_after == codes);
        assert(h =~= g);
    }
}

/// The flows taken, split into groups by address or by port, with the bytes
/// of each group.
pub fn group_flows(
    flows: &Vec<Slot<FlowKey, EnhancedTrafficStats>>,
    sel: &Selector,
    by: &GroupBy,
) -> (r: Vec<Slot<u64, u64>>)
    requires
        by.open_in(*sel),
    ensures
        r@ == groups(flows@, *sel, *by),
{
    let mut table: BoundedTable<u64, u64> = BoundedTable::new(usize::MAX);
    let mut i: usize = 0;
    assert(flows@.take(0).len() == 0);
    assert(groups(flows@.take(0), *sel, *by) =~= Seq::empty());
    while i < flows.len()
        invariant
            i <= flows@.len(),
            by.open_in(*sel),
            table.wf(),
            table.capacity_spec() == usize::MAX,
            table.entries() == groups(flows@.take(i as int), *sel, *by),
        decreases flows@.len() - i,
    {
        proof {
            lemma_groups_step(flows@, i as int, *sel, *by);
        }
        if sel.takes(&flows[i].key) {
            let code = by.code(&flows[i].key);
            let bytes = flows[i].value.total_bytes();
            let so_far: u64 = match table.get(&code) {
                Some(v) => v,
                None => 0,
            };
            proof {
                lemma_capped_u64_chain(so_far as int, flows@[i as int].value.byte_sum());
            }
            let _ = table.insert(code, so_far.saturating_add(bytes));
        }
        i = i + 1;
    }
    assert(flows@.take(i as int) == flows@);
    table.to_vec()
}

/// A sum over one more flow.
pub proof fn lemma_flow_sum_step(flows: FlowSeq, n: int, sel: Selector, m: Measure)
    requires
        0 <= n < flows.len(),
    ensures
        flow_sum(flows.take(n + 1), sel, m) == flow_sum(flows.take(n), sel, m) + if sel.selects(
            flows[n].key,
        ) {
            m.of(flows[n].value)
        } else {
            0
        },
        flow_sum(flows.take(n), sel, m) >= 0,
    decreases n,
{
    assert(flows.take(n + 1).drop_last() == flows.take(n));
    if n > 0 {
        lemma_flow_sum_step(flows, n - 1, sel, m);
    } else {
        assert(flows.take(0).len() == 0);
    }
}

/// A sum is never negative.
pub proof fn lemma_flow_sum_nonnegative(flows: FlowSeq, sel: Selector, m: Measure)
    ensures
        flow_sum(flows, sel, m) >= 0,
    decreases flows.len(),
{
    if flows.len() > 0 {
        lemma_flow_sum_nonnegative(flows.drop_last(), sel, m);
    }
}

/// The sum of a measure over the flows taken, held at the largest value of
/// a counter.
pub fn flow_total(flows: &Vec<Slot<FlowKey, EnhancedTrafficStats>>, sel: &Selector, m: &Measure) -> (r:
    u64)
    ensures
        r == capped_u64(flow_sum(flows@, *sel, *m)),
{
    let mut total: u64 = 0;
    let mut i: usize = 0;
    while i < flows.len()
        invariant
            i <= flows@.len(),
            total == capped_u64(flow_sum(flows@.take(i as int), *sel, *m)),
        decreases flows@.len() - i,
    {
        proof {
            lemma_flow_sum_step(flows@, i as int, *sel, *m);
        }
        if sel.takes(&flows[i].key) {
            let v = m.value(&flows[i].value);
            proof {
                lemma_capped_u64_chain(
                    flow_sum(flows@.take(i as int), *sel, *m),
                    m.of(flows@[i as int].value),
                );
            }
            total = total.saturating_add(v);
        }
        i = i + 1;
    }
    assert(flows@.take(i as int) == flows@);
    total
}

/// The latest second at which a flow taken was seen.
pub fn latest_seen_secs(flows: &Vec<Slot<FlowKey, EnhancedTrafficStats>>, sel: &Selector) -> (r:
    Option<i64>)
    ensures
        r == latest_seen(flows@, *sel),
{
    let mut latest: Option<i64> = None;
    let mut i: usize = 0;
    while i < flows.len()
        invariant
            i <= flows@.len(),
            latest == latest_seen(flows@.take(i as int), *sel),
        decreases flows@.len() - i,
    {
        assert(flows@.take(i + 1).drop_last() == flows@.take(i as int));
        if sel.takes(&flows[i].key) {
            let secs = seen_secs(flows[i].value.last_seen);
            latest = match latest {
                Some(r) => if secs > r {
                    Some(secs)
                } else {
                    Some(r)
                },
                None => Some(secs),
            };
        }
        i = i + 1;
    }
    assert(flows@.take(i as int) == flows@);
    latest
}

} // verus!
