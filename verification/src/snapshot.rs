//! The snapshot collector: a copy of all counters at one moment.
//!
//! The three tables are read one after the other. While packets are being
//! counted between those reads, a snapshot can hold a flow's counters from
//! a slightly earlier moment than its port's. The order of the entries
//! carries no meaning.

use vstd::prelude::*;
use crate::classifier::{flows_carry_protocol, ports_carry_keys, FlowAggregationStore};
use crate::stats::{EnhancedTrafficStats, FlowKey, PortStats, ProtocolStats};
use crate::table::{distinct_keys, put, BoundedTable, Slot, TableKey};

verus! {

/// All counters at one moment: one entry per flow, per address and per
/// port.
pub struct Snapshot {
    pub flows: Vec<Slot<FlowKey, EnhancedTrafficStats>>,
    pub protocols: Vec<Slot<u32, ProtocolStats>>,
    pub ports: Vec<Slot<u16, PortStats>>,
}

/// The slots that hold `pairs` when they are put, first to last, into a
/// table that is never full: a key that comes again keeps its slot and
/// takes the later value.
pub open spec fn collected<K, V>(pairs: Seq<(K, V)>) -> Seq<Slot<K, V>>
    decreases pairs.len(),
{
    if pairs.len() == 0 {
        Seq::empty()
    } else {
        put(
            collected(pairs.drop_last()),
            (usize::MAX as nat),
            pairs.last().0,
            pairs.last().1,
        )
    }
}

/// Puts `pairs` into slots, one slot per key.
pub fn collect_pairs<K: TableKey, V: Copy>(pairs: &Vec<(K, V)>) -> (slots: Vec<Slot<K, V>>)
    ensures
        slots@ == collected(pairs@),
        distinct_keys(slots@),
{
    let mut table: BoundedTable<K, V> = BoundedTable::new(usize::MAX);
    let mut i: usize = 0;
    while i < pairs.len()
        invariant
            i <= pairs@.len(),
            table.wf(),
            table.capacity_spec() == usize::MAX,
            table.entries() == collected(pairs@.take(i as int)),
            table.entries().len() <= i,
        decreases pairs@.len() - i,
    {
        let ghost before = table.entries();
        proof {
            table.lemma_wf();
            crate::table::lemma_put_shape(
                before,
                usize::MAX as nat,
                pairs@[i as int].0,
                pairs@[i as int].1,
            );
            assert(pairs@.take(i + 1).drop_last() == pairs@.take(i as int));
        }
        let _ = table.insert(pairs[i].0, pairs[i].1);
        i = i + 1;
    }
    proof {
        assert(pairs@.take(i as int) == pairs@);
        table.lemma_wf();
    }
    table.to_vec()
}

impl Snapshot {
    /// No flow, address or port has two entries.
    pub open spec fn wf(&self) -> bool {
        &&& distinct_keys(self.flows@)
        &&& distinct_keys(self.protocols@)
        &&& distinct_keys(self.ports@)
    }

    /// The counters that `store` holds now.
    pub fn collect(store: &FlowAggregationStore) -> (s: Snapshot)
        requires
            store.wf(),
        ensures
            s.wf(),
            s.flows@ == store.flows.entries(),
            s.protocols@ == store.protocols.entries(),
            s.ports@ == store.ports.entries(),
            flows_carry_protocol(s.flows@),
            ports_carry_keys(s.ports@),
    {
        proof {
            store.flows.lemma_wf();
            store.protocols.lemma_wf();
            store.ports.lemma_wf();
        }
        Snapshot {
            flows: store.flows.to_vec(),
            protocols: store.protocols.to_vec(),
            ports: store.ports.to_vec(),
        }
    }

    /// A snapshot of counters that were read elsewhere as key and value
    /// pairs. Where a key was read twice, its later value stands.
    pub fn from_entries(
        flows: &Vec<(FlowKey, EnhancedTrafficStats)>,
        protocols: &Vec<(u32, ProtocolStats)>,
        ports: &Vec<(u16, PortStats)>,
    ) -> (s: Snapshot)
        ensures
            s.wf(),
            s.flows@ == collected(flows@),
            s.protocols@ == collected(protocols@),
            s.ports@ == collected(ports@),
    {
        Snapshot {
            flows: collect_pairs(flows),
            protocols: collect_pairs(protocols),
            ports: collect_pairs(ports),
        }
    }
}

} // verus!
