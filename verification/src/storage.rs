//! The time-series storage engine: an ordered store of records under text
//! keys, held in memory. Every record of a snapshot is written under one key
//! for each way it is looked up, in one batch; range scans read one of
//! those families; the retention rule drops what is older than a cutoff.
//!
//! The same batches, bounds and retention rule serve a store on disk: what
//! is computed here is what is written there, and a stretch of such a
//! store, read in key order, can be loaded here and queried.

use vstd::prelude::*;
use vstd::slice::slice_to_vec;
use vstd::std_specs::convert::FromSpec;
use crate::key_time::{bytes_eq, is_expired, is_expired_spec};
use crate::listing::{
    admitted_run,
    apply_puts,
    lemma_run_is,
    lemma_seek_is,
    lemma_store_delete,
    lemma_store_put,
    scanned,
    seek,
    sorted,
    store_delete,
    store_put,
    value_at,
    Listing,
    Pair,
};
use crate::records::{FlowRecord, PortRecord, ProtocolRecord, StorageError};
use crate::serializable_types::{
    SerializableEnhancedTrafficStats,
    SerializableFlowKey,
    SerializablePortStats,
    SerializableProtocolStats,
};
use crate::snapshot::Snapshot;
use crate::stats::{EnhancedTrafficStats, FlowKey, PortStats, ProtocolStats};
use crate::storage_keys::{
    flow_key,
    flow_key_spec,
    ip_flows_key,
    ip_flows_key_spec,
    ip_protocol_key,
    ip_protocol_key_spec,
    port_flows_key,
    port_flows_key_spec,
    port_stats_key,
    port_stats_key_spec,
    protocol_key,
    protocol_key_spec,
    Bounds,
    Family,
    ScanBounds,
};
use crate::ranking::{is_top_ranking, top_picks, top_ranking};
use crate::stats::{capped_u32, capped_u64};
use crate::table::{lemma_put_shape, lookup, put, BoundedTable, Slot};
use crate::text::{bytes_le, lemma_lex_le_trans, lex_le, lex_lt};
use crate::time::Timestamp;

verus! {

/// One entry of the store: a key and the bytes stored under it.
#[derive(Debug)]
pub struct StoredEntry {
    pub key: Vec<u8>,
    pub value: Vec<u8>,
}

impl View for StoredEntry {
    type V = Pair;

    open spec fn view(&self) -> Pair {
        Pair { key: self.key@, value: self.value@ }
    }
}

/// The entries as a listing.
pub open spec fn listing_of(entries: Seq<StoredEntry>) -> Listing {
    Seq::new(entries.len(), |i: int| entries[i]@)
}

/// An ordered store of records.
pub struct TrafficStorage {
    entries: Vec<StoredEntry>,
}

impl TrafficStorage {
    /// The entries of the store, in the byte order of their keys.
    pub closed spec fn listing(&self) -> Listing {
        listing_of(self.entries@)
    }

    /// The keys of the store rise strictly: every key is held once.
    pub open spec fn wf(&self) -> bool {
        sorted(self.listing())
    }

    /// An empty store.
    pub fn new() -> (s: Self)
        ensures
            s.wf(),
            s.listing() == Seq::<Pair>::empty(),
    {
        let s = TrafficStorage { entries: Vec::new() };
        assert(s.listing() =~= Seq::<Pair>::empty());
        s
    }

    /// The number of entries.
    pub fn len(&self) -> (n: usize)
        ensures
            n == self.listing().len(),
    {
        self.entries.len()
    }

    /// A copy of entry `i`.
    pub fn entry(&self, i: usize) -> (e: StoredEntry)
        requires
            i < self.listing().len(),
        ensures
            e@ == self.listing()[i as int],
    {
        StoredEntry {
            key: slice_to_vec(self.entries[i].key.as_slice()),
            value: slice_to_vec(self.entries[i].value.as_slice()),
        }
    }

    /// The place of the first entry whose key is not before `start`.
    pub fn seek_index(&self, start: &[u8]) -> (at: usize)
        requires
            self.wf(),
        ensures
            at == seek(self.listing(), start@),
            at <= self.listing().len(),
    {
        let mut lo: usize = 0;
        let mut hi: usize = self.entries.len();
        while lo < hi
            invariant
                self.wf(),
                lo <= hi <= self.entries@.len(),
                forall|j: int| 0 <= j < lo ==> !lex_le(start@, (#[trigger] self.listing()[j]).key),
                forall|j: int|
                    hi <= j < self.entries@.len() ==> lex_le(
                        start@,
                        (#[trigger] self.listing()[j]).key,
                    ),
            decreases hi - lo,
        {
            let mid = lo + (hi - lo) / 2;
            let ghost mid_key = self.listing()[mid as int].key;
            if bytes_le(start, self.entries[mid].key.as_slice()) {
                proof {
                    assert forall|j: int| mid <= j < self.entries@.len() implies lex_le(
                        start@,
                        (#[trigger] self.listing()[j]).key,
                    ) by {
                        if j > mid {
                            assert(lex_lt(mid_key, self.listing()[j].key));
                            lemma_lex_le_trans(start@, mid_key, self.listing()[j].key);
                        }
                    }
                }
                hi = mid;
            } else {
                proof {
                    assert forall|j: int| 0 <= j < mid + 1 implies !lex_le(
                        start@,
                        (#[trigger] self.listing()[j]).key,
                    ) by {
                        if j < mid {
                            assert(lex_lt(self.listing()[j].key, mid_key));
                            if lex_le(start@, self.listing()[j].key) {
                                lemma_lex_le_trans(start@, self.listing()[j].key, mid_key);
                            }
                        }
                    }
                }
                lo = mid + 1;
            }
        }
        proof {
            lemma_seek_is(self.listing(), start@, lo as int);
        }
        lo
    }

    /// A copy of what is stored under `key`.
    pub fn get(&self, key: &[u8]) -> (r: Option<Vec<u8>>)
        requires
            self.wf(),
        ensures
            r is Some <==> value_at(self.listing(), key@) is Some,
            r matches Some(v) ==> value_at(self.listing(), key@) == Some(v@),
    {
        let at = self.seek_index(key);
        if at < self.entries.len() && bytes_eq(self.entries[at].key.as_slice(), key) {
            Some(slice_to_vec(self.entries[at].value.as_slice()))
        } else {
            None
        }
    }

    /// Stores `value` under `key`, in place of what the key held.
    pub fn put(&mut self, key: Vec<u8>, value: Vec<u8>)
        requires
            old(self).wf(),
        ensures
            final(self).wf(),
            final(self).listing() == store_put(old(self).listing(), key@, value@),
    {
        let at = self.seek_index(key.as_slice());
        let ghost before = self.listing();
        proof {
            lemma_store_put(before, key@, value@, key@);
        }
        if at < self.entries.len() && bytes_eq(self.entries[at].key.as_slice(), key.as_slice()) {
            self.entries.set(at, StoredEntry { key, value });
        } else {
            self.entries.insert(at, StoredEntry { key, value });
        }
        assert(self.listing() =~= store_put(before, key@, value@));
    }

    /// Takes out the entry of `key` and says whether there was one.
    pub fn delete(&mut self, key: &[u8]) -> (found: bool)
        requires
            old(self).wf(),
        ensures
            final(self).wf(),
            final(self).listing() == store_delete(old(self).listing(), key@),
            found == value_at(old(self).listing(), key@) is Some,
    {
        let at = self.seek_index(key);
        let ghost before = self.listing();
        proof {
            lemma_store_delete(before, key@, key@);
        }
        if at < self.entries.len() && bytes_eq(self.entries[at].key.as_slice(), key) {
            let _ = self.entries.remove(at);
            assert(self.listing() =~= store_delete(before, key@));
            true
        } else {
            false
        }
    }

    /// Stores the entries of a batch, first to last.
    pub fn apply(&mut self, batch: &Vec<StoredEntry>)
        requires
            old(self).wf(),
        ensures
            final(self).wf(),
            final(self).listing() == apply_puts(old(self).listing(), listing_of(batch@)),
    {
        let ghost start = self.listing();
        let ghost puts = listing_of(batch@);
        let mut i: usize = 0;
        assert(puts.take(0) =~= Seq::<Pair>::empty());
        while i < batch.len()
            invariant
                i <= batch@.len(),
                puts == listing_of(batch@),
                self.wf(),
                self.listing() == apply_puts(start, puts.take(i as int)),
            decreases batch@.len() - i,
        {
            proof {
                assert(puts.take(i + 1).drop_last() =~= puts.take(i as int));
                assert(puts.take(i + 1).last() == batch@[i as int]@);
            }
            self.put(
                slice_to_vec(batch[i].key.as_slice()),
                slice_to_vec(batch[i].value.as_slice()),
            );
            i = i + 1;
        }
        assert(puts.take(i as int) =~= puts);
    }

    /// The stretch of the store that a range scan reads: from the first
    /// key that is not before the start key, up to the first key that the
    /// bounds do not admit.
    pub fn scan_range(&self, bounds: &ScanBounds) -> (r: (usize, usize))
        requires
            self.wf(),
        ensures
            r.0 == seek(self.listing(), bounds@.start),
            r.1 == r.0 + admitted_run(self.listing().skip(r.0 as int), bounds@),
            r.0 <= r.1 <= self.listing().len(),
    {
        let from = self.seek_index(bounds.start_key.as_slice());
        let mut to: usize = from;
        while to < self.entries.len() && bounds.admits(self.entries[to].key.as_slice())
            invariant
                from <= to <= self.entries@.len(),
                forall|j: int| from <= j < to ==> bounds@.admits((#[trigger] self.listing()[j]).key),
            decreases self.entries@.len() - to,
        {
            to = to + 1;
        }
        proof {
            let rest = self.listing().skip(from as int);
            assert forall|j: int| 0 <= j < to - from implies bounds@.admits(
                (#[trigger] rest[j]).key,
            ) by {
                assert(rest[j] == self.listing()[from + j]);
            }
            if to < self.entries@.len() {
                assert(rest[to - from] == self.listing()[to as int]);
            }
            lemma_run_is(rest, bounds@, to - from);
        }
        (from, to)
    }

    /// Copies of the values that a range scan reads, in key order.
    pub fn scan(&self, bounds: &ScanBounds) -> (values: Vec<Vec<u8>>)
        requires
            self.wf(),
        ensures
            values.deep_view() == scanned(self.listing(), bounds@),
    {
        let (from, to) = self.scan_range(bounds);
        let mut values: Vec<Vec<u8>> = Vec::new();
        let mut i: usize = from;
        while i < to
            invariant
                from <= i <= to <= self.entries@.len(),
                values@.len() == i - from,
                forall|j: int|
                    0 <= j < values@.len() ==> (#[trigger] values@[j])@ == self.listing()[from
                        + j].value,
            decreases to - i,
        {
            values.push(slice_to_vec(self.entries[i].value.as_slice()));
            i = i + 1;
        }
        assert(values.deep_view() =~= scanned(self.listing(), bounds@)) by {
            assert forall|j: int| 0 <= j < values@.len() implies values.deep_view()[j] == scanned(
                self.listing(),
                bounds@,
            )[j] by {
                assert(values.deep_view()[j] == values@[j]@);
            }
        }
        values
    }

    /// Drops every record of a time at or before `before`, in every family,
    /// and says how many entries it dropped. Keys that carry no time are
    /// left alone.
    pub fn cleanup_old_data(&mut self, before: Timestamp) -> (deleted: usize)
        requires
            old(self).wf(),
        ensures
            final(self).wf(),
            final(self).listing() == kept(old(self).listing(), before.secs as int),
            deleted == old(self).listing().len() - final(self).listing().len(),
    {
        let ghost all = self.listing();
        let ghost cutoff = before.secs as int;
        let mut fresh: Vec<StoredEntry> = Vec::new();
        let mut i: usize = 0;
        assert(all.take(0) =~= Seq::<Pair>::empty());
        assert(listing_of(fresh@) =~= Seq::<Pair>::empty());
        while i < self.entries.len()
            invariant
                i <= self.entries@.len(),
                all == self.listing(),
                cutoff == before.secs as int,
                listing_of(fresh@) == kept(all.take(i as int), cutoff),
                fresh@.len() <= i,
            decreases self.entries@.len() - i,
        {
            proof {
                assert(all.take(i + 1).drop_last() =~= all.take(i as int));
                assert(all.take(i + 1).last() == self.entries@[i as int]@);
            }
            let ghost before_push = listing_of(fresh@);
            if !is_expired(self.entries[i].key.as_slice(), before.secs) {
                fresh.push(self.entry(i));
                assert(listing_of(fresh@) =~= before_push.push(all[i as int]));
            }
            i = i + 1;
        }
        proof {
            assert(all.take(i as int) =~= all);
            lemma_kept(all, cutoff);
        }
        let deleted = self.entries.len() - fresh.len();
        self.entries = fresh;
        deleted
    }

    /// Writes the records of `snapshot`, taken at `now`: every flow under
    /// its three keys, every protocol record under its two, every port
    /// record under its one. Where a record has no stored form nothing is
    /// written at all.
    pub fn store_traffic_snapshot(&mut self, snapshot: &Snapshot, now: Timestamp) -> (r: Result<
        (),
        StorageError,
    >)
        requires
            old(self).wf(),
        ensures
            final(self).wf(),
            match snapshot_puts(now, snapshot.flows@, snapshot.protocols@, snapshot.ports@) {
                Some(puts) => r is Ok && final(self).listing() == apply_puts(
                    old(self).listing(),
                    puts,
                ),
                None => r == Err::<(), StorageError>(StorageError::Serialization)
                    && final(self).listing() == old(self).listing(),
            },
    {
        match snapshot_batch(snapshot, now) {
            Ok(batch) => {
                self.apply(&batch);
                Ok(())
            },
            Err(e) => Err(e),
        }
    }

    /// The ports with the most bytes among the port records from
    /// `start_time` up to, but not at, `end_time`: the records of each port
    /// added up, the `limit` largest sums first. Each is given the time
    /// `end_time`.
    pub fn get_top_ports(&self, start_time: Timestamp, end_time: Timestamp, limit: usize) -> (r:
        Vec<PortRecord>)
        requires
            self.wf(),
        ensures
            r@ == top_ports_spec(
                decoded_ports(
                    scanned(
                        self.listing(),
                        Bounds::by_time(
                            Family::PortStats,
                            start_time.secs as int,
                            end_time.secs as int,
                        ),
                    ),
                ),
                end_time,
                limit as nat,
            ),
    {
        let records = self.get_all_port_stats_in_timerange(start_time, end_time);
        rank_ports(&records, end_time, limit)
    }

    /// The flow records of address `ip` from `start_time` up to, but not
    /// at, `end_time`: what a scan of the family ordered by address reads.
    /// Values that hold no record are passed over.
    pub fn get_ip_flows_history(&self, ip: u32, start_time: Timestamp, end_time: Timestamp) -> (r:
        Vec<FlowRecord>)
        requires
            self.wf(),
        ensures
            r@ == decoded_flows(
                scanned(
                    self.listing(),
                    Bounds::by_dimension(
                        Family::IpFlows,
                        ip as nat,
                        start_time.secs as int,
                        end_time.secs as int,
                    ),
                ),
            ),
    {
        let bounds = ScanBounds::by_dimension(
            &Family::IpFlows,
            ip as u64,
            start_time.secs,
            end_time.secs,
        );
        decode_flows(&self.scan(&bounds))
    }

    /// The flow records of port `port` from `start_time` up to, but not
    /// at, `end_time`: what a scan of the family ordered by port reads.
    pub fn get_port_flows_history(&self, port: u16, start_time: Timestamp, end_time: Timestamp) -> (r:
        Vec<FlowRecord>)
        requires
            self.wf(),
        ensures
            r@ == decoded_flows(
                scanned(
                    self.listing(),
                    Bounds::by_dimension(
                        Family::PortFlows,
                        port as nat,
                        start_time.secs as int,
                        end_time.secs as int,
                    ),
                ),
            ),
    {
        let bounds = ScanBounds::by_dimension(
            &Family::PortFlows,
            port as u64,
            start_time.secs,
            end_time.secs,
        );
        decode_flows(&self.scan(&bounds))
    }

    /// The protocol records of address `ip` from `start_time` up to, but
    /// not at, `end_time`.
    pub fn get_protocol_stats_history(
        &self,
        ip: u32,
        start_time: Timestamp,
        end_time: Timestamp,
    ) -> (r: Vec<ProtocolRecord>)
        requires
            self.wf(),
        ensures
            r@ == decoded_protocols(
                scanned(
                    self.listing(),
                    Bounds::ip_protocol(ip, start_time.secs as int, end_time.secs as int),
                ),
            ),
    {
        let bounds = ScanBounds::ip_protocol(ip, start_time.secs, end_time.secs);
        decode_protocols(&self.scan(&bounds))
    }

    /// All flow records from `start_time` up to, but not at, `end_time`.
    pub fn get_flows_in_timerange(&self, start_time: Timestamp, end_time: Timestamp) -> (r: Vec<
        FlowRecord,
    >)
        requires
            self.wf(),
        ensures
            r@ == decoded_flows(
                scanned(
                    self.listing(),
                    Bounds::by_time(Family::Flow, start_time.secs as int, end_time.secs as int),
                ),
            ),
    {
        let bounds = ScanBounds::by_time(&Family::Flow, start_time.secs, end_time.secs);
        decode_flows(&self.scan(&bounds))
    }

    /// All protocol records from `start_time` up to, but not at,
    /// `end_time`.
    pub fn get_all_protocol_stats_in_timerange(
        &self,
        start_time: Timestamp,
        end_time: Timestamp,
    ) -> (r: Vec<ProtocolRecord>)
        requires
            self.wf(),
        ensures
            r@ == decoded_protocols(
                scanned(
                    self.listing(),
                    Bounds::by_time(Family::Protocol, start_time.secs as int, end_time.secs as int),
                ),
            ),
    {
        let bounds = ScanBounds::by_time(&Family::Protocol, start_time.secs, end_time.secs);
        decode_protocols(&self.scan(&bounds))
    }

    /// All port records from `start_time` up to, but not at, `end_time`.
    pub fn get_all_port_stats_in_timerange(
        &self,
        start_time: Timestamp,
        end_time: Timestamp,
    ) -> (r: Vec<PortRecord>)
        requires
            self.wf(),
        ensures
            r@ == decoded_ports(
                scanned(
                    self.listing(),
                    Bounds::by_time(Family::PortStats, start_time.secs as int, end_time.secs as int),
                ),
            ),
    {
        let bounds = ScanBounds::by_time(&Family::PortStats, start_time.secs, end_time.secs);
        decode_ports(&self.scan(&bounds))
    }

    /// The records of the minute before `now`: flows, protocol records and
    /// port records.
    pub fn get_latest_snapshot(&self, now: Timestamp) -> (r: (
        Vec<FlowRecord>,
        Vec<ProtocolRecord>,
        Vec<PortRecord>,
    ))
        requires
            self.wf(),
        ensures
            r.0@ == decoded_flows(
                scanned(
                    self.listing(),
                    Bounds::by_time(Family::Flow, minute_before(now.secs) as int, now.secs as int),
                ),
            ),
            r.1@ == decoded_protocols(
                scanned(
                    self.listing(),
                    Bounds::by_time(
                        Family::Protocol,
                        minute_before(now.secs) as int,
                        now.secs as int,
                    ),
                ),
            ),
            r.2@ == decoded_ports(
                scanned(
                    self.listing(),
                    Bounds::by_time(
                        Family::PortStats,
                        minute_before(now.secs) as int,
                        now.secs as int,
                    ),
                ),
            ),
    {
        let start_secs: i64 = if now.secs < i64::MIN + 60 {
            i64::MIN
        } else {
            now.secs - 60
        };
        let start_time = Timestamp { secs: start_secs, nanos: now.nanos };
        (
            self.get_flows_in_timerange(start_time, now),
            self.get_all_protocol_stats_in_timerange(start_time, now),
            self.get_all_port_stats_in_timerange(start_time, now),
        )
    }
}

/// Sixty seconds before `secs`, or the earliest second there is.
pub open spec fn minute_before(secs: i64) -> i64 {
    if secs < i64::MIN + 60 {
        i64::MIN
    } else {
        (secs - 60) as i64
    }
}

/// The flow records that `values` hold, in the order of the values; a
/// value that holds none is passed over.
pub open spec fn decoded_flows(values: Seq<Seq<u8>>) -> Seq<FlowRecord>
    decreases values.len(),
{
    if values.len() == 0 {
        Seq::empty()
    } else {
        let rest = decoded_flows(values.drop_last());
        match FlowRecord::decoding(values.last()) {
            Some(record) => rest.push(record),
            None => rest,
        }
    }
}

/// The protocol records that `values` hold, in the order of the values; a
/// value that holds none is passed over.
pub open spec fn decoded_protocols(values: Seq<Seq<u8>>) -> Seq<ProtocolRecord>
    decreases values.len(),
{
    if values.len() == 0 {
        Seq::empty()
    } else {
        let rest = decoded_protocols(values.drop_last());
        match ProtocolRecord::decoding(values.last()) {
            Some(record) => rest.push(record),
            None => rest,
        }
    }
}

/// The port records that `values` hold, in the order of the values; a
/// value that holds none is passed over.
pub open spec fn decoded_ports(values: Seq<Seq<u8>>) -> Seq<PortRecord>
    decreases values.len(),
{
    if values.len() == 0 {
        Seq::empty()
    } else {
        let rest = decoded_ports(values.drop_last());
        match PortRecord::decoding(values.last()) {
            Some(record) => rest.push(record),
            None => rest,
        }
    }
}

/// The flow records that `values` hold.
pub fn decode_flows(values: &Vec<Vec<u8>>) -> (r: Vec<FlowRecord>)
    ensures
        r@ == decoded_flows(values.deep_view()),
{
    let mut records: Vec<FlowRecord> = Vec::new();
    let mut i: usize = 0;
    let ghost all = values.deep_view();
    assert(all.take(0) =~= Seq::<Seq<u8>>::empty());
    while i < values.len()
        invariant
            i <= values@.len(),
            all == values.deep_view(),
            records@ == decoded_flows(all.take(i as int)),
        decreases values@.len() - i,
    {
        proof {
            assert(all.take(i + 1).drop_last() =~= all.take(i as int));
            assert(all.take(i + 1).last() == values@[i as int]@);
        }
        match FlowRecord::decode(values[i].as_slice()) {
            Some(record) => {
                records.push(record);
            },
            None => {},
        }
        i = i + 1;
    }
    assert(all.take(i as int) =~= all);
    records
}

/// The protocol records that `values` hold.
pub fn decode_protocols(values: &Vec<Vec<u8>>) -> (r: Vec<ProtocolRecord>)
    ensures
        r@ == decoded_protocols(values.deep_view()),
{
    let mut records: Vec<ProtocolRecord> = Vec::new();
    let mut i: usize = 0;
    let ghost all = values.deep_view();
    assert(all.take(0) =~= Seq::<Seq<u8>>::empty());
    while i < values.len()
        invariant
            i <= values@.len(),
            all == values.deep_view(),
            records@ == decoded_protocols(all.take(i as int)),
        decreases values@.len() - i,
    {
        proof {
            assert(all.take(i + 1).drop_last() =~= all.take(i as int));
            assert(all.take(i + 1).last() == values@[i as int]@);
        }
        match ProtocolRecord::decode(values[i].as_slice()) {
            Some(record) => {
                records.push(record);
            },
            None => {},
        }
        i = i + 1;
    }
    assert(all.take(i as int) =~= all);
    records
}

/// The port records that `values` hold.
pub fn decode_ports(values: &Vec<Vec<u8>>) -> (r: Vec<PortRecord>)
    ensures
        r@ == decoded_ports(values.deep_view()),
{
    let mut records: Vec<PortRecord> = Vec::new();
    let mut i: usize = 0;
    let ghost all = values.deep_view();
    assert(all.take(0) =~= Seq::<Seq<u8>>::empty());
    while i < values.len()
        invariant
            i <= values@.len(),
            all == values.deep_view(),
            records@ == decoded_ports(all.take(i as int)),
        decreases values@.len() - i,
    {
        proof {
            assert(all.take(i + 1).drop_last() =~= all.take(i as int));
            assert(all.take(i + 1).last() == values@[i as int]@);
        }
        match PortRecord::decode(values[i].as_slice()) {
            Some(record) => {
                records.push(record);
            },
            None => {},
        }
        i = i + 1;
    }
    assert(all.take(i as int) =~= all);
    records
}

/// The entries that the retention rule keeps: those of no time, and those
/// of a time after `cutoff`.
pub open spec fn kept(l: Listing, cutoff: int) -> Listing
    decreases l.len(),
{
    if l.len() == 0 {
        Seq::empty()
    } else {
        let rest = kept(l.drop_last(), cutoff);
        if is_expired_spec(l.last().key, cutoff) {
            rest
        } else {
            rest.push(l.last())
        }
    }
}

/// What is kept is part of the listing, is not expired, and is sorted
/// where the listing is.
pub proof fn lemma_kept(l: Listing, cutoff: int)
    ensures
        kept(l, cutoff).len() <= l.len(),
        forall|j: int|
            0 <= j < kept(l, cutoff).len() ==> !is_expired_spec(
                (#[trigger] kept(l, cutoff)[j]).key,
                cutoff,
            ) && exists|i: int| 0 <= i < l.len() && l[i] == kept(l, cutoff)[j],
        sorted(l) ==> sorted(kept(l, cutoff)),
    decreases l.len(),
{
    if l.len() > 0 {
        let front = l.drop_last();
        let rest = kept(front, cutoff);
        let k = kept(l, cutoff);
        lemma_kept(front, cutoff);
        assert forall|j: int| 0 <= j < k.len() implies !is_expired_spec(
            (#[trigger] k[j]).key,
            cutoff,
        ) && exists|i: int| 0 <= i < l.len() && l[i] == k[j] by {
            if j < rest.len() {
                assert(k[j] == rest[j]);
                let i = choose|i: int| 0 <= i < front.len() && front[i] == rest[j];
                assert(l[i] == k[j]);
            } else {
                assert(l[l.len() - 1] == k[j]);
            }
        }
        if sorted(l) {
            assert forall|a: int, b: int| 0 <= a < b < front.len() implies lex_lt(
                front[a].key,
                front[b].key,
            ) by {
                assert(front[a] == l[a] && front[b] == l[b]);
            }
            assert forall|a: int, b: int| 0 <= a < b < k.len() implies lex_lt(
                k[a].key,
                k[b].key,
            ) by {
                if b < rest.len() {
                    assert(k[a] == rest[a] && k[b] == rest[b]);
                } else {
                    assert(k[a] == rest[a]);
                    let i = choose|i: int| 0 <= i < front.len() && front[i] == rest[a];
                    assert(l[i] == front[i]);
                    assert(lex_lt(l[i].key, l[l.len() - 1].key));
                }
            }
        }
    }
}

/// A listing without expired entries is kept whole.
pub proof fn lemma_kept_whole(l: Listing, cutoff: int)
    requires
        forall|j: int| 0 <= j < l.len() ==> !is_expired_spec((#[trigger] l[j]).key, cutoff),
    ensures
        kept(l, cutoff) == l,
    decreases l.len(),
{
    if l.len() > 0 {
        let front = l.drop_last();
        assert forall|j: int| 0 <= j < front.len() implies !is_expired_spec(
            (#[trigger] front[j]).key,
            cutoff,
        ) by {
            assert(front[j] == l[j]);
        }
        lemma_kept_whole(front, cutoff);
        assert(!is_expired_spec(l[l.len() - 1].key, cutoff));
        assert(front.push(l.last()) =~= l);
    } else {
        assert(kept(l, cutoff) =~= l);
    }
}

/// Retention is idempotent: a second cleanup with the same cutoff finds
/// the store as the first left it, and drops nothing.
pub proof fn lemma_cleanup_idempotent(l: Listing, cutoff: int)
    ensures
        kept(kept(l, cutoff), cutoff) == kept(l, cutoff),
        kept(l, cutoff).len() - kept(kept(l, cutoff), cutoff).len() == 0,
{
    lemma_kept(l, cutoff);
    lemma_kept_whole(kept(l, cutoff), cutoff);
}

/// The record written for a flow of a snapshot taken at `now`.
pub open spec fn flow_record_of(now: Timestamp, slot: Slot<FlowKey, EnhancedTrafficStats>) -> FlowRecord {
    FlowRecord {
        timestamp: now,
        flow_key: <SerializableFlowKey as FromSpec<FlowKey>>::from_spec(slot.key),
        stats: <SerializableEnhancedTrafficStats as FromSpec<EnhancedTrafficStats>>::from_spec(
            slot.value,
        ),
    }
}

/// The record written for an address of a snapshot taken at `now`.
pub open spec fn protocol_record_of(now: Timestamp, slot: Slot<u32, ProtocolStats>) -> ProtocolRecord {
    ProtocolRecord {
        timestamp: now,
        ip: slot.key,
        stats: <SerializableProtocolStats as FromSpec<ProtocolStats>>::from_spec(slot.value),
    }
}

/// The record written for a port of a snapshot taken at `now`.
pub open spec fn port_record_of(now: Timestamp, slot: Slot<u16, PortStats>) -> PortRecord {
    PortRecord {
        timestamp: now,
        port: slot.key,
        stats: <SerializablePortStats as FromSpec<PortStats>>::from_spec(slot.value),
    }
}

/// The three entries written for one flow: the record under its key in
/// the family ordered by time, by address and by port.
pub open spec fn flow_entries(now: Timestamp, key: FlowKey, value: Seq<u8>) -> Seq<Pair> {
    seq![
        Pair { key: flow_key_spec(now.secs as int, key), value },
        Pair { key: ip_flows_key_spec(now.secs as int, key), value },
        Pair { key: port_flows_key_spec(now.secs as int, key), value },
    ]
}

/// The two entries written for one address: the record under its key in
/// the family ordered by time and by address.
pub open spec fn protocol_entries(now: Timestamp, ip: u32, value: Seq<u8>) -> Seq<Pair> {
    seq![
        Pair { key: protocol_key_spec(now.secs as int, ip), value },
        Pair { key: ip_protocol_key_spec(now.secs as int, ip), value },
    ]
}

/// The entry written for one port.
pub open spec fn port_entries(now: Timestamp, port: u16, value: Seq<u8>) -> Seq<Pair> {
    seq![Pair { key: port_stats_key_spec(now.secs as int, port), value }]
}

/// The entries written for the flows of a snapshot, or `None` where one of
/// the records has no stored form.
pub open spec fn flow_puts(now: Timestamp, flows: Seq<Slot<FlowKey, EnhancedTrafficStats>>) -> Option<
    Seq<Pair>,
>
    decreases flows.len(),
{
    if flows.len() == 0 {
        Some(Seq::empty())
    } else {
        match (flow_puts(now, flows.drop_last()), flow_record_of(now, flows.last()).encoding()) {
            (Some(puts), Some(value)) => Some(puts + flow_entries(now, flows.last().key, value)),
            _ => None,
        }
    }
}

/// The entries written for the addresses of a snapshot, or `None` where
/// one of the records has no stored form.
pub open spec fn protocol_puts(now: Timestamp, protocols: Seq<Slot<u32, ProtocolStats>>) -> Option<
    Seq<Pair>,
>
    decreases protocols.len(),
{
    if protocols.len() == 0 {
        Some(Seq::empty())
    } else {
        match (
            protocol_puts(now, protocols.drop_last()),
            protocol_record_of(now, protocols.last()).encoding(),
        ) {
            (Some(puts), Some(value)) => Some(
                puts + protocol_entries(now, protocols.last().key, value),
            ),
            _ => None,
        }
    }
}

/// The entries written for the ports of a snapshot, or `None` where one of
/// the records has no stored form.
pub open spec fn port_puts(now: Timestamp, ports: Seq<Slot<u16, PortStats>>) -> Option<Seq<Pair>>
    decreases ports.len(),
{
    if ports.len() == 0 {
        Some(Seq::empty())
    } else {
        match (port_puts(now, ports.drop_last()), port_record_of(now, ports.last()).encoding()) {
            (Some(puts), Some(value)) => Some(puts + port_entries(now, ports.last().key, value)),
            _ => None,
        }
    }
}

/// The batch written for a snapshot: the entries of its flows, then of
/// its addresses, then of its ports; or `None` where one of the records
/// has no stored form.
pub open spec fn snapshot_puts(
    now: Timestamp,
    flows: Seq<Slot<FlowKey, EnhancedTrafficStats>>,
    protocols: Seq<Slot<u32, ProtocolStats>>,
    ports: Seq<Slot<u16, PortStats>>,
) -> Option<Seq<Pair>> {
    match (flow_puts(now, flows), protocol_puts(now, protocols), port_puts(now, ports)) {
        (Some(a), Some(b), Some(c)) => Some(a + b + c),
        _ => None,
    }
}

/// Where the first flows of a snapshot cannot all be written, the
/// snapshot's flows cannot.
pub proof fn lemma_flow_puts_none(
    now: Timestamp,
    flows: Seq<Slot<FlowKey, EnhancedTrafficStats>>,
    n: int,
)
    requires
        0 <= n <= flows.len(),
        flow_puts(now, flows.take(n)) is None,
    ensures
        flow_puts(now, flows) is None,
    decreases flows.len() - n,
{
    if n < flows.len() {
        assert(flows.take(n + 1).drop_last() =~= flows.take(n));
        lemma_flow_puts_none(now, flows, n + 1);
    } else {
        assert(flows.take(n) =~= flows);
    }
}

/// Where the first addresses of a snapshot cannot all be written, the
/// snapshot's addresses cannot.
pub proof fn lemma_protocol_puts_none(
    now: Timestamp,
    protocols: Seq<Slot<u32, ProtocolStats>>,
    n: int,
)
    requires
        0 <= n <= protocols.len(),
        protocol_puts(now, protocols.take(n)) is None,
    ensures
        protocol_puts(now, protocols) is None,
    decreases protocols.len() - n,
{
    if n < protocols.len() {
        assert(protocols.take(n + 1).drop_last() =~= protocols.take(n));
        lemma_protocol_puts_none(now, protocols, n + 1);
    } else {
        assert(protocols.take(n) =~= protocols);
    }
}

/// Where the first ports of a snapshot cannot all be written, the
/// snapshot's ports cannot.
pub proof fn lemma_port_puts_none(now: Timestamp, ports: Seq<Slot<u16, PortStats>>, n: int)
    requires
        0 <= n <= ports.len(),
        port_puts(now, ports.take(n)) is None,
    ensures
        port_puts(now, ports) is None,
    decreases ports.len() - n,
{
    if n < ports.len() {
        assert(ports.take(n + 1).drop_last() =~= ports.take(n));
        lemma_port_puts_none(now, ports, n + 1);
    } else {
        assert(ports.take(n) =~= ports);
    }
}

/// The batch to write for `snapshot`, taken at `now`, or `Serialization`
/// where one of its records has no stored form.
pub fn snapshot_batch(snapshot: &Snapshot, now: Timestamp) -> (r: Result<
    Vec<StoredEntry>,
    StorageError,
>)
    ensures
        match snapshot_puts(now, snapshot.flows@, snapshot.protocols@, snapshot.ports@) {
            Some(puts) => r matches Ok(batch) && listing_of(batch@) == puts,
            None => r == Err::<Vec<StoredEntry>, StorageError>(StorageError::Serialization),
        },
{
    let mut batch: Vec<StoredEntry> = Vec::new();
    let ghost flows = snapshot.flows@;
    let ghost protocols = snapshot.protocols@;
    let ghost ports = snapshot.ports@;
    let mut i: usize = 0;
    assert(flows.take(0) =~= Seq::empty());
    assert(listing_of(batch@) =~= Seq::<Pair>::empty());
    while i < snapshot.flows.len()
        invariant
            i <= snapshot.flows@.len(),
            flows == snapshot.flows@,
            flow_puts(now, flows.take(i as int)) == Some(listing_of(batch@)),
        decreases snapshot.flows@.len() - i,
    {
        let slot = &snapshot.flows[i];
        let record = FlowRecord {
            timestamp: now,
            flow_key: SerializableFlowKey::from(slot.key),
            stats: SerializableEnhancedTrafficStats::from(slot.value),
        };
        proof {
            assert(flows.take(i + 1).drop_last() =~= flows.take(i as int));
            assert(flows.take(i + 1).last() == flows[i as int]);
            assert(record == flow_record_of(now, flows[i as int]));
        }
        let value = match record.encode() {
            Ok(value) => value,
            Err(e) => {
                proof {
                    lemma_flow_puts_none(now, flows, i + 1);
                }
                return Err(e);
            },
        };
        let ghost before = listing_of(batch@);
        batch.push(StoredEntry { key: flow_key(now.secs, &slot.key), value: slice_to_vec(value.as_slice()) });
        batch.push(
            StoredEntry { key: ip_flows_key(now.secs, &slot.key), value: slice_to_vec(value.as_slice()) },
        );
        batch.push(StoredEntry { key: port_flows_key(now.secs, &slot.key), value });
        assert(listing_of(batch@) =~= before + flow_entries(now, flows[i as int].key, value@));
        i = i + 1;
    }
    assert(flows.take(i as int) =~= flows);
    let ghost flow_part = listing_of(batch@);
    let mut j: usize = 0;
    assert(protocols.take(0) =~= Seq::empty());
    assert(listing_of(batch@) =~= flow_part + Seq::<Pair>::empty());
    while j < snapshot.protocols.len()
        invariant
            j <= snapshot.protocols@.len(),
            protocols == snapshot.protocols@,
            protocol_puts(now, protocols.take(j as int)) is Some,
            listing_of(batch@) == flow_part + protocol_puts(now, protocols.take(j as int)).unwrap(),
        decreases snapshot.protocols@.len() - j,
    {
        let slot = &snapshot.protocols[j];
        let record = ProtocolRecord {
            timestamp: now,
            ip: slot.key,
            stats: SerializableProtocolStats::from(slot.value),
        };
        proof {
            assert(protocols.take(j + 1).drop_last() =~= protocols.take(j as int));
            assert(protocols.take(j + 1).last() == protocols[j as int]);
            assert(record == protocol_record_of(now, protocols[j as int]));
        }
        let value = match record.encode() {
            Ok(value) => value,
            Err(e) => {
                proof {
                    lemma_protocol_puts_none(now, protocols, j + 1);
                }
                return Err(e);
            },
        };
        let ghost before = listing_of(batch@);
        batch.push(StoredEntry { key: protocol_key(now.secs, slot.key), value: slice_to_vec(value.as_slice()) });
        batch.push(StoredEntry { key: ip_protocol_key(now.secs, slot.key), value });
        assert(listing_of(batch@) =~= before + protocol_entries(now, protocols[j as int].key, value@));
        j = j + 1;
    }
    assert(protocols.take(j as int) =~= protocols);
    let ghost protocol_part = listing_of(batch@);
    let mut k: usize = 0;
    assert(ports.take(0) =~= Seq::empty());
    assert(listing_of(batch@) =~= protocol_part + Seq::<Pair>::empty());
    while k < snapshot.ports.len()
        invariant
            k <= snapshot.ports@.len(),
            ports == snapshot.ports@,
            port_puts(now, ports.take(k as int)) is Some,
            listing_of(batch@) == protocol_part + port_puts(now, ports.take(k as int)).unwrap(),
        decreases snapshot.ports@.len() - k,
    {
        let slot = &snapshot.ports[k];
        let record = PortRecord {
            timestamp: now,
            port: slot.key,
            stats: SerializablePortStats::from(slot.value),
        };
        proof {
            assert(ports.take(k + 1).drop_last() =~= ports.take(k as int));
            assert(ports.take(k + 1).last() == ports[k as int]);
            assert(record == port_record_of(now, ports[k as int]));
        }
        let value = match record.encode() {
            Ok(value) => value,
            Err(e) => {
                proof {
                    lemma_port_puts_none(now, ports, k + 1);
                }
                return Err(e);
            },
        };
        let ghost before = listing_of(batch@);
        batch.push(StoredEntry { key: port_stats_key(now.secs, slot.key), value });
        assert(listing_of(batch@) =~= before + port_entries(now, ports[k as int].key, value@));
        k = k + 1;
    }
    assert(ports.take(k as int) =~= ports);
    Ok(batch)
}

/// The sums of a port after one more of its records: bytes, packets and
/// connections are added, the latest activity is kept, and the protocol is
/// that of the port's first record.
pub open spec fn port_aggregate_after(
    existing: Option<SerializablePortStats>,
    record: PortRecord,
) -> SerializablePortStats {
    let so_far = match existing {
        Some(e) => e,
        None => SerializablePortStats {
            port: record.port,
            protocol: record.stats.protocol,
            total_bytes: 0,
            total_packets: 0,
            active_connections: 0,
            last_active: 0,
        },
    };
    SerializablePortStats {
        port: so_far.port,
        protocol: so_far.protocol,
        total_bytes: capped_u64(so_far.total_bytes + record.stats.total_bytes),
        total_packets: capped_u64(so_far.total_packets + record.stats.total_packets),
        active_connections: capped_u32(
            so_far.active_connections + record.stats.active_connections,
        ),
        last_active: if record.stats.last_active > so_far.last_active {
            record.stats.last_active
        } else {
            so_far.last_active
        },
    }
}

/// The sums of the records of each port, the ports in the order in which
/// they first occur.
pub open spec fn port_aggregates(records: Seq<PortRecord>) -> Seq<Slot<u16, SerializablePortStats>>
    decreases records.len(),
{
    if records.len() == 0 {
        Seq::empty()
    } else {
        let rest = port_aggregates(records.drop_last());
        let record = records.last();
        put(
            rest,
            usize::MAX as nat,
            record.port,
            port_aggregate_after(lookup(rest, record.port), record),
        )
    }
}

/// The bytes of port sums, in the order of the sums.
pub open spec fn aggregate_bytes(sums: Seq<Slot<u16, SerializablePortStats>>) -> Seq<u64> {
    Seq::new(sums.len(), |j: int| sums[j].value.total_bytes)
}

/// The `limit` ports with the most bytes among `records`, most first, each
/// as a record of the time `end_time` that holds the port's sums. Of two
/// ports with the same bytes the one that occurs first ranks first.
pub open spec fn top_ports_spec(records: Seq<PortRecord>, end_time: Timestamp, limit: nat) -> Seq<
    PortRecord,
> {
    let sums = port_aggregates(records);
    let picks = top_picks(aggregate_bytes(sums), limit);
    Seq::new(
        picks.len(),
        |j: int|
            PortRecord {
                timestamp: end_time,
                port: sums[picks[j] as int].key,
                stats: sums[picks[j] as int].value,
            },
    )
}

/// The `limit` ports with the most bytes among `records`, most first.
pub fn rank_ports(records: &Vec<PortRecord>, end_time: Timestamp, limit: usize) -> (r: Vec<
    PortRecord,
>)
    ensures
        r@ == top_ports_spec(records@, end_time, limit as nat),
{
    let mut table: BoundedTable<u16, SerializablePortStats> = BoundedTable::new(usize::MAX);
    let mut i: usize = 0;
    assert(records@.take(0) =~= Seq::empty());
    while i < records.len()
        invariant
            i <= records@.len(),
            table.wf(),
            table.capacity_spec() == usize::MAX,
            table.entries() == port_aggregates(records@.take(i as int)),
            table.entries().len() <= i,
        decreases records@.len() - i,
    {
        let record = records[i];
        proof {
            assert(records@.take(i + 1).drop_last() =~= records@.take(i as int));
            table.lemma_wf();
            lemma_put_shape(
                table.entries(),
                usize::MAX as nat,
                record.port,
                port_aggregate_after(lookup(table.entries(), record.port), record),
            );
        }
        let so_far = match table.get(&record.port) {
            Some(e) => e,
            None => SerializablePortStats::new(record.port, record.stats.protocol),
        };
        let sums = SerializablePortStats {
            port: so_far.port,
            protocol: so_far.protocol,
            total_bytes: so_far.total_bytes.saturating_add(record.stats.total_bytes),
            total_packets: so_far.total_packets.saturating_add(record.stats.total_packets),
            active_connections: so_far.active_connections.saturating_add(
                record.stats.active_connections,
            ),
            last_active: if record.stats.last_active > so_far.last_active {
                record.stats.last_active
            } else {
                so_far.last_active
            },
        };
        let _ = table.insert(record.port, sums);
        i = i + 1;
    }
    assert(records@.take(i as int) =~= records@);
    let sums = table.to_vec();
    let mut bytes: Vec<u64> = Vec::new();
    let mut j: usize = 0;
    while j < sums.len()
        invariant
            j <= sums@.len(),
            bytes@.len() == j,
            forall|x: int| 0 <= x < j ==> bytes@[x] == sums@[x].value.total_bytes,
        decreases sums@.len() - j,
    {
        bytes.push(sums[j].value.total_bytes);
        j = j + 1;
    }
    assert(bytes@ =~= aggregate_bytes(sums@));
    let picks = top_ranking(&bytes, limit);
    let mut top: Vec<PortRecord> = Vec::new();
    let mut k: usize = 0;
    while k < picks.len()
        invariant
            k <= picks@.len(),
            top@.len() == k,
            is_top_ranking(aggregate_bytes(sums@), limit as nat, picks@),
            forall|x: int|
                0 <= x < k ==> (#[trigger] top@[x]) == (PortRecord {
                    timestamp: end_time,
                    port: sums@[picks@[x] as int].key,
                    stats: sums@[picks@[x] as int].value,
                }),
        decreases picks@.len() - k,
    {
        assert(picks@[k as int] < aggregate_bytes(sums@).len());
        let slot = &sums[picks[k]];
        top.push(PortRecord { timestamp: end_time, port: slot.key, stats: slot.value });
        k = k + 1;
    }
    assert(top@ =~= top_ports_spec(records@, end_time, limit as nat));
    top
}

} // verus!
