//! The keys of the record store. A key is text: the word of its family,
//! then the fields of the family, a colon before each. The time is ten
//! digits with zeros in front, so that among keys that start alike byte
//! order is time order. The other fields are plain decimal numbers.
//!
//! | family        | key                                             |
//! |---------------|-------------------------------------------------|
//! | `flow`        | `flow:{time}:{ip}:{port}:{protocol}:{direction}` |
//! | `ip_flows`    | `ip_flows:{ip}:{time}:{port}:{protocol}:{direction}` |
//! | `port_flows`  | `port_flows:{port}:{time}:{ip}:{protocol}:{direction}` |
//! | `protocol`    | `protocol:{time}:{ip}` |
//! | `ip_protocol` | `ip_protocol:{ip}:{time}` |
//! | `port_stats`  | `port_stats:{time}:{port}` |

use vstd::prelude::*;
use crate::stats::FlowKey;
use crate::text::{
    bytes_le,
    decimal,
    has_prefix,
    lemma_lex_le_antisym,
    lemma_lex_le_refl,
    lex_le,
    push_decimal,
    push_time_field,
    starts_with,
    time_field,
};

verus! {

/// The byte that stands between the fields of a key.
pub const COLON: u8 = 58;

/// A colon as text.
pub open spec fn colon() -> Seq<u8> {
    seq![COLON]
}

/// The word `flow`.
pub open spec fn word_flow() -> Seq<u8> {
    seq![102u8, 108, 111, 119]
}

/// The word `ip_flows`.
pub open spec fn word_ip_flows() -> Seq<u8> {
    seq![105u8, 112, 95, 102, 108, 111, 119, 115]
}

/// The word `port_flows`.
pub open spec fn word_port_flows() -> Seq<u8> {
    seq![112u8, 111, 114, 116, 95, 102, 108, 111, 119, 115]
}

/// The word `protocol`.
pub open spec fn word_protocol() -> Seq<u8> {
    seq![112u8, 114, 111, 116, 111, 99, 111, 108]
}

/// The word `ip_protocol`.
pub open spec fn word_ip_protocol() -> Seq<u8> {
    seq![105u8, 112, 95, 112, 114, 111, 116, 111, 99, 111, 108]
}

/// The word `port_stats`.
pub open spec fn word_port_stats() -> Seq<u8> {
    seq![112u8, 111, 114, 116, 95, 115, 116, 97, 116, 115]
}

/// The family of a key.
#[derive(Clone, Copy, Debug, PartialEq, Eq, Structural)]
pub enum Family {
    Flow,
    IpFlows,
    PortFlows,
    Protocol,
    IpProtocol,
    PortStats,
}

impl Family {
    /// The word that the keys of the family start with.
    pub open spec fn word(&self) -> Seq<u8> {
        match self {
            Family::Flow => word_flow(),
            Family::IpFlows => word_ip_flows(),
            Family::PortFlows => word_port_flows(),
            Family::Protocol => word_protocol(),
            Family::IpProtocol => word_ip_protocol(),
            Family::PortStats => word_port_stats(),
        }
    }

    /// Whether the time is the first field after the word; it is the
    /// second in the other families.
    pub open spec fn time_first(&self) -> bool {
        match self {
            Family::Flow => true,
            Family::Protocol => true,
            Family::PortStats => true,
            _ => false,
        }
    }

    /// Whether the time is the first field after the word.
    pub fn has_time_first(&self) -> (r: bool)
        ensures
            r == self.time_first(),
    {
        match self {
            Family::Flow => true,
            Family::Protocol => true,
            Family::PortStats => true,
            _ => false,
        }
    }

    /// Appends the family's word.
    pub fn push_word(&self, out: &mut Vec<u8>)
        ensures
            final(out)@ == old(out)@ + self.word(),
    {
        let word: Vec<u8> = match self {
            Family::Flow => vec![102u8, 108, 111, 119],
            Family::IpFlows => vec![105u8, 112, 95, 102, 108, 111, 119, 115],
            Family::PortFlows => vec![112u8, 111, 114, 116, 95, 102, 108, 111, 119, 115],
            Family::Protocol => vec![112u8, 114, 111, 116, 111, 99, 111, 108],
            Family::IpProtocol => vec![105u8, 112, 95, 112, 114, 111, 116, 111, 99, 111, 108],
            Family::PortStats => vec![112u8, 111, 114, 116, 95, 115, 116, 97, 116, 115],
        };
        assert(word@ =~= self.word());
        push_bytes(out, word.as_slice());
    }
}

/// Appends `bytes`.
pub fn push_bytes(out: &mut Vec<u8>, bytes: &[u8])
    ensures
        final(out)@ == old(out)@ + bytes@,
{
    let ghost start = out@;
    let mut i: usize = 0;
    while i < bytes.len()
        invariant
            i <= bytes@.len(),
            out@ == start + bytes@.take(i as int),
        decreases bytes@.len() - i,
    {
        out.push(bytes[i]);
        i = i + 1;
        assert(out@ =~= start + bytes@.take(i as int));
    }
    assert(bytes@.take(i as int) =~= bytes@);
}

/// A field, a colon, and what follows.
pub open spec fn joined(field: Seq<u8>, rest: Seq<u8>) -> Seq<u8> {
    field + colon() + rest
}

/// The key of a flow record in the family that is ordered by time.
pub open spec fn flow_key_spec(secs: int, k: FlowKey) -> Seq<u8> {
    joined(
        word_flow(),
        joined(
            time_field(secs),
            joined(
                decimal(k.ip as nat),
                joined(
                    decimal(k.port as nat),
                    joined(decimal(k.protocol as nat), decimal(k.direction as nat)),
                ),
            ),
        ),
    )
}

/// The key of a flow record in the family that is ordered by address, then
/// time.
pub open spec fn ip_flows_key_spec(secs: int, k: FlowKey) -> Seq<u8> {
    joined(
        word_ip_flows(),
        joined(
            decimal(k.ip as nat),
            joined(
                time_field(secs),
                joined(
                    decimal(k.port as nat),
                    joined(decimal(k.protocol as nat), decimal(k.direction as nat)),
                ),
            ),
        ),
    )
}

/// The key of a flow record in the family that is ordered by port, then
/// time.
pub open spec fn port_flows_key_spec(secs: int, k: FlowKey) -> Seq<u8> {
    joined(
        word_port_flows(),
        joined(
            decimal(k.port as nat),
            joined(
                time_field(secs),
                joined(
                    decimal(k.ip as nat),
                    joined(decimal(k.protocol as nat), decimal(k.direction as nat)),
                ),
            ),
        ),
    )
}

/// The key of a protocol record in the family that is ordered by time.
pub open spec fn protocol_key_spec(secs: int, ip: u32) -> Seq<u8> {
    joined(word_protocol(), joined(time_field(secs), decimal(ip as nat)))
}

/// The key of a protocol record in the family that is ordered by address,
/// then time.
pub open spec fn ip_protocol_key_spec(secs: int, ip: u32) -> Seq<u8> {
    joined(word_ip_protocol(), joined(decimal(ip as nat), time_field(secs)))
}

/// The key of a port record.
pub open spec fn port_stats_key_spec(secs: int, port: u16) -> Seq<u8> {
    joined(word_port_stats(), joined(time_field(secs), decimal(port as nat)))
}

/// The key `flow:{time}:{ip}:{port}:{protocol}:{direction}`.
pub fn flow_key(secs: i64, k: &FlowKey) -> (key: Vec<u8>)
    ensures
        key@ == flow_key_spec(secs as int, *k),
{
    let mut key: Vec<u8> = Vec::new();
    Family::Flow.push_word(&mut key);
    key.push(COLON);
    push_time_field(&mut key, secs);
    key.push(COLON);
    push_decimal(&mut key, k.ip as u64);
    key.push(COLON);
    push_decimal(&mut key, k.port as u64);
    key.push(COLON);
    push_decimal(&mut key, k.protocol as u64);
    key.push(COLON);
    push_decimal(&mut key, k.direction as u64);
    assert(key@ =~= flow_key_spec(secs as int, *k));
    key
}

/// The key `ip_flows:{ip}:{time}:{port}:{protocol}:{direction}`.
pub fn ip_flows_key(secs: i64, k: &FlowKey) -> (key: Vec<u8>)
    ensures
        key@ == ip_flows_key_spec(secs as int, *k),
{
    let mut key: Vec<u8> = Vec::new();
    Family::IpFlows.push_word(&mut key);
    key.push(COLON);
    push_decimal(&mut key, k.ip as u64);
    key.push(COLON);
    push_time_field(&mut key, secs);
    key.push(COLON);
    push_decimal(&mut key, k.port as u64);
    key.push(COLON);
    push_decimal(&mut key, k.protocol as u64);
    key.push(COLON);
    push_decimal(&mut key, k.direction as u64);
    assert(key@ =~= ip_flows_key_spec(secs as int, *k));
    key
}

/// The key `port_flows:{port}:{time}:{ip}:{protocol}:{direction}`.
pub fn port_flows_key(secs: i64, k: &FlowKey) -> (key: Vec<u8>)
    ensures
        key@ == port_flows_key_spec(secs as int, *k),
{
    let mut key: Vec<u8> = Vec::new();
    Family::PortFlows.push_word(&mut key);
    key.push(COLON);
    push_decimal(&mut key, k.port as u64);
    key.push(COLON);
    push_time_field(&mut key, secs);
    key.push(COLON);
    push_decimal(&mut key, k.ip as u64);
    key.push(COLON);
    push_decimal(&mut key, k.protocol as u64);
    key.push(COLON);
    push_decimal(&mut key, k.direction as u64);
    assert(key@ =~= port_flows_key_spec(secs as int, *k));
    key
}

/// The key `protocol:{time}:{ip}`.
pub fn protocol_key(secs: i64, ip: u32) -> (key: Vec<u8>)
    ensures
        key@ == protocol_key_spec(secs as int, ip),
{
    let mut key: Vec<u8> = Vec::new();
    Family::Protocol.push_word(&mut key);
    key.push(COLON);
    push_time_field(&mut key, secs);
    key.push(COLON);
    push_decimal(&mut key, ip as u64);
    assert(key@ =~= protocol_key_spec(secs as int, ip));
    key
}

/// The key `ip_protocol:{ip}:{time}`.
pub fn ip_protocol_key(secs: i64, ip: u32) -> (key: Vec<u8>)
    ensures
        key@ == ip_protocol_key_spec(secs as int, ip),
{
    let mut key: Vec<u8> = Vec::new();
    Family::IpProtocol.push_word(&mut key);
    key.push(COLON);
    push_decimal(&mut key, ip as u64);
    key.push(COLON);
    push_time_field(&mut key, secs);
    assert(key@ =~= ip_protocol_key_spec(secs as int, ip));
    key
}

/// The key `port_stats:{time}:{port}`.
pub fn port_stats_key(secs: i64, port: u16) -> (key: Vec<u8>)
    ensures
        key@ == port_stats_key_spec(secs as int, port),
{
    let mut key: Vec<u8> = Vec::new();
    Family::PortStats.push_word(&mut key);
    key.push(COLON);
    push_time_field(&mut key, secs);
    key.push(COLON);
    push_decimal(&mut key, port as u64);
    assert(key@ =~= port_stats_key_spec(secs as int, port));
    key
}

/// The bounds of a range scan, as texts: the scan starts at the first key
/// that is not before `start` and goes on while a key starts with `prefix`
/// and is not after `end`. Where the end is open, the scan also stops at
/// the end key itself.
pub struct Bounds {
    pub prefix: Seq<u8>,
    pub start: Seq<u8>,
    pub end: Seq<u8>,
    pub end_open: bool,
}

impl Bounds {
    /// Whether a scan goes on at `key`.
    pub open spec fn admits(&self, key: Seq<u8>) -> bool {
        has_prefix(key, self.prefix) && lex_le(key, self.end) && (self.end_open ==> key != self.end)
    }

    /// The bounds for the keys of a family whose time comes first: the
    /// prefix is the word and a colon, and the start and the end are the
    /// prefix, a time and a colon.
    pub open spec fn by_time(family: Family, start_secs: int, end_secs: int) -> Bounds {
        let prefix = family.word() + colon();
        Bounds {
            prefix,
            start: prefix + time_field(start_secs) + colon(),
            end: prefix + time_field(end_secs) + colon(),
            end_open: false,
        }
    }

    /// The bounds for the keys of one address or port in a family of flow
    /// records ordered by it: the prefix is the word, the number and a
    /// colon after each, and the start and the end are the prefix, a time
    /// and a colon.
    pub open spec fn by_dimension(
        family: Family,
        dimension: nat,
        start_secs: int,
        end_secs: int,
    ) -> Bounds {
        let prefix = family.word() + colon() + decimal(dimension) + colon();
        Bounds {
            prefix,
            start: prefix + time_field(start_secs) + colon(),
            end: prefix + time_field(end_secs) + colon(),
            end_open: false,
        }
    }

    /// The bounds for the protocol records of one address: as
    /// `by_dimension`, but the start and the end stop after the time, with
    /// no colon behind it, as the keys of the family do. The end key is
    /// then the key of the end time itself, so the end is open: the scan
    /// stops before it.
    pub open spec fn ip_protocol(ip: u32, start_secs: int, end_secs: int) -> Bounds {
        let prefix = word_ip_protocol() + colon() + decimal(ip as nat) + colon();
        Bounds {
            prefix,
            start: prefix + time_field(start_secs),
            end: prefix + time_field(end_secs),
            end_open: true,
        }
    }
}

/// The bounds of a range scan.
pub struct ScanBounds {
    pub prefix: Vec<u8>,
    pub start_key: Vec<u8>,
    pub end_key: Vec<u8>,
    /// Whether the scan stops at the end key itself.
    pub end_open: bool,
}

impl View for ScanBounds {
    type V = Bounds;

    open spec fn view(&self) -> Bounds {
        Bounds {
            prefix: self.prefix@,
            start: self.start_key@,
            end: self.end_key@,
            end_open: self.end_open,
        }
    }
}

impl ScanBounds {
    /// Whether a scan goes on at `key`: the key starts with the prefix and
    /// is not after the end key, nor the end key itself where the end is
    /// open.
    pub fn admits(&self, key: &[u8]) -> (r: bool)
        ensures
            r == self@.admits(key@),
    {
        if !starts_with(key, self.prefix.as_slice()) || !bytes_le(key, self.end_key.as_slice()) {
            return false;
        }
        if !self.end_open {
            return true;
        }
        let back = bytes_le(self.end_key.as_slice(), key);
        proof {
            if back {
                lemma_lex_le_antisym(key@, self.end_key@);
            } else {
                lemma_lex_le_refl(key@);
            }
        }
        !back
    }

    /// The bounds for the records of a family whose keys start with the
    /// time, from `start_secs` to `end_secs`.
    pub fn by_time(family: &Family, start_secs: i64, end_secs: i64) -> (b: ScanBounds)
        ensures
            b@ == Bounds::by_time(*family, start_secs as int, end_secs as int),
    {
        let mut prefix: Vec<u8> = Vec::new();
        family.push_word(&mut prefix);
        prefix.push(COLON);
        let mut start_key: Vec<u8> = Vec::new();
        push_bytes(&mut start_key, prefix.as_slice());
        push_time_field(&mut start_key, start_secs);
        start_key.push(COLON);
        let mut end_key: Vec<u8> = Vec::new();
        push_bytes(&mut end_key, prefix.as_slice());
        push_time_field(&mut end_key, end_secs);
        end_key.push(COLON);
        let ghost expected = Bounds::by_time(*family, start_secs as int, end_secs as int);
        assert(prefix@ =~= expected.prefix);
        assert(start_key@ =~= expected.start);
        assert(end_key@ =~= expected.end);
        ScanBounds { prefix, start_key, end_key, end_open: false }
    }

    /// The bounds for the flow records of one address or port, from
    /// `start_secs` to `end_secs`.
    pub fn by_dimension(family: &Family, dimension: u64, start_secs: i64, end_secs: i64) -> (b:
        ScanBounds)
        ensures
            b@ == Bounds::by_dimension(
                *family,
                dimension as nat,
                start_secs as int,
                end_secs as int,
            ),
    {
        let mut prefix: Vec<u8> = Vec::new();
        family.push_word(&mut prefix);
        prefix.push(COLON);
        push_decimal(&mut prefix, dimension);
        prefix.push(COLON);
        let mut start_key: Vec<u8> = Vec::new();
        push_bytes(&mut start_key, prefix.as_slice());
        push_time_field(&mut start_key, start_secs);
        start_key.push(COLON);
        let mut end_key: Vec<u8> = Vec::new();
        push_bytes(&mut end_key, prefix.as_slice());
        push_time_field(&mut end_key, end_secs);
        end_key.push(COLON);
        let ghost expected = Bounds::by_dimension(
            *family,
            dimension as nat,
            start_secs as int,
            end_secs as int,
        );
        assert(prefix@ =~= expected.prefix);
        assert(start_key@ =~= expected.start);
        assert(end_key@ =~= expected.end);
        ScanBounds { prefix, start_key, end_key, end_open: false }
    }

    /// The bounds for the protocol records of one address, from
    /// `start_secs` up to, but not at, `end_secs`.
    pub fn ip_protocol(ip: u32, start_secs: i64, end_secs: i64) -> (b: ScanBounds)
        ensures
            b@ == Bounds::ip_protocol(ip, start_secs as int, end_secs as int),
    {
        let mut prefix: Vec<u8> = Vec::new();
        Family::IpProtocol.push_word(&mut prefix);
        prefix.push(COLON);
        push_decimal(&mut prefix, ip as u64);
        prefix.push(COLON);
        let mut start_key: Vec<u8> = Vec::new();
        push_bytes(&mut start_key, prefix.as_slice());
        push_time_field(&mut start_key, start_secs);
        let mut end_key: Vec<u8> = Vec::new();
        push_bytes(&mut end_key, prefix.as_slice());
        push_time_field(&mut end_key, end_secs);
        let ghost expected = Bounds::ip_protocol(ip, start_secs as int, end_secs as int);
        assert(prefix@ =~= expected.prefix);
        assert(start_key@ =~= expected.start);
        assert(end_key@ =~= expected.end);
        ScanBounds { prefix, start_key, end_key, end_open: true }
    }
}

} // verus!
