//! The header reader: Ethernet, IPv4, TCP and UDP headers read from a raw
//! frame. Every header is taken through [`header_at`], which hands out the
//! header's bytes only where all of them lie inside the frame. Where the
//! frame ends is the length of the buffer given; no length field found in a
//! header moves it.

use vstd::prelude::*;
use vstd::slice::slice_subrange;
use crate::stats::{PROTOCOL_TCP, PROTOCOL_UDP};

verus! {

/// Why a frame could not be read.
#[derive(Clone, Copy, Debug, PartialEq, Eq, Structural)]
pub enum PacketError {
    /// A header would reach past the end of the frame.
    OutOfBounds,
}

/// Bytes of an Ethernet header.
pub const ETH_HDR_LEN: usize = 14;

/// Bytes of an IPv4 header without options.
pub const IPV4_HDR_LEN: usize = 20;

/// Bytes of a TCP header without options.
pub const TCP_HDR_LEN: usize = 20;

/// Bytes of a UDP header.
pub const UDP_HDR_LEN: usize = 8;

/// The ether-type of IPv4.
pub const ETHER_TYPE_IPV4: u16 = 0x0800;

/// Two bytes in network order as a number.
pub open spec fn be16(hi: u8, lo: u8) -> u16 {
    (hi * 0x100 + lo) as u16
}

/// Four bytes in network order as a number.
pub open spec fn be32(b0: u8, b1: u8, b2: u8, b3: u8) -> u32 {
    (b0 * 0x100_0000 + b1 * 0x1_0000 + b2 * 0x100 + b3) as u32
}

/// The number that the two bytes of `b` at `at` spell in network order.
pub open spec fn be16_at(b: Seq<u8>, at: int) -> u16 {
    be16(b[at], b[at + 1])
}

/// The number that the four bytes of `b` at `at` spell in network order.
pub open spec fn be32_at(b: Seq<u8>, at: int) -> u32 {
    be32(b[at], b[at + 1], b[at + 2], b[at + 3])
}

fn read_be16(b: &[u8], at: usize) -> (r: u16)
    requires
        at + 2 <= b@.len(),
    ensures
        r == be16_at(b@, at as int),
{
    (b[at] as u16) * 0x100 + (b[at + 1] as u16)
}

fn read_be32(b: &[u8], at: usize) -> (r: u32)
    requires
        at + 4 <= b@.len(),
    ensures
        r == be32_at(b@, at as int),
{
    (b[at] as u32) * 0x100_0000 + (b[at + 1] as u32) * 0x1_0000 + (b[at + 2] as u32) * 0x100 + (
    b[at + 3] as u32)
}

/// The `width` bytes of `frame` that start at `offset`, or `OutOfBounds`
/// where they do not all lie inside the frame.
pub fn header_at(frame: &[u8], offset: usize, width: usize) -> (r: Result<&[u8], PacketError>)
    ensures
        r is Ok <==> offset + width <= frame@.len(),
        r matches Ok(bytes) ==> bytes@ == frame@.subrange(offset as int, offset + width),
        r matches Err(e) ==> e == PacketError::OutOfBounds,
{
    if offset > frame.len() || width > frame.len() - offset {
        Err(PacketError::OutOfBounds)
    } else {
        Ok(slice_subrange(frame, offset, offset + width))
    }
}

/// An Ethernet header.
#[derive(Clone, Copy, Debug, PartialEq, Eq)]
pub struct EthHdr {
    pub dst_addr: [u8; 6],
    pub src_addr: [u8; 6],
    pub ether_type: u16,
}

impl EthHdr {
    /// Whether `self` is what the 14 bytes `b` spell.
    pub open spec fn reads(&self, b: Seq<u8>) -> bool {
        &&& self.dst_addr@ == b.subrange(0, 6)
        &&& self.src_addr@ == b.subrange(6, 12)
        &&& self.ether_type == be16_at(b, 12)
    }

    pub fn parse(b: &[u8]) -> (h: EthHdr)
        requires
            b@.len() == ETH_HDR_LEN,
        ensures
            h.reads(b@),
    {
        let h = EthHdr {
            dst_addr: [b[0], b[1], b[2], b[3], b[4], b[5]],
            src_addr: [b[6], b[7], b[8], b[9], b[10], b[11]],
            ether_type: read_be16(b, 12),
        };
        assert(h.dst_addr@ =~= b@.subrange(0, 6));
        assert(h.src_addr@ =~= b@.subrange(6, 12));
        h
    }
}

/// An IPv4 header without options.
#[derive(Clone, Copy, Debug, PartialEq, Eq, Structural)]
pub struct Ipv4Hdr {
    pub version_ihl: u8,
    pub tos: u8,
    pub tot_len: u16,
    pub id: u16,
    pub frag_off: u16,
    pub ttl: u8,
    pub proto: u8,
    pub check: u16,
    pub src_addr: u32,
    pub dst_addr: u32,
}

impl Ipv4Hdr {
    /// What the 20 bytes `b` spell.
    pub open spec fn parse_spec(b: Seq<u8>) -> Ipv4Hdr {
        Ipv4Hdr {
            version_ihl: b[0],
            tos: b[1],
            tot_len: be16_at(b, 2),
            id: be16_at(b, 4),
            frag_off: be16_at(b, 6),
            ttl: b[8],
            proto: b[9],
            check: be16_at(b, 10),
            src_addr: be32_at(b, 12),
            dst_addr: be32_at(b, 16),
        }
    }

    pub fn parse(b: &[u8]) -> (h: Ipv4Hdr)
        requires
            b@.len() == IPV4_HDR_LEN,
        ensures
            h == Ipv4Hdr::parse_spec(b@),
    {
        Ipv4Hdr {
            version_ihl: b[0],
            tos: b[1],
            tot_len: read_be16(b, 2),
            id: read_be16(b, 4),
            frag_off: read_be16(b, 6),
            ttl: b[8],
            proto: b[9],
            check: read_be16(b, 10),
            src_addr: read_be32(b, 12),
            dst_addr: read_be32(b, 16),
        }
    }
}

/// A TCP header without options.
#[derive(Clone, Copy, Debug, PartialEq, Eq, Structural)]
pub struct TcpHdr {
    pub source: u16,
    pub dest: u16,
    pub seq: u32,
    pub ack_seq: u32,
    /// Data offset, reserved bits and flags.
    pub offset_flags: u16,
    pub window: u16,
    pub check: u16,
    pub urg_ptr: u16,
}

impl TcpHdr {
    /// What the 20 bytes `b` spell.
    pub open spec fn parse_spec(b: Seq<u8>) -> TcpHdr {
        TcpHdr {
            source: be16_at(b, 0),
            dest: be16_at(b, 2),
            seq: be32_at(b, 4),
            ack_seq: be32_at(b, 8),
            offset_flags: be16_at(b, 12),
            window: be16_at(b, 14),
            check: be16_at(b, 16),
            urg_ptr: be16_at(b, 18),
        }
    }

    pub fn parse(b: &[u8]) -> (h: TcpHdr)
        requires
            b@.len() == TCP_HDR_LEN,
        ensures
            h == TcpHdr::parse_spec(b@),
    {
        TcpHdr {
            source: read_be16(b, 0),
            dest: read_be16(b, 2),
            seq: read_be32(b, 4),
            ack_seq: read_be32(b, 8),
            offset_flags: read_be16(b, 12),
            window: read_be16(b, 14),
            check: read_be16(b, 16),
            urg_ptr: read_be16(b, 18),
        }
    }
}

/// A UDP header.
#[derive(Clone, Copy, Debug, PartialEq, Eq, Structural)]
pub struct UdpHdr {
    pub source: u16,
    pub dest: u16,
    pub len: u16,
    pub check: u16,
}

impl UdpHdr {
    /// What the 8 bytes `b` spell.
    pub open spec fn parse_spec(b: Seq<u8>) -> UdpHdr {
        UdpHdr {
            source: be16_at(b, 0),
            dest: be16_at(b, 2),
            len: be16_at(b, 4),
            check: be16_at(b, 6),
        }
    }

    pub fn parse(b: &[u8]) -> (h: UdpHdr)
        requires
            b@.len() == UDP_HDR_LEN,
        ensures
            h == UdpHdr::parse_spec(b@),
    {
        UdpHdr {
            source: read_be16(b, 0),
            dest: read_be16(b, 2),
            len: read_be16(b, 4),
            check: read_be16(b, 6),
        }
    }
}

/// What the classifier takes from a TCP or UDP packet over IPv4.
#[derive(Clone, Copy, Debug, PartialEq, Eq, Structural)]
pub struct PacketInfo {
    pub source_addr: u32,
    pub dest_addr: u32,
    pub source_port: u16,
    pub dest_port: u16,
    /// 6 for TCP, 17 for UDP.
    pub protocol: u8,
    /// The total length that the IPv4 header states.
    pub packet_len: u64,
}

/// What the frame `f` is to the classifier: `OutOfBounds` where a header it
/// has to read would pass the end of the frame, `Ok(None)` for a frame that
/// is not IPv4 or carries neither TCP nor UDP, and the packet's addresses,
/// ports and length otherwise.
///
/// The Ethernet header is at 0 and the IPv4 header at 14. The transport
/// header is read at 34 whatever header length the IPv4 header states.
pub open spec fn parse_packet_spec(f: Seq<u8>) -> Result<Option<PacketInfo>, PacketError> {
    if f.len() < 14 {
        Err(PacketError::OutOfBounds)
    } else if be16_at(f, 12) != ETHER_TYPE_IPV4 {
        Ok(None)
    } else if f.len() < 34 {
        Err(PacketError::OutOfBounds)
    } else if f[23] == PROTOCOL_TCP {
        if f.len() < 54 {
            Err(PacketError::OutOfBounds)
        } else {
            Ok(
                Some(
                    PacketInfo {
                        source_addr: be32_at(f, 26),
                        dest_addr: be32_at(f, 30),
                        source_port: be16_at(f, 34),
                        dest_port: be16_at(f, 36),
                        protocol: PROTOCOL_TCP,
                        packet_len: be16_at(f, 16) as u64,
                    },
                ),
            )
        }
    } else if f[23] == PROTOCOL_UDP {
        if f.len() < 42 {
            Err(PacketError::OutOfBounds)
        } else {
            Ok(
                Some(
                    PacketInfo {
                        source_addr: be32_at(f, 26),
                        dest_addr: be32_at(f, 30),
                        source_port: be16_at(f, 34),
                        dest_port: be16_at(f, 36),
                        protocol: PROTOCOL_UDP,
                        packet_len: be16_at(f, 16) as u64,
                    },
                ),
            )
        }
    } else {
        Ok(None)
    }
}

/// Reads the headers of `frame`.
pub fn parse_packet(frame: &[u8]) -> (r: Result<Option<PacketInfo>, PacketError>)
    ensures
        r == parse_packet_spec(frame@),
{
    let eth = EthHdr::parse(header_at(frame, 0, ETH_HDR_LEN)?);
    if eth.ether_type != ETHER_TYPE_IPV4 {
        return Ok(None);
    }
    let ip = Ipv4Hdr::parse(header_at(frame, ETH_HDR_LEN, IPV4_HDR_LEN)?);
    let (source_port, dest_port) = if ip.proto == PROTOCOL_TCP {
        let tcp = TcpHdr::parse(header_at(frame, ETH_HDR_LEN + IPV4_HDR_LEN, TCP_HDR_LEN)?);
        (tcp.source, tcp.dest)
    } else if ip.proto == PROTOCOL_UDP {
        let udp = UdpHdr::parse(header_at(frame, ETH_HDR_LEN + IPV4_HDR_LEN, UDP_HDR_LEN)?);
        (udp.source, udp.dest)
    } else {
        return Ok(None);
    };
    Ok(
        Some(
            PacketInfo {
                source_addr: ip.src_addr,
                dest_addr: ip.dst_addr,
                source_port,
                dest_port,
                protocol: ip.proto,
                packet_len: ip.tot_len as u64,
            },
        ),
    )
}

} // verus!
