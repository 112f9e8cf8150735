//! The fields of a captured Ethernet frame that the capture loop reads:
//! the ethertype, the IPv4 addresses and protocol, and the TCP or UDP
//! header after the IPv4 header. All numbers are big-endian.
use vstd::prelude::*;

verus! {

pub const ETHERNET_HEADER_LEN: usize = 14;

pub const IPV4_HEADER_MIN_LEN: usize = 20;

pub const ETHERTYPE_IPV4: u16 = 0x0800;

pub const PROTOCOL_TCP: u8 = 6;

pub const PROTOCOL_UDP: u8 = 17;

/// The two bytes of `s` at `i` as a big-endian number.
pub open spec fn be16(s: Seq<u8>, i: int) -> u16 {
    (s[i] * 256 + s[i + 1]) as u16
}

/// The four bytes of `s` at `i` as a big-endian number.
pub open spec fn be32(s: Seq<u8>, i: int) -> u32 {
    (((s[i] * 256 + s[i + 1]) * 256 + s[i + 2]) * 256 + s[i + 3]) as u32
}

/// The six bytes of `s` at `i` as a hardware address, first byte most
/// significant.
pub open spec fn be48(s: Seq<u8>, i: int) -> u64 {
    (be16(s, i) * 0x1_0000_0000 + be32(s, i + 2)) as u64
}

/// The ethertype of an Ethernet frame, where it has a whole header.
pub open spec fn ethertype_of(f: Seq<u8>) -> Option<u16> {
    if f.len() >= ETHERNET_HEADER_LEN {
        Some(be16(f, 12))
    } else {
        None
    }
}

/// The IPv4 header fields that the capture loop reads.
#[derive(Clone, Copy, Debug, PartialEq, Eq, Structural)]
pub struct Ipv4Fields {
    pub src: u32,
    pub dst: u32,
    pub protocol: u8,
}

/// The IPv4 header of an Ethernet frame, where the frame carries IPv4 and
/// holds a whole minimal IPv4 header after the Ethernet header.
pub open spec fn ipv4_of(f: Seq<u8>) -> Option<Ipv4Fields> {
    if ethertype_of(f) == Some(ETHERTYPE_IPV4) && f.len() >= ETHERNET_HEADER_LEN
        + IPV4_HEADER_MIN_LEN {
        Some(Ipv4Fields { src: be32(f, 26), dst: be32(f, 30), protocol: f[23] })
    } else {
        None
    }
}

/// Where the IPv4 payload starts in the frame: after the header length that
/// the header states in 32-bit words.
pub open spec fn transport_start(f: Seq<u8>) -> int {
    ETHERNET_HEADER_LEN + (f[14] % 16) * 4
}

/// The per-packet trace of a TCP or UDP packet.
#[derive(Clone, Copy, Debug, PartialEq, Eq, Structural)]
pub enum Trace {
    Tcp { src_mac: u64, src_port: u16, dst_mac: u64, dst_port: u16, seq: u32, ack: u32 },
    Udp { src_mac: u64, src_port: u16, dst_mac: u64, dst_port: u16, length: u16 },
}

/// The trace of a frame: for an IPv4 packet whose stated header length is
/// valid and which holds a whole TCP header (20 bytes) or UDP header (8
/// bytes) after it.
pub open spec fn trace_of(f: Seq<u8>) -> Option<Trace> {
    match ipv4_of(f) {
        None => None,
        Some(ip) => {
            let t = transport_start(f);
            if (f[14] % 16) * 4 < IPV4_HEADER_MIN_LEN {
                None
            } else if ip.protocol == PROTOCOL_TCP && t + 20 <= f.len() {
                Some(
                    Trace::Tcp {
                        src_mac: be48(f, 6),
                        src_port: be16(f, t),
                        dst_mac: be48(f, 0),
                        dst_port: be16(f, t + 2),
                        seq: be32(f, t + 4),
                        ack: be32(f, t + 8),
                    },
                )
            } else if ip.protocol == PROTOCOL_UDP && t + 8 <= f.len() {
                Some(
                    Trace::Udp {
                        src_mac: be48(f, 6),
                        src_port: be16(f, t),
                        dst_mac: be48(f, 0),
                        dst_port: be16(f, t + 2),
                        length: be16(f, t + 4),
                    },
                )
            } else {
                None
            }
        },
    }
}

fn read_be16(f: &[u8], i: usize) -> (r: u16)
    requires
        i + 2 <= f.len(),
    ensures
        r == be16(f@, i as int),
{
    (f[i] as u16) * 256 + (f[i + 1] as u16)
}

fn read_be32(f: &[u8], i: usize) -> (r: u32)
    requires
        i + 4 <= f.len(),
    ensures
        r == be32(f@, i as int),
{
    let a = f[i] as u32;
    let b = f[i + 1] as u32;
    let c = f[i + 2] as u32;
    let d = f[i + 3] as u32;
    assert(((a * 256 + b) * 256 + c) * 256 + d <= u32::MAX) by (nonlinear_arith)
        requires
            a <= 255,
            b <= 255,
            c <= 255,
            d <= 255,
    ;
    ((a * 256 + b) * 256 + c) * 256 + d
}

fn read_be48(f: &[u8], i: usize) -> (r: u64)
    requires
        i + 6 <= f.len(),
    ensures
        r == be48(f@, i as int),
{
    let hi = read_be16(f, i) as u64;
    let lo = read_be32(f, i + 2) as u64;
    assert(hi * 0x1_0000_0000 + lo <= u64::MAX) by (nonlinear_arith)
        requires
            hi <= 0xffff,
            lo <= 0xffff_ffff,
    ;
    hi * 0x1_0000_0000 + lo
}

/// The ethertype of `frame`, `None` where it is shorter than an Ethernet
/// header.
pub fn ethertype(frame: &[u8]) -> (r: Option<u16>)
    ensures
        r == ethertype_of(frame@),
{
    if frame.len() >= ETHERNET_HEADER_LEN {
        Some(read_be16(frame, 12))
    } else {
        None
    }
}

/// The IPv4 fields of `frame`, `None` where it does not carry a whole IPv4
/// header.
pub fn ipv4_fields(frame: &[u8]) -> (r: Option<Ipv4Fields>)
    ensures
        r == ipv4_of(frame@),
{
    if ethertype(frame) == Some(ETHERTYPE_IPV4) && frame.len() >= ETHERNET_HEADER_LEN
        + IPV4_HEADER_MIN_LEN {
        Some(
            Ipv4Fields {
                src: read_be32(frame, 26),
                dst: read_be32(frame, 30),
                protocol: frame[23],
            },
        )
    } else {
        None
    }
}

/// The trace of `frame`, `None` where it holds no whole TCP or UDP header.
pub fn trace(frame: &[u8]) -> (r: Option<Trace>)
    ensures
        r == trace_of(frame@),
{
    let ip = match ipv4_fields(frame) {
        None => return None,
        Some(ip) => ip,
    };
    let words = (frame[14] % 16) as usize;
    if words * 4 < IPV4_HEADER_MIN_LEN {
        return None;
    }
    let t = ETHERNET_HEADER_LEN + words * 4;
    if ip.protocol == PROTOCOL_TCP && t + 20 <= frame.len() {
        Some(
            Trace::Tcp {
                src_mac: read_be48(frame, 6),
                src_port: read_be16(frame, t),
                dst_mac: read_be48(frame, 0),
                dst_port: read_be16(frame, t + 2),
                seq: read_be32(frame, t + 4),
                ack: read_be32(frame, t + 8),
            },
        )
    } else if ip.protocol == PROTOCOL_UDP && t + 8 <= frame.len() {
        Some(
            Trace::Udp {
                src_mac: read_be48(frame, 6),
                src_port: read_be16(frame, t),
                dst_mac: read_be48(frame, 0),
                dst_port: read_be16(frame, t + 2),
                length: read_be16(frame, t + 4),
            },
        )
    } else {
        None
    }
}

} // verus!
