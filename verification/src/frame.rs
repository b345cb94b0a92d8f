//! The decoded frame view that the inspection engine consumes, and the
//! minimal header-chain decoding that produces it from captured bytes:
//! Ethernet, then IPv4, plus the one further step that reads the TCP
//! destination port out of the transport header.

use vstd::prelude::*;
use vstd::slice::{slice_subrange, slice_to_vec};

verus! {

/// An IPv4 address as its four octets.
#[derive(Clone, Copy, Debug, PartialEq, Eq, Structural)]
pub struct Ipv4Address {
    pub a: u8,
    pub b: u8,
    pub c: u8,
    pub d: u8,
}

/// The next-level protocol carried by an IPv4 packet, as far as the engine
/// distinguishes it.
#[derive(Clone, Copy, Debug, PartialEq, Eq, Structural)]
pub enum NextProto {
    Tcp,
    Udp,
    Icmp,
    Other,
}

/// A non-owning projection of one captured IPv4 packet: source address,
/// next-level protocol, and the IPv4 payload bytes that pattern matching
/// scans (for TCP these start at the TCP header).
#[derive(Clone, Debug, PartialEq, Eq)]
pub struct FrameView {
    pub src: Ipv4Address,
    pub proto: NextProto,
    pub payload: Vec<u8>,
}

/// The character for one decimal digit.
pub open spec fn digit_char(d: int) -> char {
    if d == 0 {
        '0'
    } else if d == 1 {
        '1'
    } else if d == 2 {
        '2'
    } else if d == 3 {
        '3'
    } else if d == 4 {
        '4'
    } else if d == 5 {
        '5'
    } else if d == 6 {
        '6'
    } else if d == 7 {
        '7'
    } else if d == 8 {
        '8'
    } else {
        '9'
    }
}

/// The decimal digits of a nonnegative integer, most significant first, with
/// no leading zeros.
pub open spec fn dec_digits(n: int) -> Seq<char>
    decreases n,
{
    if n < 10 {
        seq![digit_char(n)]
    } else {
        dec_digits(n / 10).push(digit_char(n % 10))
    }
}

/// The dotted-decimal text form of an IPv4 address.
pub open spec fn ipv4_dotted(ip: Ipv4Address) -> Seq<char> {
    dec_digits(ip.a as int) + seq!['.'] + dec_digits(ip.b as int) + seq!['.'] + dec_digits(
        ip.c as int,
    ) + seq!['.'] + dec_digits(ip.d as int)
}

fn digit_to_char(d: u8) -> (c: char)
    requires
        d < 10,
    ensures
        c == digit_char(d as int),
{
    match d {
        0 => '0',
        1 => '1',
        2 => '2',
        3 => '3',
        4 => '4',
        5 => '5',
        6 => '6',
        7 => '7',
        8 => '8',
        _ => '9',
    }
}

/// Appends the decimal form of one octet.
fn push_octet(out: &mut String, n: u8)
    ensures
        final(out)@ == old(out)@ + dec_digits(n as int),
{
    if n >= 100 {
        out.push(digit_to_char(n / 100));
        out.push(digit_to_char((n / 10) % 10));
        out.push(digit_to_char(n % 10));
        proof {
            assert(dec_digits(n as int) == dec_digits(n as int / 10).push(
                digit_char(n as int % 10),
            ));
            assert(dec_digits(n as int / 10) == dec_digits(n as int / 100).push(
                digit_char((n as int / 10) % 10),
            ));
            assert(dec_digits(n as int / 100) == seq![digit_char(n as int / 100)]);
            assert((n / 10) % 10 == (n as int / 10) % 10);
            assert(final(out)@ =~= old(out)@ + dec_digits(n as int));
        }
    } else if n >= 10 {
        out.push(digit_to_char(n / 10));
        out.push(digit_to_char(n % 10));
        proof {
            assert(dec_digits(n as int) == dec_digits(n as int / 10).push(
                digit_char(n as int % 10),
            ));
            assert(dec_digits(n as int / 10) == seq![digit_char(n as int / 10)]);
            assert(final(out)@ =~= old(out)@ + dec_digits(n as int));
        }
    } else {
        out.push(digit_to_char(n));
        proof {
            assert(dec_digits(n as int) == seq![digit_char(n as int)]);
            assert(final(out)@ =~= old(out)@ + dec_digits(n as int));
        }
    }
}

impl Ipv4Address {
    /// The dotted-decimal text form, as the rules and alerts carry it.
    pub fn to_dotted(&self) -> (r: String)
        ensures
            r@ == ipv4_dotted(*self),
    {
        let mut out = String::new();
        push_octet(&mut out, self.a);
        out.push('.');
        push_octet(&mut out, self.b);
        out.push('.');
        push_octet(&mut out, self.c);
        out.push('.');
        push_octet(&mut out, self.d);
        proof {
            assert(out@ =~= ipv4_dotted(*self));
        }
        out
    }
}

/// The destination port of the TCP header at the start of an IPv4 payload:
/// present only when the frame is TCP and the payload holds a whole 20-byte
/// TCP header.
pub open spec fn tcp_dst_port_of(proto: NextProto, payload: Seq<u8>) -> Option<u16> {
    if proto == NextProto::Tcp && payload.len() >= 20 {
        Some(((payload[2] * 256 + payload[3]) as u16))
    } else {
        None
    }
}

/// Reads the TCP destination port out of a frame's payload, if there is one.
pub fn tcp_dst_port(frame: &FrameView) -> (r: Option<u16>)
    ensures
        r == tcp_dst_port_of(frame.proto, frame.payload@),
{
    if matches!(frame.proto, NextProto::Tcp) && frame.payload.len() >= 20 {
        let hi = frame.payload[2];
        let lo = frame.payload[3];
        Some((hi as u16) * 256 + (lo as u16))
    } else {
        None
    }
}

/// The Ethernet header carries the IPv4 ethertype (0x0800, big-endian at
/// offsets 12 and 13) and is long enough to hold a header at all.
pub open spec fn eth_is_ipv4(data: Seq<u8>) -> bool {
    data.len() >= 14 && data[12] == 0x08u8 && data[13] == 0x00u8
}

/// The bytes after the Ethernet header form a well-formed IPv4 header:
/// version 4, a header length of at least five words that fits in the buffer.
pub open spec fn ipv4_valid(ip: Seq<u8>) -> bool {
    &&& ip.len() >= 20
    &&& ip[0] >> 4 == 4u8
    &&& (ip[0] & 0x0f) >= 5
    &&& (ip[0] & 0x0f) * 4 <= ip.len()
}

/// The next-level protocol named by an IPv4 protocol byte.
pub open spec fn proto_of(b: u8) -> NextProto {
    if b == 6 {
        NextProto::Tcp
    } else if b == 17 {
        NextProto::Udp
    } else if b == 1 {
        NextProto::Icmp
    } else {
        NextProto::Other
    }
}

/// The IPv4 payload: the bytes after the options, up to the packet's total
/// length, clamped to what the buffer actually holds.
pub open spec fn ipv4_payload_of(ip: Seq<u8>) -> Seq<u8> {
    let hdr = (ip[0] & 0x0f) * 4;
    let total = ip[2] * 256 + ip[3];
    let end = if total < hdr {
        hdr as int
    } else if total > ip.len() {
        ip.len() as int
    } else {
        total as int
    };
    ip.subrange(hdr as int, end)
}

/// A captured frame decodes to an IPv4 view at all.
pub open spec fn frame_ok(data: Seq<u8>) -> bool {
    eth_is_ipv4(data) && ipv4_valid(data.skip(14))
}

/// `f` is the view that decoding `data` produces.
pub open spec fn frame_view_of(data: Seq<u8>, f: FrameView) -> bool {
    let ip = data.skip(14);
    &&& f.src == (Ipv4Address { a: ip[12], b: ip[13], c: ip[14], d: ip[15] })
    &&& f.proto == proto_of(ip[9])
    &&& f.payload@ == ipv4_payload_of(ip)
}

/// Decodes the minimal Ethernet to IPv4 header chain of one captured frame.
/// Frames that are not Ethernet/IPv4 (ARP, IPv6, truncated headers) yield
/// `None` and are meant to be skipped silently.
pub fn decode_frame(data: &[u8]) -> (r: Option<FrameView>)
    ensures
        r is Some <==> frame_ok(data@),
        r is Some ==> frame_view_of(data@, r.unwrap()),
{
    if data.len() < 34 {
        // too short for an Ethernet header plus a minimal IPv4 header
        if data.len() >= 14 {
            proof {
                assert(data@.skip(14).len() < 20);
            }
        }
        return None;
    }
    if !(data[12] == 0x08 && data[13] == 0x00) {
        return None;
    }
    let ip: &[u8] = slice_subrange(data, 14, data.len());
    proof {
        assert(ip@ =~= data@.skip(14));
    }
    let v0 = ip[0];
    if !(v0 >> 4 == 4) {
        return None;
    }
    let ihl = v0 & 0x0f;
    proof {
        assert(ihl <= 15) by (bit_vector)
            requires
                ihl == v0 & 0x0f,
        ;
    }
    if ihl < 5 {
        return None;
    }
    let hdr = (ihl as usize) * 4;
    if hdr > ip.len() {
        return None;
    }
    let total = (ip[2] as usize) * 256 + (ip[3] as usize);
    let end = if total < hdr {
        hdr
    } else if total > ip.len() {
        ip.len()
    } else {
        total
    };
    let payload = slice_to_vec(slice_subrange(ip, hdr, end));
    let f = FrameView {
        src: Ipv4Address { a: ip[12], b: ip[13], c: ip[14], d: ip[15] },
        proto: match ip[9] {
            6 => NextProto::Tcp,
            17 => NextProto::Udp,
            1 => NextProto::Icmp,
            _ => NextProto::Other,
        },
        payload,
    };
    Some(f)
}

} // verus!
