use vstd::prelude::*;

verus! {

/// An IP address: IPv4 as one 32-bit number, IPv6 as its upper and lower 64 bits,
/// both read big-endian from the wire.
#[derive(PartialEq, Eq, Structural, Clone, Copy, Debug, Hash)]
pub enum IpAddress {
    V4(u32),
    V6(u64, u64),
}

/// An endpoint of a flow: an address and a port.
#[derive(PartialEq, Eq, Structural, Clone, Copy, Debug, Hash)]
pub struct Socket {
    pub ip: IpAddress,
    pub port: u16,
}

#[derive(PartialEq, Eq, Structural, Clone, Copy, Debug, Hash)]
pub enum Protocol {
    Tcp,
    Udp,
}

#[derive(PartialEq, Eq, Structural, Clone, Copy, Debug, Hash)]
pub enum Direction {
    Incoming,
    Outgoing,
}

/// One directional traffic event parsed from a frame. `local_socket` is the
/// endpoint on the monitored interface's side when the frame was sent from it.
#[derive(PartialEq, Eq, Structural, Clone, Copy, Debug)]
pub struct Segment {
    pub protocol: Protocol,
    pub local_socket: Socket,
    pub remote_socket: Socket,
    pub direction: Direction,
    pub byte_length: u64,
}

/// The monitored interface: its name and the addresses bound to it.
pub struct InterfaceIdentity {
    pub name: String,
    pub addresses: Vec<IpAddress>,
}

pub const ETHERNET_HEADER_LEN: usize = 14;
pub const ETHERTYPE_IPV4: u16 = 0x0800;
pub const ETHERTYPE_IPV6: u16 = 0x86dd;
pub const IPV4_MIN_HEADER_LEN: usize = 20;
pub const IPV6_HEADER_LEN: usize = 40;
pub const IP_PROTOCOL_TCP: u8 = 6;
pub const IP_PROTOCOL_UDP: u8 = 17;
pub const TCP_MIN_HEADER_LEN: usize = 20;
pub const UDP_HEADER_LEN: usize = 8;

/// Big-endian 16-bit value of the two bytes at `i`.
pub open spec fn be16(s: Seq<u8>, i: int) -> int {
    s[i] * 256 + s[i + 1]
}

/// Big-endian 32-bit value of the four bytes at `i`.
pub open spec fn be32(s: Seq<u8>, i: int) -> int {
    s[i] * 0x100_0000 + s[i + 1] * 0x1_0000 + s[i + 2] * 0x100 + s[i + 3]
}

/// Big-endian 64-bit value of the eight bytes at `i`.
pub open spec fn be64(s: Seq<u8>, i: int) -> int {
    be32(s, i) * 0x1_0000_0000 + be32(s, i + 4)
}

fn read_be16(s: &Vec<u8>, i: usize) -> (r: u16)
    requires
        i + 2 <= s@.len(),
        s@.len() <= usize::MAX,
    ensures
        r as int == be16(s@, i as int),
{
    (s[i] as u16) * 256 + (s[i + 1] as u16)
}

fn read_be32(s: &Vec<u8>, i: usize) -> (r: u32)
    requires
        i + 4 <= s@.len(),
        s@.len() <= usize::MAX,
    ensures
        r as int == be32(s@, i as int),
{
    (s[i] as u32) * 0x100_0000 + (s[i + 1] as u32) * 0x1_0000 + (s[i + 2] as u32) * 0x100 + (
    s[i + 3] as u32)
}

fn read_be64(s: &Vec<u8>, i: usize) -> (r: u64)
    requires
        i + 8 <= s@.len(),
        s@.len() <= usize::MAX,
    ensures
        r as int == be64(s@, i as int),
{
    let hi = read_be32(s, i);
    let lo = read_be32(s, i + 4);
    (hi as u64) * 0x1_0000_0000 + (lo as u64)
}

/// `end`, or the frame's length where the frame stops before it.
pub open spec fn cut_to(end: int, frame_len: int) -> int {
    if end < frame_len { end } else { frame_len }
}

/// The network-layer part of a frame: source and destination addresses, the
/// transport protocol number, where the transport header starts, and where the
/// IP packet ends. The end is the one the IP header's length field gives (for
/// IPv4 the total length, which must cover the header; for IPv6 the header and
/// the payload length), cut to the frame; bytes past it are link-layer padding.
pub open spec fn spec_network(frame: Seq<u8>) -> Option<(IpAddress, IpAddress, u8, int, int)> {
    if frame.len() < ETHERNET_HEADER_LEN {
        None
    } else {
        let ethertype = be16(frame, 12);
        let ip = ETHERNET_HEADER_LEN as int;
        if ethertype == ETHERTYPE_IPV4 {
            let ihl = (frame[ip] % 16) * 4;
            if frame.len() < ip + IPV4_MIN_HEADER_LEN || ihl < IPV4_MIN_HEADER_LEN || frame.len()
                < ip + ihl || be16(frame, ip + 2) < ihl {
                None
            } else {
                Some(
                    (
                        IpAddress::V4(be32(frame, ip + 12) as u32),
                        IpAddress::V4(be32(frame, ip + 16) as u32),
                        frame[ip + 9],
                        ip + ihl,
                        cut_to(ip + be16(frame, ip + 2), frame.len() as int),
                    ),
                )
            }
        } else if ethertype == ETHERTYPE_IPV6 {
            if frame.len() < ip + IPV6_HEADER_LEN {
                None
            } else {
                Some(
                    (
                        IpAddress::V6(be64(frame, ip + 8) as u64, be64(frame, ip + 16) as u64),
                        IpAddress::V6(be64(frame, ip + 24) as u64, be64(frame, ip + 32) as u64),
                        frame[ip + 6],
                        ip + IPV6_HEADER_LEN,
                        cut_to(ip + IPV6_HEADER_LEN + be16(frame, ip + 4), frame.len() as int),
                    ),
                )
            }
        } else {
            None
        }
    }
}

/// Whether `ip` is one of the interface's addresses.
pub open spec fn is_local(addresses: Seq<IpAddress>, ip: IpAddress) -> bool {
    addresses.contains(ip)
}

/// The segment that a frame carries, as seen from an interface with `addresses`:
/// Ethernet II, then IPv4 or IPv6, then TCP or UDP. The byte length counts the
/// transport header and its payload, up to the end of the IP packet; padding
/// after the packet is not counted.
pub open spec fn spec_parse(frame: Seq<u8>, addresses: Seq<IpAddress>) -> Option<Segment> {
    match spec_network(frame) {
        None => None,
        Some((src, dst, proto, t, end)) => {
            let protocol = if proto == IP_PROTOCOL_TCP {
                Some(Protocol::Tcp)
            } else if proto == IP_PROTOCOL_UDP {
                Some(Protocol::Udp)
            } else {
                None
            };
            let min_len = if proto == IP_PROTOCOL_TCP {
                TCP_MIN_HEADER_LEN as int
            } else {
                UDP_HEADER_LEN as int
            };
            if protocol.is_none() || end < t + min_len {
                None
            } else {
                let src_socket = Socket { ip: src, port: be16(frame, t) as u16 };
                let dst_socket = Socket { ip: dst, port: be16(frame, t + 2) as u16 };
                let outgoing = is_local(addresses, src);
                Some(
                    Segment {
                        protocol: protocol.unwrap(),
                        local_socket: if outgoing { src_socket } else { dst_socket },
                        remote_socket: if outgoing { dst_socket } else { src_socket },
                        direction: if outgoing { Direction::Outgoing } else { Direction::Incoming },
                        byte_length: (end - t) as u64,
                    },
                )
            }
        },
    }
}

fn contains_address(addresses: &Vec<IpAddress>, ip: IpAddress) -> (r: bool)
    ensures
        r == is_local(addresses@, ip),
{
    let mut i: usize = 0;
    while i < addresses.len()
        invariant
            i <= addresses@.len(),
            forall|j: int| 0 <= j < i ==> addresses@[j] != ip,
        decreases addresses@.len() - i,
    {
        if addresses[i] == ip {
            return true;
        }
        i = i + 1;
    }
    proof {
        assert(!addresses@.contains(ip));
    }
    false
}

fn parse_network(frame: &Vec<u8>) -> (r: Option<(IpAddress, IpAddress, u8, usize, usize)>)
    ensures
        match (r, spec_network(frame@)) {
            (None, None) => true,
            (Some((s, d, p, t, e)), Some((s2, d2, p2, t2, e2))) => s == s2 && d == d2 && p == p2
                && t == t2 && e == e2 && e <= frame@.len(),
            _ => false,
        },
{
    let n = frame.len();
    if n < ETHERNET_HEADER_LEN {
        return None;
    }
    let ethertype = read_be16(frame, 12);
    let ip: usize = ETHERNET_HEADER_LEN;
    if ethertype == ETHERTYPE_IPV4 {
        if frame.len() < ip + IPV4_MIN_HEADER_LEN {
            return None;
        }
        let ihl: usize = ((frame[ip] % 16) as usize) * 4;
        let total = read_be16(frame, ip + 2) as usize;
        if ihl < IPV4_MIN_HEADER_LEN || frame.len() < ip + ihl || total < ihl {
            return None;
        }
        let src = read_be32(frame, ip + 12);
        let dst = read_be32(frame, ip + 16);
        let end = if total < n - ip { ip + total } else { n };
        Some((IpAddress::V4(src), IpAddress::V4(dst), frame[ip + 9], ip + ihl, end))
    } else if ethertype == ETHERTYPE_IPV6 {
        if frame.len() < ip + IPV6_HEADER_LEN {
            return None;
        }
        let src = IpAddress::V6(read_be64(frame, ip + 8), read_be64(frame, ip + 16));
        let dst = IpAddress::V6(read_be64(frame, ip + 24), read_be64(frame, ip + 32));
        let payload = read_be16(frame, ip + 4) as usize;
        let end = if payload < n - ip - IPV6_HEADER_LEN {
            ip + IPV6_HEADER_LEN + payload
        } else {
            n
        };
        Some((src, dst, frame[ip + 6], ip + IPV6_HEADER_LEN, end))
    } else {
        None
    }
}

/// Decodes one raw frame into a segment, or `None` where the frame is not an
/// IPv4 or IPv6 packet carrying TCP or UDP (or is cut short). The byte length
/// is that of the transport header and payload, as the IP header bounds them. Direction is
/// `Outgoing` exactly when the source address is one of the interface's.
pub fn parse_frame(frame: &Vec<u8>, addresses: &Vec<IpAddress>) -> (r: Option<Segment>)
    requires
        frame@.len() <= u64::MAX,
    ensures
        r == spec_parse(frame@, addresses@),
{
    let n = frame.len();
    let (src, dst, proto, t, end) = match parse_network(frame) {
        None => return None,
        Some(n) => n,
    };
    let protocol = if proto == IP_PROTOCOL_TCP {
        if end < t || end - t < TCP_MIN_HEADER_LEN {
            return None;
        }
        Protocol::Tcp
    } else if proto == IP_PROTOCOL_UDP {
        if end < t || end - t < UDP_HEADER_LEN {
            return None;
        }
        Protocol::Udp
    } else {
        return None;
    };
    let src_socket = Socket { ip: src, port: read_be16(frame, t) };
    let dst_socket = Socket { ip: dst, port: read_be16(frame, t + 2) };
    let outgoing = contains_address(addresses, src);
    Some(
        Segment {
            protocol,
            local_socket: if outgoing { src_socket } else { dst_socket },
            remote_socket: if outgoing { dst_socket } else { src_socket },
            direction: if outgoing { Direction::Outgoing } else { Direction::Incoming },
            byte_length: (end - t) as u64,
        },
    )
}

/// A frame whose link-layer payload is neither IPv4 nor IPv6 (an ARP frame, say)
/// carries no segment.
pub proof fn lemma_non_ip_frame_has_no_segment(frame: Seq<u8>, addresses: Seq<IpAddress>)
    requires
        frame.len() < ETHERNET_HEADER_LEN || (be16(frame, 12) != ETHERTYPE_IPV4 && be16(frame, 12)
            != ETHERTYPE_IPV6),
    ensures
        spec_parse(frame, addresses).is_none(),
{
}

} // verus!
