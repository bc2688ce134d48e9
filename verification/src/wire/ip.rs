//! Internet-layer value types shared by the wire codecs and the sockets,
//! and the RFC 1071 internet checksum.

use vstd::prelude::*;

verus! {

/// An IPv4 address, as its four dotted-quad octets.
#[derive(Debug, Clone, Copy, PartialEq, Eq, Structural)]
pub struct Ipv4Address(pub u8, pub u8, pub u8, pub u8);

/// An IPv6 address, as its sixteen octets packed big-endian into two words:
/// `hi` holds octets 0..8, `lo` holds octets 8..16.
#[derive(Debug, Clone, Copy, PartialEq, Eq, Structural)]
pub struct Ipv6Address {
    pub hi: u64,
    pub lo: u64,
}

/// An internet address of either family.
#[derive(Debug, Clone, Copy, PartialEq, Eq, Structural)]
pub enum IpAddress {
    Ipv4(Ipv4Address),
    Ipv6(Ipv6Address),
}

pub open spec fn spec_is_unspecified(a: IpAddress) -> bool {
    match a {
        IpAddress::Ipv4(v) => v.0 == 0 && v.1 == 0 && v.2 == 0 && v.3 == 0,
        IpAddress::Ipv6(v) => v.hi == 0 && v.lo == 0,
    }
}

impl IpAddress {
    /// Whether the address is all zeroes. Such an address cannot name a
    /// resolver; a query that reaches one fails.
    pub fn is_unspecified(&self) -> (r: bool)
        ensures
            r == spec_is_unspecified(*self),
    {
        match self {
            IpAddress::Ipv4(v) => v.0 == 0 && v.1 == 0 && v.2 == 0 && v.3 == 0,
            IpAddress::Ipv6(v) => v.hi == 0 && v.lo == 0,
        }
    }
}

/// The transport protocols the stack excerpt speaks.
#[derive(Debug, Clone, Copy, PartialEq, Eq, Structural)]
pub enum IpProtocol {
    Icmp,
    Udp,
}

/// What the network layer needs to frame one datagram.
#[derive(Debug, Clone, Copy, PartialEq, Eq, Structural)]
pub struct IpRepr {
    pub src_addr: IpAddress,
    pub dst_addr: IpAddress,
    pub protocol: IpProtocol,
    pub payload_len: usize,
    pub hop_limit: u8,
}

impl IpRepr {
    pub fn new(
        src_addr: IpAddress,
        dst_addr: IpAddress,
        protocol: IpProtocol,
        payload_len: usize,
        hop_limit: u8,
    ) -> (r: IpRepr)
        ensures
            r == (IpRepr { src_addr, dst_addr, protocol, payload_len, hop_limit }),
    {
        IpRepr { src_addr, dst_addr, protocol, payload_len, hop_limit }
    }

    pub fn src_addr(&self) -> (r: IpAddress)
        ensures
            r == self.src_addr,
    {
        self.src_addr
    }

    pub fn dst_addr(&self) -> (r: IpAddress)
        ensures
            r == self.dst_addr,
    {
        self.dst_addr
    }
}

/// A UDP header, reduced to what the DNS socket reads and writes.
#[derive(Debug, Clone, Copy, PartialEq, Eq, Structural)]
pub struct UdpRepr {
    pub src_port: u16,
    pub dst_port: u16,
}

impl UdpRepr {
    /// The UDP header is always eight octets.
    pub fn header_len(&self) -> (r: usize)
        ensures
            r == 8,
    {
        8
    }
}

/// The 16-bit big-endian word starting at even offset `i`, with a lone
/// trailing octet padded on the right with zero, and the word at offset
/// `skip` (the checksum field itself) read as zero.
pub open spec fn checksum_words(data: Seq<u8>, i: int, skip: int) -> int
    decreases data.len() + 2 - i,
{
    if i < 0 || i >= data.len() {
        0
    } else if i == skip {
        checksum_words(data, i + 2, skip)
    } else if i + 1 < data.len() {
        data[i] * 256 + data[i + 1] + checksum_words(data, i + 2, skip)
    } else {
        data[i] * 256 + checksum_words(data, i + 2, skip)
    }
}

/// One step of end-around carry folding.
pub open spec fn fold_carry(s: int) -> int {
    s % 65536 + s / 65536
}

/// The RFC 1071 internet checksum of `data`, with the 16-bit field at byte
/// offset `skipword` treated as zero.
pub open spec fn spec_rfc1071_checksum(skipword: int, data: Seq<u8>) -> int {
    65535 - fold_carry(fold_carry(fold_carry(checksum_words(data, 0, skipword))))
}

/// Compute the RFC 1071 internet checksum over `data`, skipping the
/// checksum field at byte offset `skipword`.
pub fn rfc1071_checksum(skipword: usize, data: &[u8]) -> (r: u16)
    requires
        data@.len() <= 65536,
    ensures
        r == spec_rfc1071_checksum(skipword as int, data@),
{
    let n = data.len();
    let mut sum: u64 = 0;
    let mut i: usize = 0;
    while i < n
        invariant
            data@.len() == n <= 65536,
            i <= n + 1,
            i % 2 == 0,
            0 <= sum <= 65535 * ((i / 2) as int),
            checksum_words(data@, 0, skipword as int) == sum + checksum_words(
                data@,
                i as int,
                skipword as int,
            ),
        decreases n + 2 - i,
    {
        if i == skipword {
        } else if i + 1 < n {
            sum = sum + (data[i] as u64) * 256 + (data[i + 1] as u64);
        } else {
            sum = sum + (data[i] as u64) * 256;
        }
        i = i + 2;
    }
    assert(sum <= 65535 * 32768);
    let f1: u64 = sum % 65536 + sum / 65536;
    let f2: u64 = f1 % 65536 + f1 / 65536;
    let f3: u64 = f2 % 65536 + f2 / 65536;
    assert(f3 <= 65535);
    (65535 - f3) as u16
}

} // verus!
