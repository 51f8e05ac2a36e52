//! Socket addresses and the synthetic mapped-address space.
//!
//! The upper QUIC transport needs a stable socket address per peer even
//! though the concrete path to a peer changes.  Each peer is therefore
//! assigned, on first sighting, a synthetic IPv6 address drawn from a
//! deterministic unique-local prefix; that address never leaves the
//! process.  Relay traffic likewise gets a synthetic arrival address: a
//! well-known sentinel IP paired with the relay region id as the port.

use vstd::prelude::*;

verus! {

/// An IP address: IPv4 as its 32-bit value, IPv6 as its 128-bit value,
/// both in network (big-endian) integer form.
#[derive(Clone, Copy, PartialEq, Eq, Structural, Debug)]
pub enum IpAddr {
    V4(u32),
    V6(u128),
}

impl IpAddr {
    /// True of every IPv6 address.
    pub open spec fn spec_is_v6(self) -> bool {
        matches!(self, IpAddr::V6(_))
    }

    pub fn is_v6(&self) -> (r: bool)
        ensures
            r == self.spec_is_v6(),
    {
        match self {
            IpAddr::V4(_) => false,
            IpAddr::V6(_) => true,
        }
    }

    /// Whether this is the unspecified (all-zero) address of its
    /// family.
    pub open spec fn spec_is_unspecified(self) -> bool {
        self == IpAddr::V4(0u32) || self == IpAddr::V6(0u128)
    }

    pub fn is_unspecified(&self) -> (r: bool)
        ensures
            r == self.spec_is_unspecified(),
    {
        match self {
            IpAddr::V4(v) => *v == 0,
            IpAddr::V6(v) => *v == 0,
        }
    }

    /// The IPv4-mapped IPv6 form of an IPv4 address; an IPv6 address is
    /// left as it is.
    pub open spec fn spec_to_v6_mapped(self) -> IpAddr {
        match self {
            IpAddr::V4(v) => IpAddr::V6((0xffff_0000_0000u128 + v) as u128),
            IpAddr::V6(_) => self,
        }
    }

    pub fn to_v6_mapped(&self) -> (r: IpAddr)
        ensures
            r == self.spec_to_v6_mapped(),
            r.spec_is_v6(),
    {
        match self {
            IpAddr::V4(v) => IpAddr::V6(0xffff_0000_0000u128 + (*v as u128)),
            IpAddr::V6(v) => IpAddr::V6(*v),
        }
    }
}

/// A socket address over [`IpAddr`].
#[derive(Clone, Copy, PartialEq, Eq, Structural, Debug)]
pub struct SockAddr {
    pub ip: IpAddr,
    pub port: u16,
}

/// The sentinel IPv4 address (127.3.3.40) that marks relay traffic; the
/// port of such an address is the relay region id.
pub const DERP_MAGIC_IPV4: u32 = 0x7f03_0328;

impl SockAddr {
    pub fn new(ip: IpAddr, port: u16) -> (r: SockAddr)
        ensures
            r.ip == ip,
            r.port == port,
    {
        SockAddr { ip, port }
    }

    /// A synthetic relay arrival address for the given region.
    pub open spec fn spec_derp_addr(region: u16) -> SockAddr {
        SockAddr { ip: IpAddr::V4(DERP_MAGIC_IPV4), port: region }
    }

    pub fn derp_addr(region: u16) -> (r: SockAddr)
        ensures
            r == SockAddr::spec_derp_addr(region),
    {
        SockAddr { ip: IpAddr::V4(DERP_MAGIC_IPV4), port: region }
    }

    /// Whether this address is a synthetic relay address.
    pub open spec fn spec_is_derp(self) -> bool {
        self.ip == IpAddr::V4(DERP_MAGIC_IPV4)
    }

    pub fn is_derp(&self) -> (r: bool)
        ensures
            r == self.spec_is_derp(),
    {
        match self.ip {
            IpAddr::V4(v) => v == DERP_MAGIC_IPV4,
            IpAddr::V6(_) => false,
        }
    }
}

/// The high 64 bits of every mapped address: prefix byte 0xfd, five
/// global-id bytes 21, 7, 10, 81, 11, and two zero subnet bytes, per the
/// RFC 4193 unique-local shape.
pub const MAPPED_ADDR_HI: u64 = 0xfd15_070a_510b_0000;

/// The fixed port that every mapped address carries.
pub const MAPPED_ADDR_PORT: u16 = 12345;

/// The synthetic address used by the QUIC layer to address a peer.
///
/// No more than a lookup key: the coordinator can reach a peer through
/// several real socket addresses or through the relay, while the QUIC
/// layer above needs one stable address per peer.  Each peer is given one
/// of these when it is first seen, built from a counter that is never
/// reused, so mapped addresses are pairwise distinct.
#[derive(Clone, Copy, PartialEq, Eq, Structural, Debug)]
pub struct QuicMappedAddr(pub SockAddr);

impl QuicMappedAddr {
    /// The IPv6 value of the mapped address built from `counter`: the
    /// constant prefix in the high 64 bits, the counter in the low 64.
    pub open spec fn spec_ip(counter: u64) -> u128 {
        ((MAPPED_ADDR_HI as u128) * 0x1_0000_0000_0000_0000 + counter) as u128
    }

    /// The mapped address built from `counter`.
    pub open spec fn spec_generate(counter: u64) -> QuicMappedAddr {
        QuicMappedAddr(
            SockAddr { ip: IpAddr::V6(QuicMappedAddr::spec_ip(counter)), port: MAPPED_ADDR_PORT },
        )
    }

    /// Builds the unique mapped address carrying `counter`.
    pub fn generate(counter: u64) -> (r: QuicMappedAddr)
        ensures
            r == QuicMappedAddr::spec_generate(counter),
    {
        let ip: u128 = (MAPPED_ADDR_HI as u128) * 0x1_0000_0000_0000_0000 + (counter as u128);
        QuicMappedAddr(SockAddr { ip: IpAddr::V6(ip), port: MAPPED_ADDR_PORT })
    }

    /// Whether a socket address lies in the mapped-address space.
    pub open spec fn spec_is_mapped(addr: SockAddr) -> bool {
        &&& addr.port == MAPPED_ADDR_PORT
        &&& match addr.ip {
            IpAddr::V4(_) => false,
            IpAddr::V6(v) => v / 0x1_0000_0000_0000_0000 == MAPPED_ADDR_HI,
        }
    }

    pub fn is_mapped(addr: &SockAddr) -> (r: bool)
        ensures
            r == QuicMappedAddr::spec_is_mapped(*addr),
    {
        if addr.port != MAPPED_ADDR_PORT {
            return false;
        }
        match addr.ip {
            IpAddr::V4(_) => false,
            IpAddr::V6(v) => v / 0x1_0000_0000_0000_0000 == (MAPPED_ADDR_HI as u128),
        }
    }

    /// The counter a mapped address was built from.
    pub open spec fn spec_counter(self) -> u128 {
        match self.0.ip {
            IpAddr::V4(_) => 0,
            IpAddr::V6(v) => v % 0x1_0000_0000_0000_0000,
        }
    }
}

/// Two mapped addresses built from distinct counters are distinct, and
/// each one lies in the mapped-address space.
pub proof fn lemma_mapped_addr_injective(c1: u64, c2: u64)
    ensures
        c1 != c2 ==> QuicMappedAddr::spec_generate(c1) != QuicMappedAddr::spec_generate(c2),
        QuicMappedAddr::spec_is_mapped(QuicMappedAddr::spec_generate(c1).0),
        QuicMappedAddr::spec_generate(c1).spec_counter() == c1,
{
    let v1 = (MAPPED_ADDR_HI as u128) * 0x1_0000_0000_0000_0000 + c1;
    let v2 = (MAPPED_ADDR_HI as u128) * 0x1_0000_0000_0000_0000 + c2;
    assert(v1 < 0x1_0000_0000_0000_0000_0000_0000_0000_0000);
    assert(v2 < 0x1_0000_0000_0000_0000_0000_0000_0000_0000);
    assert(QuicMappedAddr::spec_ip(c1) == v1);
    assert(QuicMappedAddr::spec_ip(c2) == v2);
    assert((v1 as u128) / 0x1_0000_0000_0000_0000 == MAPPED_ADDR_HI) by (nonlinear_arith)
        requires v1 == (MAPPED_ADDR_HI as u128) * 0x1_0000_0000_0000_0000 + c1 && c1 < 0x1_0000_0000_0000_0000;
    assert((v1 as u128) % 0x1_0000_0000_0000_0000 == c1) by (nonlinear_arith)
        requires v1 == (MAPPED_ADDR_HI as u128) * 0x1_0000_0000_0000_0000 + c1 && c1 < 0x1_0000_0000_0000_0000;
    assert((v2 as u128) % 0x1_0000_0000_0000_0000 == c2) by (nonlinear_arith)
        requires v2 == (MAPPED_ADDR_HI as u128) * 0x1_0000_0000_0000_0000 + c2 && c2 < 0x1_0000_0000_0000_0000;
}

} // verus!
