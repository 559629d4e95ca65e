//! Network addresses as they stand in `version` and `addr` messages.

use crate::codec::{
    be_u16_at, read_bytes, read_u16_be, read_u32_le, read_u64_le, reads, scan_bytes, scan_u16_be,
    scan_u32_le, scan_u64_le, Scan,
};
use vstd::prelude::*;

verus! {

/// The service bits that a node advertises.
#[derive(Debug, Clone, Copy, PartialEq, Eq, Structural)]
pub struct Services {
    pub bits: u64,
}

impl View for Services {
    type V = Services;

    open spec fn view(&self) -> Services {
        *self
    }
}

impl From<u64> for Services {
    fn from(bits: u64) -> (r: Services) {
        Services { bits }
    }
}

impl vstd::std_specs::convert::FromSpecImpl<u64> for Services {
    open spec fn obeys_from_spec() -> bool {
        true
    }

    open spec fn from_spec(bits: u64) -> Services {
        Services { bits }
    }
}

/// An IPv6 address as its eight 16-bit groups, the first group first. An
/// IPv4 peer appears as `::ffff:a.b.c.d`: five zero groups, `0xffff`, and the
/// four bytes in the last two groups.
#[derive(Debug, Clone, Copy, PartialEq, Eq, Structural)]
pub struct Ipv6Address {
    pub a: u16,
    pub b: u16,
    pub c: u16,
    pub d: u16,
    pub e: u16,
    pub f: u16,
    pub g: u16,
    pub h: u16,
}

impl View for Ipv6Address {
    type V = Ipv6Address;

    open spec fn view(&self) -> Ipv6Address {
        *self
    }
}

impl Ipv6Address {
    /// The eight groups, the first group first.
    pub fn segments(&self) -> (r: [u16; 8])
        ensures
            r@ == seq![self.a, self.b, self.c, self.d, self.e, self.f, self.g, self.h],
    {
        let r = [self.a, self.b, self.c, self.d, self.e, self.f, self.g, self.h];
        assert(r@ =~= seq![self.a, self.b, self.c, self.d, self.e, self.f, self.g, self.h]);
        r
    }
}

/// A peer's address: when it was last seen (absent in `version` messages),
/// its services, its IPv6 address and its port.
#[derive(Debug, Clone, Copy, PartialEq, Eq)]
pub struct NetAddr {
    pub time: Option<u32>,
    pub services: Services,
    pub ip: Ipv6Address,
    pub port: u16,
}

impl View for NetAddr {
    type V = NetAddr;

    open spec fn view(&self) -> NetAddr {
        *self
    }
}

/// The address that the sixteen bytes at `at` spell, two bytes to a group,
/// the high byte first.
pub open spec fn ipv6_of(s: Seq<u8>, at: int) -> Ipv6Address {
    Ipv6Address {
        a: be_u16_at(s, at),
        b: be_u16_at(s, at + 2),
        c: be_u16_at(s, at + 4),
        d: be_u16_at(s, at + 6),
        e: be_u16_at(s, at + 8),
        f: be_u16_at(s, at + 10),
        g: be_u16_at(s, at + 12),
        h: be_u16_at(s, at + 14),
    }
}

/// A 128-bit address: one field of sixteen bytes.
pub open spec fn ipv6_at(s: Seq<u8>, at: int) -> Scan<Ipv6Address> {
    match scan_bytes(s, at, 16) {
        Scan::Short { missing } => Scan::Short { missing },
        Scan::Item { value, next } => Scan::Item { value: ipv6_of(s, at), next },
    }
}

/// An address without the time: services, address, big-endian port.
pub open spec fn version_net_addr_at(s: Seq<u8>, at: int) -> Scan<NetAddr> {
    match scan_u64_le(s, at) {
        Scan::Short { missing } => Scan::Short { missing },
        Scan::Item { value: bits, next: a1 } => match ipv6_at(s, a1) {
            Scan::Short { missing } => Scan::Short { missing },
            Scan::Item { value: ip, next: a2 } => match scan_u16_be(s, a2) {
                Scan::Short { missing } => Scan::Short { missing },
                Scan::Item { value: port, next: a3 } => Scan::Item {
                    value: NetAddr { time: None, services: Services { bits }, ip, port },
                    next: a3,
                },
            },
        },
    }
}

/// An address with the time it was last seen in front.
pub open spec fn net_addr_at(s: Seq<u8>, at: int) -> Scan<NetAddr> {
    match scan_u32_le(s, at) {
        Scan::Short { missing } => Scan::Short { missing },
        Scan::Item { value: time, next: a1 } => match version_net_addr_at(s, a1) {
            Scan::Short { missing } => Scan::Short { missing },
            Scan::Item { value, next } => Scan::Item {
                value: NetAddr {
                    time: Some(time),
                    services: value.services,
                    ip: value.ip,
                    port: value.port,
                },
                next,
            },
        },
    }
}

/// The reader of one address with its time, as a value.
pub open spec fn net_addr_item() -> spec_fn(Seq<u8>, int) -> Scan<NetAddr> {
    |s: Seq<u8>, at: int| net_addr_at(s, at)
}

/// Reads a 128-bit address.
pub fn read_ipv6(data: &[u8], at: usize) -> (r: Result<(Ipv6Address, usize), u64>)
    requires
        at <= data@.len(),
    ensures
        reads(r, ipv6_at(data@, at as int)),
        r matches Ok(got) ==> got.1 <= data@.len(),
{
    let (_, next) = read_bytes(data, at, 16)?;
    let (a, _) = read_u16_be(data, at)?;
    let (b, _) = read_u16_be(data, at + 2)?;
    let (c, _) = read_u16_be(data, at + 4)?;
    let (d, _) = read_u16_be(data, at + 6)?;
    let (e, _) = read_u16_be(data, at + 8)?;
    let (f, _) = read_u16_be(data, at + 10)?;
    let (g, _) = read_u16_be(data, at + 12)?;
    let (h, _) = read_u16_be(data, at + 14)?;
    Ok((Ipv6Address { a, b, c, d, e, f, g, h }, next))
}

/// Reads an address without the time.
pub fn read_version_net_addr(data: &[u8], at: usize) -> (r: Result<(NetAddr, usize), u64>)
    requires
        at <= data@.len(),
    ensures
        reads(r, version_net_addr_at(data@, at as int)),
        r matches Ok(got) ==> got.1 <= data@.len(),
{
    let (bits, a1) = read_u64_le(data, at)?;
    let (ip, a2) = read_ipv6(data, a1)?;
    let (port, a3) = read_u16_be(data, a2)?;
    Ok((NetAddr { time: None, services: Services::from(bits), ip, port }, a3))
}

/// Reads an address with the time in front.
pub fn read_net_addr(data: &[u8], at: usize) -> (r: Result<(NetAddr, usize), u64>)
    requires
        at <= data@.len(),
    ensures
        reads(r, net_addr_at(data@, at as int)),
        r matches Ok(got) ==> got.1 <= data@.len(),
{
    let (time, a1) = read_u32_le(data, at)?;
    let (addr, a2) = read_version_net_addr(data, a1)?;
    Ok((NetAddr { time: Some(time), services: addr.services, ip: addr.ip, port: addr.port }, a2))
}

} // verus!
