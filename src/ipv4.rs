//! IPv4 addresses and hardware addresses as plain integers, their big-endian
//! byte forms, and the server's network range.

use vstd::prelude::*;

verus! {

/// The four big-endian bytes of a 32-bit value.
pub open spec fn be32_bytes(x: u32) -> Seq<u8> {
    seq![
        (x / 0x1000000) as u8,
        ((x / 0x10000) % 0x100) as u8,
        ((x / 0x100) % 0x100) as u8,
        (x % 0x100) as u8,
    ]
}

/// The value of four big-endian bytes.
pub open spec fn be32_value(b: Seq<u8>) -> int
    recommends
        b.len() == 4,
{
    b[0] * 0x1000000 + b[1] * 0x10000 + b[2] * 0x100 + b[3]
}

/// The two big-endian bytes of a 16-bit value.
pub open spec fn be16_bytes(x: u16) -> Seq<u8> {
    seq![(x / 0x100) as u8, (x % 0x100) as u8]
}

/// The value of two big-endian bytes.
pub open spec fn be16_value(b: Seq<u8>) -> int
    recommends
        b.len() == 2,
{
    b[0] * 0x100 + b[1]
}

/// Largest value of a six-byte hardware address.
pub const MAC_LIMIT: u64 = 0x1000000000000;

/// The six big-endian bytes of a hardware address.
pub open spec fn mac_bytes(m: u64) -> Seq<u8> {
    seq![
        ((m / 0x10000000000) % 0x100) as u8,
        ((m / 0x100000000) % 0x100) as u8,
        ((m / 0x1000000) % 0x100) as u8,
        ((m / 0x10000) % 0x100) as u8,
        ((m / 0x100) % 0x100) as u8,
        (m % 0x100) as u8,
    ]
}

/// The value of six big-endian bytes of a hardware address.
pub open spec fn mac_value(b: Seq<u8>) -> int
    recommends
        b.len() == 6,
{
    b[0] * 0x10000000000 + b[1] * 0x100000000 + b[2] * 0x1000000 + b[3] * 0x10000 + b[4]
        * 0x100 + b[5]
}

/// Reads four bytes as an IPv4 address; `None` unless there are exactly four.
pub fn u8_to_ipv4addr(buf: &[u8]) -> (r: Option<u32>)
    ensures
        buf@.len() == 4 ==> r == Some(be32_value(buf@) as u32),
        buf@.len() != 4 ==> r.is_none(),
{
    if buf.len() == 4 {
        let v: u32 = (buf[0] as u32) * 0x1000000 + (buf[1] as u32) * 0x10000 + (buf[2] as u32)
            * 0x100 + (buf[3] as u32);
        Some(v)
    } else {
        None
    }
}

/// The big-endian bytes of a 32-bit value, such as a lease time or an address.
pub fn make_big_endian_vec_from_u32(i: u32) -> (r: Vec<u8>)
    ensures
        r@ == be32_bytes(i),
{
    let mut v: Vec<u8> = Vec::new();
    v.push((i / 0x1000000) as u8);
    v.push(((i / 0x10000) % 0x100) as u8);
    v.push(((i / 0x100) % 0x100) as u8);
    v.push((i % 0x100) as u8);
    assert(v@ =~= be32_bytes(i));
    v
}

/// An address range `network ..= broadcast`: the network address, every host
/// address, and the broadcast address.
#[derive(Clone, Copy, Debug, PartialEq, Eq, Structural)]
pub struct Ipv4Net {
    pub network: u32,
    pub broadcast: u32,
}

impl Ipv4Net {
    pub open spec fn wf(&self) -> bool {
        self.network <= self.broadcast
    }

    pub open spec fn spec_contains(&self, ip: u32) -> bool {
        self.network <= ip && ip <= self.broadcast
    }

    /// The range from `network` to `broadcast`; `None` when they are out of order.
    pub fn new(network: u32, broadcast: u32) -> (r: Option<Ipv4Net>)
        ensures
            network <= broadcast ==> r == Some(Ipv4Net { network, broadcast }),
            network > broadcast ==> r.is_none(),
    {
        if network <= broadcast {
            Some(Ipv4Net { network, broadcast })
        } else {
            None
        }
    }

    /// Whether `ip` lies in the range.
    pub fn contains(&self, ip: u32) -> (r: bool)
        ensures
            r == self.spec_contains(ip),
    {
        self.network <= ip && ip <= self.broadcast
    }
}

} // verus!
