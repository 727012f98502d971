//! The echo request sent by the conflict probe.

use vstd::prelude::*;

verus! {

pub const ICMP_ECHO_REQUEST: u8 = 8;

/// The internet checksum of `data`, the 16-bit word at `skipword` counted as
/// zero.
pub uninterp spec fn internet_checksum(data: Seq<u8>, skipword: usize) -> u16;

/// Relies on `pnet::util::checksum`: the ones'-complement checksum of the
/// big-endian words of `data`, skipping the word at `skipword`; zero for no
/// data. Its running sum is a `u32`, so the length is bounded.
#[verifier::external_body]
fn checksum(data: &[u8], skipword: usize) -> (r: u16)
    requires
        data@.len() <= 65536,
    ensures
        r == internet_checksum(data@, skipword),
        data@.len() == 0 ==> r == 0,
{
    pnet::util::checksum(data, skipword)
}

/// The eight bytes of an echo request with identifier and sequence number
/// zero, no payload, and checksum `c`.
pub open spec fn echo_request_bytes(c: u16) -> Seq<u8> {
    seq![ICMP_ECHO_REQUEST, 0u8, (c / 0x100) as u8, (c % 0x100) as u8, 0u8, 0u8, 0u8, 0u8]
}

/// The echo request carrying checksum `c`.
pub fn echo_request_with_checksum(c: u16) -> (r: Vec<u8>)
    ensures
        r@ == echo_request_bytes(c),
{
    let mut v: Vec<u8> = Vec::new();
    v.push(ICMP_ECHO_REQUEST);
    v.push(0u8);
    v.push((c / 0x100) as u8);
    v.push((c % 0x100) as u8);
    v.push(0u8);
    v.push(0u8);
    v.push(0u8);
    v.push(0u8);
    assert(v@ =~= echo_request_bytes(c));
    v
}

/// The echo request the probe sends, its checksum computed over the message
/// with the checksum field zero.
pub fn create_default_icmp_buffer() -> (r: Vec<u8>)
    ensures
        r@ == echo_request_bytes(internet_checksum(echo_request_bytes(0), 1)),
{
    let unsummed = echo_request_with_checksum(0);
    let c = checksum(unsummed.as_slice(), 1);
    echo_request_with_checksum(c)
}

} // verus!
