//! Server side of the DHCP lease protocol: wire codec, address pool, lease
//! table and the protocol state machine that ties them together.

pub mod ipv4;
pub mod codec;
pub mod pool;
pub mod lease;
pub mod engine;
pub mod icmp;
