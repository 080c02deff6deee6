//! Subnet planning for IPv4 and IPv6 networks.
//!
//! A network is a base address and a prefix length. The library parses a
//! network from text, describes it (netmask, broadcast address, host range,
//! address category), splits it into equal subnets under several sizing
//! policies, and lists the subnets of a split. A split can have up to 2^128
//! members, so the listing is bounded: a long split is shown by its first
//! subnets and its last few, each found by index arithmetic.

pub mod arith;
pub mod ipv4;
pub mod ipv6;
pub mod sampling;
pub mod text;
