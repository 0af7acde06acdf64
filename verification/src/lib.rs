//! In-place views over raw network buffers for a small Ethernet / IPv6 /
//! ICMPv6 stack, the address types those layers use, and an encoder that can
//! emit one message across several output buffers.

pub mod bytes;
pub mod link;
pub mod text;
pub mod net;
pub mod packet_write;
