//! The network layer and above: IPv6 addresses and packets, ICMPv6.

pub mod icmp;
pub mod icmp_writer;
pub mod ip;
pub mod ip_round_trip;
pub mod ip_text;

pub use icmp::{EchoRequest, Packet as IcmpPacket, Type as IcmpType};
pub use icmp_writer::Buffer as IcmpWriter;
pub use ip::{
    Address as IpAddress, InvalidSubnet, Packet as IpPacket, Protocol as IpProtocol, Subnet,
};
pub use ip_text::ParseAddressError;
