//! The link layer: hardware addresses and Ethernet II frames.

pub mod ether;
pub mod eui;

pub use ether::{Frame as EthernetFrame, Type as EthernetProtocol};
pub use eui::{Eui48, Eui48ParseError};
