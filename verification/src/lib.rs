//! Parsing of IPv4 addresses in CIDR notation (`"a.b.c.d/p"`) and the
//! subnet arithmetic they imply: subnet mask, network address, and
//! broadcast address.

pub mod ipv4;
pub mod text;
