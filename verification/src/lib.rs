//! A passive observer of DNS traffic.
//!
//! Raw link-layer frames are decoded as Ethernet, IPv4 and UDP; payloads
//! addressed to the DNS port are walked for their question section, and each
//! queried domain name is appended to a shared, append-only registry that a
//! consumer can snapshot at any time.

pub mod dns;
pub mod frame;
pub mod home;
pub mod registry;
pub mod sniff;
