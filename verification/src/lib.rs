//! Boot-time network configuration synthesis core.
//!
//! The crate reconciles network state from three sources — a static
//! configuration document, an optional DHCP lease, and the live status
//! reported by the network-management daemon — into the resolver
//! configuration and the kernel sysctl overrides the rest of the system
//! depends on.  File and process I/O stay outside: every function here is
//! a pure computation on plain values, with its behaviour stated in its
//! contract.

pub mod dns;
pub mod ecs;
pub mod errors;
pub mod interface_name;
pub mod ip;
pub mod json_ext;
pub mod monitor;
pub mod networkd_status;
pub mod strutil;
pub mod sysctl;
pub mod toml_ext;
