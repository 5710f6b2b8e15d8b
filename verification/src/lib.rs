//! Decision core of an edge load balancer: redirect admission and leases,
//! return-path ownership, flow persistence, gateway election and probing.
//!
//! Everything here works on plain values. Sockets, netlink, BPF maps and files
//! belong to the program around this library.
#![allow(unused_imports)]
pub mod access;
pub mod bench;
pub mod bfd;
pub mod bytes;
pub mod cli;
pub mod config;
pub mod default_route;
pub mod digest;
pub mod linux;
pub mod metrics;
pub mod native;
pub mod net;
pub mod nla;
pub mod order;
pub mod ranked_set;
pub mod redirect;
pub mod role;
pub mod table;
pub mod text;
