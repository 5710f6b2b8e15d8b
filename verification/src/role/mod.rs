//! What a node does in its role.
pub mod backend;
pub mod backend_watch;
pub mod gateway;
pub mod gateway_loop;
pub mod mirror;
pub mod vxlan;
