//! Native redirect: observation of the kernel's forwarding state, conservative
//! admission and guarded publication of short leases.
//!
//! A destination lookup is no permission to bypass forwarding policy. An
//! observation authorizes a lease only after host and classifier admission.
pub mod admission;
pub mod error;
pub mod events;
pub mod kernel_policy;
pub mod maps;
pub mod message;
pub mod model;
pub mod netlink;
pub mod planner;
pub mod policy;
pub mod publication;
pub mod reconcile;
pub mod resolve;
pub mod return_admission;
pub mod return_planner;
pub mod stats;
pub mod status;
pub mod worker;
