//! Watching the peer of a gateway pair, and who becomes active when it fails.
pub mod election;
pub mod engine;
pub mod packet;
pub mod session;
