//! Figures of a gateway in the Prometheus text format.
pub mod gateway;
pub mod host;
pub mod sample;
pub mod server;
