//! The native datapath: its listeners, their health, their flows and who is
//! active.
pub mod api_model;
pub mod flow;
pub mod flow_persistence;
pub mod flow_table;
pub mod ha;
pub mod health;
pub mod model;
pub mod probe;
pub mod probe_io;
pub mod snapshot;
pub mod store;
pub mod xsync;
pub mod xsync_run;
pub mod xsync_session;
