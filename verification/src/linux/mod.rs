//! Kernel objects of a node: policy routes, return paths and traffic filters.
pub mod conflict;
pub mod return_path;
pub mod route;
pub mod tc;
