//! Deployment reconciliation and remote command bridge for containerized
//! application instances: resolving a compatible workload image, discovering
//! managed resources by a two-level compatibility contract, deriving engine
//! configuration for create/update/remove, and parsing the output of the
//! fixed remote scripts that manage per-instance invites.
//!
//! The library holds every decision and every piece of parsing; the network
//! and terminal work around it hands in plain values and takes plain values
//! back.
pub mod app;
pub mod cli;
pub mod docker;
pub mod error;
pub mod inquire;
pub mod invites;
pub mod labels;
pub mod mayo;
pub mod parameters;
pub mod pull;
pub mod registry;
pub mod server;
pub mod text;
pub mod versioning;
