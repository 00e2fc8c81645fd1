//! Header backup planning for encrypted volumes: discovery of volumes from a
//! device listing, content-addressed artifact naming, and replication of the
//! artifacts to local and remote destinations with per-destination outcomes.
//!
//! The library decides and computes; running tools and touching the file
//! system is left to the caller, who hands the results back as plain values.

pub mod text;
pub mod volume;
pub mod discovery;
pub mod command;
pub mod naming;
pub mod artifact;
pub mod replicate;
pub mod order;
pub mod run;

