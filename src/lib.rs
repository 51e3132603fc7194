//! Tako: a trust-minimised update agent for signed image versions.
//!
//! The library holds the trust-and-version engine: version ordering and
//! collision detection, signed manifests, key decoding, the fetch decision
//! machine and the publish plan for a server directory.

pub mod cli;
pub mod config;
pub mod error;
pub mod fetch;
pub mod backend;
pub mod keys;
pub mod layout;
pub mod manifest;
pub mod store;
pub mod version;
