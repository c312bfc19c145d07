//! Builds and tears down virtual network topologies on a single Linux host.
//!
//! A declarative topology description (routers, switches, links, addresses)
//! is parsed into an in-memory graph with strict referential and uniqueness
//! invariants, and then compiled into an ordered plan of kernel actions
//! (namespace creation, veth pairs, bridges, renames, address assignment).
//! An unverified front end executes the plan against the kernel.

pub mod addr;
pub mod devices;
pub mod doc;
pub mod engine;
pub mod errors;
pub mod model;
pub mod names;
pub mod order;
pub mod plan;
pub mod plugins;
pub mod topology;
pub mod util;
pub mod yaml;

pub use errors::ConfigError;
pub use errors::Error;
pub use errors::LinkError;
pub use errors::NamespaceError;
