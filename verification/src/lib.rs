//! Core of a content-aggregation server: an extension host that loads,
//! unloads and upgrades provider modules behind a version/ABI gate, a
//! catalog that computes update availability, and a cache orchestrator
//! that decides, for every read path, whether cached data is usable or
//! must be refreshed from a provider.

pub mod catalog;
pub mod errors;
pub mod media;
pub mod registry;
pub mod service;
pub mod store;
pub mod version;

pub use version::Version;
