//! Verified core of the OpenLogi asset tooling: URL construction for the
//! asset host, SHA-256 hex digests and cache checks, sync planning over the
//! asset registry, the startup sync policy, and the button/action picker model.

pub mod text;
pub mod digest;
pub mod urls;
pub mod order;
pub mod registry;
pub mod policy;
pub mod popover;
pub mod bundle;
pub mod sync;
