//! Plugins: the envelope they speak, how packages are signed and chosen, and
//! the two forms in which they run.

pub mod abi;
pub mod bridge;
pub mod crypto;
pub mod host;
pub mod manifest;
pub mod native;
pub mod registry;
pub mod runtime;
pub mod warden;
