//! A minimal deterministic agent runtime kernel for edge devices. Business code
//! builds a `Kernel`, registers its plugins and a `HostBridge` for real hardware
//! capabilities, pushes `Event`s and drains outcomes.
//!
//! Security and the loop are pinned in the kernel: memory has a budget, execution
//! has a breaker, and devices have locks. Everything else is a plugin, native or
//! wasm, that can be replaced.

pub mod breaker;
pub mod config;
pub mod context;
pub mod event;
pub mod inference;
pub mod json;
pub mod kernel;
pub mod lock;
pub mod names;
pub mod plugin;
pub mod record;
pub mod text;

pub use config::Config;
pub use event::Event;
pub use inference::{ImagePart, InferenceBackend, UserInput};
pub use kernel::builder::KernelBuilder;
pub use kernel::driver::Kernel;
pub use kernel::state::TaskOutcome;
pub use plugin::abi::{PluginInput, PluginOutput};
pub use plugin::native::{NativePlugin, NativeRegistry};
pub use plugin::runtime::HostBridge;
