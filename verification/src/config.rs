//! Kernel configuration. All limits are explicit budgets.

use vstd::prelude::*;

verus! {

#[derive(Debug)]
pub struct Config {
    /// Max bytes of conversation context kept in memory (hard cap, oldest dropped).
    pub context_max_bytes: usize,
    /// Max model-format retries before the circuit breaker trips for a task.
    pub max_format_retries: u32,
    /// Consecutive task failures before the kernel enters fallback-only mode.
    pub breaker_max_failures: u32,
    /// Identical consecutive actions treated as a dead loop.
    pub breaker_max_repeats: u32,
    /// Wasm fuel budget per plugin invocation (execution-time quota).
    pub plugin_fuel: u64,
    /// Wasm linear memory cap per plugin instance, in bytes.
    pub plugin_memory_limit: usize,
    /// Consecutive plugin failures before it is disabled and rolled back.
    pub plugin_max_failures: u32,
    /// Directory scanned for plugin packages: <dir>/<name>/<version>/.
    pub plugins_dir: String,
    /// Hex-encoded ed25519 public key used to verify plugin signatures.
    pub trusted_pubkey: Option<String>,
    /// Optional plugin that repairs malformed model output before the
    /// kernel's own strict validation (which always has the final say).
    pub repair_plugin: Option<String>,
    /// DEV ONLY: load unsigned plugins. Zero-trust default is off.
    pub dev_allow_unsigned: bool,
    pub backend: BackendConfig,
}

#[derive(Debug)]
pub enum BackendConfig {
    /// Deterministic echo backend, useful without any model installed.
    Mock,
    /// Any local/LAN service speaking the OpenAI chat-completions protocol.
    /// Multimodal (text+image) via standard `image_url` content parts.
    Openai { url: String, model: String, api_key: Option<String> },
    /// On-device inference via Google AI Edge's LiteRT-LM runtime, driven
    /// through the `litert_lm_main` CLI (or a flag-compatible wrapper).
    LitertLm {
        /// Path to the litert_lm_main executable.
        binary: String,
        /// Path to the .litertlm / .task model bundle.
        model_path: String,
        /// Maps to litert_lm's `--backend` flag: "cpu" | "gpu" | "npu".
        accelerator: Option<String>,
        /// Flag used to pass image files (e.g. "--image_path"). Without it,
        /// image inputs are rejected with a clear error, never dropped.
        image_arg: Option<String>,
        /// Extra flags appended verbatim.
        extra_args: Vec<String>,
    },
    /// Inference delegated to a plugin: model access is just another
    /// replaceable runtime part. The plugin reaches its engine through
    /// `host_call` capabilities (net, vendor NPU bridge, ...).
    Plugin { name: String },
}

impl Default for Config {
    fn default() -> (r: Self)
        ensures
            r.context_max_bytes == 65536,
            r.max_format_retries == 2,
            r.breaker_max_failures == 3,
            r.breaker_max_repeats == 3,
            r.plugin_fuel == 50_000_000,
            r.plugin_memory_limit == 16_777_216,
            r.plugin_max_failures == 3,
            r.plugins_dir@ == "plugins"@,
            r.trusted_pubkey is None,
            r.repair_plugin is None,
            !r.dev_allow_unsigned,
            r.backend is Mock,
    {
        Config {
            context_max_bytes: 64 * 1024,
            max_format_retries: 2,
            breaker_max_failures: 3,
            breaker_max_repeats: 3,
            plugin_fuel: 50_000_000,
            plugin_memory_limit: 16 * 1024 * 1024,
            plugin_max_failures: 3,
            plugins_dir: "plugins".to_string(),
            trusted_pubkey: None,
            repair_plugin: None,
            dev_allow_unsigned: false,
            backend: BackendConfig::Mock,
        }
    }
}

} // verus!
