use vstd::prelude::*;

verus! {

/// The agent's configuration.
pub struct Config {
    pub core: CoreConfig,
    /// The plugin modules, by name; each name occurs once.
    pub modules: Vec<(String, ModuleConfig)>,
}

/// Settings of the agent itself.
pub struct CoreConfig {
    pub poll_interval_ms: u64,
    pub buffer_capacity: usize,
    pub output_dir: String,
    pub socket_path: String,
    pub lua_triggers_dir: String,
}

/// Settings of one plugin module.
pub struct ModuleConfig {
    pub binary: String,
    pub memory_limit_mb: u64,
    pub lifecycle: Lifecycle,
}

/// Whether a plugin module runs once per use or stays alive.
#[derive(Debug, Clone, Copy, PartialEq, Eq, Structural)]
pub enum Lifecycle {
    Ephemeral,
    Persistent,
}

impl Default for Lifecycle {
    fn default() -> (r: Self)
        ensures
            r == Lifecycle::Ephemeral,
    {
        Lifecycle::Ephemeral
    }
}

} // verus!
