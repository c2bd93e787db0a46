//! A reactive diagnostic agent's core: metric and event buffers, plugin
//! message routing, threshold triggers with cooldown suppression, and the
//! binary layout of forensic bundles.

pub mod buffer;
pub mod bundle;
pub mod cli;
pub mod clock;
pub mod collector;
pub mod config;
pub mod listener;
pub mod protocol;
pub mod state;
pub mod text;
pub mod triggers;
