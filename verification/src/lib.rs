//! Verified core of a Roblox Studio MCP server: parsers, result interpretation,
//! path policy, bounded queues and metrics.

pub mod text;
pub mod error;
pub mod glb;
pub mod luau_lsp;
pub mod metrics;
pub mod filesystem;
pub mod tree;
pub mod search;
pub mod watcher;
pub mod trellis;
pub mod runners;
pub mod params;
pub mod startup;
