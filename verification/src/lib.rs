//! The decision core of the Qwen Studio desktop shell: which navigations are
//! allowed, when an update is offered, how the MCP server configuration is
//! built, merged and normalised, and how the line protocol of the MCP bridge
//! is framed, matched to its callers and reported.
pub mod bridge;
pub mod client;
pub mod config;
pub mod host;
pub mod icon;
pub mod json;
pub mod navigation;
pub mod reconfigure;
pub mod servers;
pub mod settings;
pub mod text;
pub mod updates;
pub mod version;
