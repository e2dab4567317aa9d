//! Verified core logic of the AgentBox desktop companion: request routing and
//! header rewriting for the local model proxy, usage extraction from
//! upstream responses, settings synchronisation, session and analytics
//! aggregation, and the helpers behind the built-in MCP tools.

pub mod json;
pub mod text;
pub mod seqs;
pub mod order;
pub mod numfmt;
pub mod tally;
pub mod auth;
pub mod upstream;
pub mod usage;
pub mod paths;
pub mod db;
pub mod presets;
pub mod config;
pub mod sync;
pub mod discovery;
pub mod engine;
pub mod sessions;
pub mod metrics;
pub mod analytics;
pub mod catalog;
pub mod preset_sync;
pub mod mcp;
pub mod routing;
pub mod settings_edit;
pub mod client_pool;
pub mod compression;
pub mod installer;
pub mod skills;
pub mod arxiv;
pub mod queries;
