//! A reverse proxy that aggregates several MCP servers behind one endpoint.
pub mod backend;
pub mod cli;
pub mod clients;
pub mod commands;
pub mod config;
pub mod custom_tools;
pub mod docker;
pub mod expand;
pub mod generate;
pub mod glob;
pub mod json;
pub mod jsonrpc;
pub mod names;
pub mod picked;
pub mod pool;
pub mod server;
pub mod text;
pub mod transport;
pub mod util;
