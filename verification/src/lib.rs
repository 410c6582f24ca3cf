//! Core of the tars agent harness.
pub mod agent;
pub mod agent_runner;
pub mod agent_trace;
pub mod cancel;
pub mod cli;
pub mod client;
pub mod compaction;
pub mod config;
pub mod daemon;
pub mod db;
pub mod display;
pub mod error;
pub mod json;
pub mod path;
pub mod paths;
pub mod plugin;
pub mod project;
pub mod protocol;
pub mod provider;
pub mod providers;
pub mod retry;
pub mod server;
pub mod shutdown;
pub mod sse;
pub mod strmap;
pub mod text;
pub mod time;
pub mod tools;
pub mod tui;
pub mod types;
