//! Verified core of a terminal coding agent: command-line parsing, the
//! provider registry, the bounded event channel, streaming accumulation,
//! the tools' text processing, slash commands and the chat screen's state.

pub mod ansi;
pub mod app_loop;
pub mod bash;
pub mod capabilities;
pub mod channel;
pub mod commands;
pub mod cli;
pub mod compat;
pub mod completer;
pub mod config;
pub mod edit;
pub mod format;
pub mod interactive;
pub mod logging;
pub mod model;
pub mod prompt;
pub mod provider;
pub mod read;
pub mod request;
pub mod session;
pub mod sse;
pub mod state;
pub mod status;
pub mod store;
pub mod stream;
pub mod text;
pub mod ui;
pub mod view;
pub mod write;
