//! Save SSH hosts and reconnect to them from Herdr.

pub mod bulk_import;
pub mod cli;
pub mod config;
pub mod edit;
pub mod handoff;
pub mod herdr;
pub mod import;
pub mod json_value;
pub mod model;
pub mod number;
pub mod order;
pub mod picker;
pub mod picker_state;
pub mod rank;
pub mod record;
pub mod screen;
pub mod setup;
pub mod shell;
pub mod split;
pub mod ssh;
pub mod store;
pub mod sweep;
pub mod table;
pub mod text;
pub mod time;
pub mod toml_value;
