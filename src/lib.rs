//! Discovery and application of plugin updates: configuration records kept as
//! TOML files, the batch of pending updates found for them, and the ordered
//! plan of installs and configuration rewrites that applies the batch.

pub mod address;
pub mod text;
pub mod toml_table;
pub mod config;
pub mod discovery;
pub mod plan;
pub mod paths;
