//! Tracking a piece of work as it moves through an ordered flow of stages.
mod text;
mod table;
pub mod path;
pub mod error;
pub mod flow;
pub mod preset_name;
pub mod run;
pub mod transitions;
pub mod drift;
pub mod select;
pub mod run_file;
pub mod config;
pub mod preset_path;
pub mod presets;
pub mod listing;
pub mod init;
pub mod html;
pub mod status;
pub mod lifecycle;
pub mod agent;
pub mod laws;
