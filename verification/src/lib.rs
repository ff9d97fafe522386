//! Verified core of the model downloader: size rendering, file-name and
//! path rules, configuration resolution, the download queue order, transfer
//! decisions and the state machine behind the terminal interface.

pub mod text;
pub mod size;
pub mod table;
pub mod paths;
pub mod model;
pub mod config;
pub mod file_checks;
pub mod cache;
pub mod queue;
pub mod clock;
pub mod transfer;
pub mod catalog;
pub mod tui;
pub mod render;
pub mod worker;
