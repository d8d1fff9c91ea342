//! RoExtract: finds and extracts assets cached by the Roblox client by
//! looking at the headers of the cached files.

pub mod headers;
pub mod image_cache;
pub mod text;
pub mod logic;
pub mod config;
pub mod updater;
pub mod locale;
pub mod log;
pub mod file_list;
pub mod preview;
pub mod cli;
pub mod gui;
