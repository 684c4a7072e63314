//! The verified decisions of the file browser: paths, sizing of pipelined
//! transfers, cancel/pause signals and the registry of open sessions.
pub mod controls;
pub mod listing;
pub mod paths;
pub mod types;
pub mod window;
