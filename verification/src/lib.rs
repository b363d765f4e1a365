//! Verified core of a small system-information fetch tool.
pub mod config;
pub mod display;
pub mod kitty;
pub mod system;
pub mod text;
