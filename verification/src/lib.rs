//! Package labels, list rows, configuration and AI enrichment logic of a
//! debloating tool for Android devices.

pub mod ai;
pub mod config;
pub mod label;
pub mod lists;
pub mod package_row;
pub mod text;
