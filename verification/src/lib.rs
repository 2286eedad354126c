//! Workspace file operations for a desktop application: decisions about paths, names, previews,
//! watches and keyboard text, each with a proved contract.
//!
//! The library never touches the disk, the clock or a window. Where an operation alternates
//! between deciding and doing, it is written as a function that is handed everything observed so
//! far and answers with the next thing to do, or with the final result.

pub mod check_paths;
pub mod crud;
pub mod download;
pub mod files;
pub mod flow;
pub mod macos_arrow_filter;
pub mod move_items;
pub mod numbers;
pub mod path_laws;
pub mod paths;
pub mod prefix_laws;
pub mod read_preview;
pub mod system_open;
pub mod text;
pub mod watcher;
