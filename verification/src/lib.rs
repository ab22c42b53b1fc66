//! A verified core for a Miller-columns terminal browser over pluggable
//! node sources (the local filesystem, zip archives, JSON documents and a
//! built-in manual): URI and pipe parsing, text sanitizing, syntax
//! highlighting, archive indexing and path resolution, and the navigation
//! state machine behind the UI.

pub mod text;
pub mod browser;
pub mod byte_size;
pub mod cancel;
pub mod civil;
pub mod cli;
pub mod command;
pub mod config;
pub mod entry;
pub mod error;
pub mod fs;
pub mod fs_format;
pub mod fs_preview;
pub mod highlight;
pub mod hl_config;
pub mod json;
pub mod manual;
pub mod node_source;
pub mod registry;
pub mod sanitize;
pub mod streams;
pub mod strorder;
pub mod style;
pub mod toggle;
pub mod ui;
pub mod vfs;
pub mod zip_index;
pub mod zip_vfs;
