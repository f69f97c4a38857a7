//! Neutralises lint-control attributes in Rust source text by wrapping them in
//! marker comments, together with the reporting helpers built around it.

pub mod attr_cleaning;
pub mod clippy_workspace;
pub mod crates;
pub mod editor;
pub mod files;
pub mod lint_run;
pub mod lints;
pub mod locator;
pub mod manifest;
pub mod markdown_formatting;
pub mod position;
pub mod progress_bar;
pub mod report;
pub mod syntax;
pub mod text;

pub use files::{clean_attrs, ensure_empty_dir, EnsureEmptyDirOutcome, FileCleanError};
pub use manifest::clean_config;
pub use progress_bar::ProgressBar;
