//! Filtering of package-manager log entries by action, newest first, with a cap.
pub mod cli;
pub mod entry;
pub mod explicit;
pub mod filter;
pub mod render;
pub mod text;
