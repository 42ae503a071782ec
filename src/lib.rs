//! Diagnostic ingestion and synchronization for an editor language server that
//! reports the findings of bacon, a background Rust build watcher, or of the compiler itself.

pub mod bridge;
pub mod compiler;
pub mod config;
pub mod diagnostic;
pub mod line_format;
pub mod locations;
pub mod quick_fix;
pub mod sync;
pub mod text;
