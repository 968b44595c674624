//! PyPilot: which Python a project's dependencies can run on, and how to get there.

pub mod cli;
pub mod document;
pub mod engine;
pub mod extension;
pub mod lsp;
pub mod matrix;
pub mod names;
pub mod pypi;
pub mod settings;
pub mod text;
