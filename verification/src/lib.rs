//! texforge: the verified core of a LaTeX project tool.

pub mod text;
pub mod utils;
pub mod formatter;
pub mod format_laws;
pub mod strmap;
pub mod cli;
pub mod commands;
pub mod compiler;
pub mod config;
pub mod diagrams;
pub mod domain;
pub mod error;
pub mod linter;
pub mod manifest;
pub mod placeholders;
pub mod project_values;
pub mod version;
pub mod version_checker;
pub mod version_laws;
