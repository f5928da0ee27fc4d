//! The decisions and texts of the tool's commands; the file work around
//! them stays with the caller.

pub mod config;
pub mod new;
pub mod init;
pub mod fmt;
pub mod template;
