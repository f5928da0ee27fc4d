//! Project, template and document domain types.

pub mod document;
pub mod project;
pub mod template;
