//! Errors of the command layer.
use vstd::prelude::*;
use crate::text::concat_str;

verus! {

/// Errors that the commands report.
#[derive(Clone, Debug)]
pub enum TexForgeError {
    ProjectNotFound(String),
    TemplateNotFound(String),
    CompilationFailed(String),
    InvalidConfig(String),
}

impl TexForgeError {
    /// The error's message.
    pub fn message(&self) -> (r: String)
        ensures
            r@ == match self {
                TexForgeError::ProjectNotFound(s) => "Project not found: "@ + s@,
                TexForgeError::TemplateNotFound(s) => "Template not found: "@ + s@,
                TexForgeError::CompilationFailed(s) => "Compilation failed: "@ + s@,
                TexForgeError::InvalidConfig(s) => "Invalid configuration: "@ + s@,
            },
    {
        match self {
            TexForgeError::ProjectNotFound(s) => concat_str("Project not found: ", s.as_str()),
            TexForgeError::TemplateNotFound(s) => concat_str("Template not found: ", s.as_str()),
            TexForgeError::CompilationFailed(s) => concat_str("Compilation failed: ", s.as_str()),
            TexForgeError::InvalidConfig(s) => concat_str("Invalid configuration: ", s.as_str()),
        }
    }
}

} // verus!
