//! Project configuration (`project.toml`) and its paths.
use vstd::prelude::*;
use crate::linter::{join_path, spec_join_path};
use crate::text::opt_view;

verus! {

/// Project configuration from `project.toml`.
#[derive(Clone, Debug)]
pub struct ProjectConfig {
    pub documento: DocumentoConfig,
    pub compilacion: CompilacionConfig,
}

/// The document's title, author and template.
#[derive(Clone, Debug)]
pub struct DocumentoConfig {
    pub titulo: String,
    pub autor: String,
    pub template: String,
}

/// The entry point and the optional bibliography.
#[derive(Clone, Debug)]
pub struct CompilacionConfig {
    pub entry: String,
    pub bibliografia: Option<String>,
}

/// A project: its root directory and its configuration.
#[derive(Clone, Debug)]
pub struct Project {
    pub root: String,
    pub config: ProjectConfig,
}

impl Project {
    /// The entry point file's path under the root.
    pub fn entry_path(&self) -> (r: String)
        ensures
            r@ == spec_join_path(self.root@, self.config.compilacion.entry@),
    {
        join_path(self.root.as_str(), self.config.compilacion.entry.as_str())
    }

    /// The bibliography file's path under the root, if one is configured.
    pub fn bib_path(&self) -> (r: Option<String>)
        ensures
            opt_view(r) == match self.config.compilacion.bibliografia {
                Some(b) => Some(spec_join_path(self.root@, b@)),
                None => None,
            },
    {
        match &self.config.compilacion.bibliografia {
            Some(b) => Some(join_path(self.root.as_str(), b.as_str())),
            None => None,
        }
    }
}

} // verus!
