//! Template metadata (`template.toml` of the legacy layout).
use vstd::prelude::*;

verus! {

/// Template metadata from `template.toml`.
#[derive(Clone, Debug)]
pub struct TemplateMetadata {
    pub metadata: MetadataSection,
    pub variables: VariablesSection,
    pub compatibilidad: CompatibilidadSection,
}

/// The template's description.
#[derive(Clone, Debug)]
pub struct MetadataSection {
    pub nombre: String,
    pub descripcion: String,
    pub idioma: String,
    pub tipo: String,
}

/// The variables a template needs.
#[derive(Clone, Debug)]
pub struct VariablesSection {
    pub requeridas: Vec<String>,
    pub opcionales: Vec<String>,
}

/// What a template supports.
#[derive(Clone, Debug)]
pub struct CompatibilidadSection {
    pub mermaid: bool,
    pub graphviz: bool,
    pub bibliografia: String,
}

/// A LaTeX template.
#[derive(Clone, Debug)]
pub struct Template {
    pub name: String,
    pub metadata: TemplateMetadata,
    pub preambulo: String,
    pub portada: Option<String>,
}

} // verus!
