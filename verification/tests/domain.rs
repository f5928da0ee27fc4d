use texforge::domain::document::DocumentAssembler;
use texforge::domain::project::{CompilacionConfig, DocumentoConfig, Project, ProjectConfig};
use texforge::error::TexForgeError;

fn project(bib: Option<&str>) -> Project {
    Project {
        root: "/home/u/tesis".to_string(),
        config: ProjectConfig {
            documento: DocumentoConfig {
                titulo: "Tesis".to_string(),
                autor: "Author".to_string(),
                template: "general".to_string(),
            },
            compilacion: CompilacionConfig {
                entry: "main.tex".to_string(),
                bibliografia: bib.map(|b| b.to_string()),
            },
        },
    }
}

#[test]
fn project_paths_are_under_the_root() {
    let p = project(Some("bib/references.bib"));
    assert_eq!(p.entry_path(), "/home/u/tesis/main.tex");
    assert_eq!(p.bib_path(), Some("/home/u/tesis/bib/references.bib".to_string()));
    assert_eq!(project(None).bib_path(), None);
}

#[test]
fn assembly_puts_the_body_after_the_preamble() {
    let d = DocumentAssembler::assemble("\\documentclass{article}", "\\begin{document}x\\end{document}");
    assert_eq!(d, "\\documentclass{article}\n\\begin{document}x\\end{document}");
    assert_eq!(DocumentAssembler::assemble("", "body"), "\nbody");
}

#[test]
fn error_messages() {
    assert_eq!(TexForgeError::ProjectNotFound("x".to_string()).message(), "Project not found: x");
    assert_eq!(TexForgeError::TemplateNotFound("t".to_string()).message(), "Template not found: t");
    assert_eq!(TexForgeError::CompilationFailed("c".to_string()).message(), "Compilation failed: c");
    assert_eq!(TexForgeError::InvalidConfig("i".to_string()).message(), "Invalid configuration: i");
}
