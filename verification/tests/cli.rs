use texforge::cli::{Cli, CliAction, Commands, TemplateAction};

#[test]
fn new_without_template_uses_general() {
    let a = Cli { command: Commands::New { name: "doc".to_string(), template: None } }.execute();
    match a {
        CliAction::NewProject { name, template } => {
            assert_eq!(name, "doc");
            assert_eq!(template, "general");
        },
        _ => panic!("expected a new project"),
    }
}

#[test]
fn new_with_template() {
    let a = Cli {
        command: Commands::New { name: "doc".to_string(), template: Some("ieee".to_string()) },
    }
    .execute();
    assert!(matches!(a, CliAction::NewProject { ref template, .. } if template == "ieee"));
}

#[test]
fn other_commands_map_one_to_one() {
    assert!(matches!(Cli { command: Commands::Build }.execute(), CliAction::Build));
    assert!(matches!(Cli { command: Commands::Check }.execute(), CliAction::Check));
    assert!(matches!(
        Cli { command: Commands::Fmt { check: true } }.execute(),
        CliAction::Format { check: true }
    ));
    assert!(matches!(
        Cli { command: Commands::Template { action: TemplateAction::List { all: false } } }.execute(),
        CliAction::ListTemplates { all: false }
    ));
    let a = Cli {
        command: Commands::Template { action: TemplateAction::Remove { name: "x".to_string() } },
    }
    .execute();
    assert!(matches!(a, CliAction::RemoveTemplate { ref name } if name == "x"));
    let a = Cli {
        command: Commands::Template { action: TemplateAction::Add { source: "s".to_string() } },
    }
    .execute();
    assert!(matches!(a, CliAction::AddTemplate { ref source } if source == "s"));
    let a = Cli {
        command: Commands::Template { action: TemplateAction::Validate { name: "v".to_string() } },
    }
    .execute();
    assert!(matches!(a, CliAction::ValidateTemplate { ref name } if name == "v"));
}
