//! Command-line commands and their dispatch.
use vstd::prelude::*;

verus! {

/// The subcommands of the tool.
#[derive(Clone, Debug)]
pub enum Commands {
    /// Create a new project from a template.
    New { name: String, template: Option<String> },
    /// Compile the project to PDF.
    Build,
    /// Format the `.tex` files; with `check`, only report.
    Fmt { check: bool },
    /// Lint the project without compiling.
    Check,
    /// Manage templates.
    Template { action: TemplateAction },
}

/// What `template` does.
#[derive(Clone, Debug)]
pub enum TemplateAction {
    /// List the available templates (with `all`, the registry's too).
    List { all: bool },
    /// Add a template from a URL or the registry.
    Add { source: String },
    /// Remove a template.
    Remove { name: String },
    /// Validate a template.
    Validate { name: String },
}

/// A parsed command line.
#[derive(Clone, Debug)]
pub struct Cli {
    pub command: Commands,
}

/// What the command line asks the tool to do, with every argument settled.
#[derive(Clone, Debug)]
pub enum CliAction {
    NewProject { name: String, template: String },
    Build,
    Format { check: bool },
    Check,
    ListTemplates { all: bool },
    AddTemplate { source: String },
    RemoveTemplate { name: String },
    ValidateTemplate { name: String },
}

/// The template a new project uses when none is named.
pub open spec fn default_template() -> Seq<char> {
    "general"@
}

/// The action that a command stands for: `new` without a template takes
/// the default one.
pub open spec fn action_matches(c: Commands, a: CliAction) -> bool {
    match c {
        Commands::New { name, template } => a matches CliAction::NewProject { name: n, template: t }
            && n@ == name@ && t@ == match template {
            Some(tp) => tp@,
            None => default_template(),
        },
        Commands::Build => a is Build,
        Commands::Fmt { check } => a matches CliAction::Format { check: k } && k == check,
        Commands::Check => a is Check,
        Commands::Template { action } => match action {
            TemplateAction::List { all } => a matches CliAction::ListTemplates { all: x } && x
                == all,
            TemplateAction::Add { source } => a matches CliAction::AddTemplate { source: s } && s@
                == source@,
            TemplateAction::Remove { name } => a matches CliAction::RemoveTemplate { name: n } && n@
                == name@,
            TemplateAction::Validate { name } => a matches CliAction::ValidateTemplate { name: n }
                && n@ == name@,
        },
    }
}

impl Cli {
    /// Settle the command line into the action to run.
    pub fn execute(self) -> (r: CliAction)
        ensures
            action_matches(self.command, r),
    {
        match self.command {
            Commands::New { name, template } => {
                let t = match template {
                    Some(t) => t,
                    None => "general".to_string(),
                };
                proof {
                    reveal_strlit("general");
                }
                CliAction::NewProject { name, template: t }
            },
            Commands::Build => CliAction::Build,
            Commands::Fmt { check } => CliAction::Format { check },
            Commands::Check => CliAction::Check,
            Commands::Template { action } => match action {
                TemplateAction::List { all } => CliAction::ListTemplates { all },
                TemplateAction::Add { source } => CliAction::AddTemplate { source },
                TemplateAction::Remove { name } => CliAction::RemoveTemplate { name },
                TemplateAction::Validate { name } => CliAction::ValidateTemplate { name },
            },
        }
    }
}

} // verus!
