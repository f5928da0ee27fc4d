use texforge::commands::config as settings;
use texforge::commands::fmt::{process_file, summary, FileOutcome};
use texforge::commands::init::{declares_document, has_extension_of, project_toml as init_toml};
use texforge::commands::new::{images_directory, plan, project_toml, PlannedFile};
use texforge::commands::template::{list as list_templates, validate as validate_template};
use texforge::config::{get, Config};
use texforge::utils::{mirror_action, MirrorAction};

#[test]
fn config_command_shows_and_sets_short_keys() {
    let mut c = Config::empty();
    assert_eq!(settings::get(&c, "name").unwrap(), "(not set)");
    assert_eq!(settings::set(&mut c, "name", "Jheison").unwrap(), "✓ Set name = Jheison");
    assert_eq!(settings::get(&c, "name").unwrap(), "Jheison");
    assert_eq!(get(&c, "user.name").unwrap(), Some("Jheison".to_string()));
    settings::set(&mut c, "language", "spanish").unwrap();
    assert_eq!(get(&c, "defaults.language").unwrap(), Some("spanish".to_string()));
    settings::set(&mut c, "institution", "Uni").unwrap();
    assert_eq!(c.institution.name, Some("Uni".to_string()));
    settings::set(&mut c, "email", "j@x.org").unwrap();
    assert_eq!(settings::get(&c, "email").unwrap(), "j@x.org");
}

#[test]
fn config_command_rejects_unknown_keys() {
    let mut c = Config::empty();
    let e = settings::set(&mut c, "user.name", "x").unwrap_err();
    assert_eq!(
        e.message(),
        "Unknown config key: user.name. Available: name, email, institution, language"
    );
    assert_eq!(c.user.name, None);
    assert!(settings::get(&c, "colour").is_err());
}

#[test]
fn config_listing() {
    let mut c = Config::empty();
    settings::set(&mut c, "name", "Ana").unwrap();
    settings::set(&mut c, "language", "french").unwrap();
    assert_eq!(
        settings::list(&c),
        "Global configuration:\n\n[User]\n  name       = Ana\n  email      = (not set)\n\n[Institution]\n  name       = (not set)\n\n[Defaults]\n  language   = french\n"
    );
}

#[test]
fn wizard_proposals_and_answers() {
    let mut c = Config::empty();
    let d = settings::wizard_defaults(&c);
    assert_eq!(d.name, "");
    assert_eq!(d.language, "english");
    assert!(d.language_offered);
    c.defaults.language = Some("klingon".to_string());
    let d = settings::wizard_defaults(&c);
    assert_eq!(d.language, "klingon");
    assert!(!d.language_offered);
    settings::apply_wizard(&mut c, "N", "E", "I", "german");
    assert_eq!(settings::get(&c, "name").unwrap(), "N");
    assert_eq!(settings::get(&c, "email").unwrap(), "E");
    assert_eq!(settings::get(&c, "institution").unwrap(), "I");
    assert_eq!(settings::get(&c, "language").unwrap(), "german");
    let opts = settings::language_options();
    assert_eq!(opts.len(), 10);
    assert_eq!(opts[0], "english");
    assert_eq!(opts[9], "japanese");
}

#[test]
fn new_project_files() {
    let toml = project_toml("mi-tesis", "general");
    assert_eq!(
        toml,
        "[documento]\ntitulo = \"mi-tesis\"\nautor = \"Author\"\ntemplate = \"general\"\n\n[compilacion]\nentry = \"main.tex\"\nbibliografia = \"bib/references.bib\"\n"
    );
    let files = vec![
        PlannedFile { path: "main.tex".to_string(), content: "x".to_string() },
        PlannedFile { path: "template.toml".to_string(), content: "meta".to_string() },
        PlannedFile { path: "bib/references.bib".to_string(), content: "".to_string() },
    ];
    let out = plan("mi-tesis", "general", &files);
    let paths: Vec<&str> = out.iter().map(|f| f.path.as_str()).collect();
    assert_eq!(paths, vec!["main.tex", "bib/references.bib", "project.toml"]);
    assert_eq!(out[2].content, toml);
    assert_eq!(images_directory(), "assets/images");
}

#[test]
fn init_project_toml() {
    assert_eq!(
        init_toml(Some("thesis"), Some("src/main.tex"), Some("refs.bib")),
        "[documento]\ntitulo = \"thesis\"\nautor = \"Author\"\ntemplate = \"general\"\n\n[compilacion]\nentry = \"src/main.tex\"\nbibliografia = \"refs.bib\"\n"
    );
    assert_eq!(
        init_toml(None, None, None),
        "[documento]\ntitulo = \"documento\"\nautor = \"Author\"\ntemplate = \"general\"\n\n[compilacion]\nentry = \"main.tex\"\n# bibliografia = \"refs.bib\"\n"
    );
    assert!(declares_document("% x\n\\documentclass{article}"));
    assert!(!declares_document("\\begin{document}"));
    assert!(has_extension_of("main.tex", "tex"));
    assert!(has_extension_of("a.b.bib", "bib"));
    assert!(!has_extension_of(".tex", "tex"));
    assert!(!has_extension_of("main", "tex"));
    assert!(!has_extension_of("main.texx", "tex"));
}

#[test]
fn fmt_decisions() {
    assert!(matches!(process_file(false, "a\n"), FileOutcome::Unchanged));
    assert!(matches!(process_file(true, "a\n\n\n"), FileOutcome::NeedsFormatting));
    match process_file(false, "a\n\n\n") {
        FileOutcome::Rewrite(c) => assert_eq!(c, "a\n"),
        _ => panic!("expected a rewrite"),
    }
    assert_eq!(summary(true, 2, 5), Err("2 file(s) need formatting — run 'texforge fmt'".to_string()));
    assert_eq!(summary(false, 2, 5), Ok("✅ 5 file(s) checked".to_string()));
    assert_eq!(summary(true, 0, 5), Ok("✅ All files formatted correctly".to_string()));
}

#[test]
fn template_listing_and_validation() {
    assert_eq!(
        list_templates(&[]),
        "No templates installed locally.\nThe 'general' template is always available (built-in).\n"
    );
    assert_eq!(
        list_templates(&["ieee".to_string(), "letter".to_string()]),
        "Installed templates:\n  - ieee\n  - letter\n"
    );
    let files = vec!["main.tex".to_string(), "template.toml".to_string()];
    assert_eq!(validate_template("ieee", &files).unwrap(), "✅ Template 'ieee' is valid");
    let e = validate_template("bad", &["main.tex".to_string()]).unwrap_err();
    assert_eq!(e.message(), "Template 'bad' is missing template.toml");
}

#[test]
fn rewritten_file_passes_the_check() {
    let src = "\\begin{document}\n\n\n   text\n\\end{document}";
    let formatted = match process_file(false, src) {
        FileOutcome::Rewrite(c) => c,
        _ => panic!("expected a rewrite"),
    };
    assert!(matches!(process_file(true, &formatted), FileOutcome::Unchanged));
    assert!(matches!(process_file(false, &formatted), FileOutcome::Unchanged));
}

#[test]
fn asset_mirroring_decisions() {
    assert_eq!(mirror_action(".git", false, true, false, false), MirrorAction::Skip);
    assert_eq!(mirror_action("build", true, true, false, false), MirrorAction::Skip);
    assert_eq!(mirror_action("assets", false, true, false, false), MirrorAction::Link);
    assert_eq!(mirror_action("assets", false, true, false, true), MirrorAction::Skip);
    assert_eq!(mirror_action("refs.bib", false, false, true, false), MirrorAction::Copy);
    assert_eq!(mirror_action("refs.bib", false, false, true, true), MirrorAction::Skip);
    assert_eq!(mirror_action("main.tex", false, false, true, false), MirrorAction::Skip);
    assert_eq!(mirror_action("Makefile", false, false, true, false), MirrorAction::Copy);
}
