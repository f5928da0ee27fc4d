use texforge::config::Config;
use texforge::manifest::{FileSpec, Placeholder, PlaceholderType, TemplateManifest};
use texforge::placeholders::{PlaceholderError, PlaceholderResolver};
use texforge::strmap::StrMap;

fn make_placeholder(name: &str, required: bool) -> Placeholder {
    Placeholder {
        name: name.to_string(),
        kind: PlaceholderType::String,
        description: "test".to_string(),
        required,
        default: None,
        choices: None,
    }
}

fn empty_resolver() -> PlaceholderResolver {
    PlaceholderResolver::new(StrMap::new(), StrMap::new(), None)
}

#[test]
fn test_resolve_cli_priority() {
    let mut cli_args = StrMap::new();
    cli_args.insert("title".to_string(), "My Title".to_string());

    let resolver = PlaceholderResolver {
        cli_args,
        project_config: StrMap::new(),
        user_config: None,
    };

    let ph = make_placeholder("title", true);
    let result = resolver.resolve(&ph).unwrap();
    assert_eq!(result, Some("My Title".to_string()));
}

#[test]
fn test_resolve_missing_required() {
    let resolver = empty_resolver();

    let mut ph = make_placeholder("title", true);
    ph.default = None;

    let result = resolver.resolve_all(&[ph]);
    assert!(result.is_err());
}

#[test]
fn test_substitute_tokens() {
    let resolver = empty_resolver();

    let mut values = StrMap::new();
    values.insert("title".to_string(), "My Document".to_string());
    values.insert("author".to_string(), "Jane Doe".to_string());

    let content = "\\title{{{title}}}\n\\author{{{author}}}";
    let result = resolver.substitute(content, &values).unwrap();

    assert_eq!(result, "\\title{My Document}\n\\author{Jane Doe}");
}

#[test]
fn test_unresolved_tokens_error() {
    let resolver = empty_resolver();

    let values = StrMap::new();
    let content = "\\title{{{title}}}";
    let result = resolver.substitute(content, &values);

    assert!(result.is_err());
}

#[test]
fn precedence_project_over_user_over_default() {
    let mut project = StrMap::new();
    project.insert("author".to_string(), "Project Author".to_string());
    let mut cfg = Config::empty();
    cfg.user.name = Some("User Name".to_string());
    cfg.defaults.language = Some("es".to_string());
    let resolver = PlaceholderResolver::new(StrMap::new(), project, Some(cfg));

    let mut author = make_placeholder("author", true);
    author.default = Some("Default".to_string());
    assert_eq!(resolver.resolve(&author).unwrap(), Some("Project Author".to_string()));

    let lang = make_placeholder("language", false);
    assert_eq!(resolver.resolve(&lang).unwrap(), Some("es".to_string()));

    let mut other = make_placeholder("other", false);
    other.default = Some("by {{user.name}}".to_string());
    assert_eq!(resolver.resolve(&other).unwrap(), Some("by User Name".to_string()));

    let missing = make_placeholder("missing", false);
    assert_eq!(resolver.resolve(&missing).unwrap(), None);
}

#[test]
fn resolve_all_skips_optional_and_reports_required() {
    let mut cli = StrMap::new();
    cli.insert("title".to_string(), "T".to_string());
    let resolver = PlaceholderResolver::new(cli, StrMap::new(), None);
    let phs = vec![make_placeholder("title", true), make_placeholder("opt", false)];
    let values = resolver.resolve_all(&phs).unwrap();
    assert_eq!(values.len(), 1);
    assert_eq!(values.get("title"), Some("T".to_string()));

    let mut req = make_placeholder("needed", true);
    req.description = "Needed thing".to_string();
    let err = resolver.resolve_all(&[req]).unwrap_err();
    assert_eq!(err.message(), "Required placeholder 'needed' has no value (Needed thing)");
    assert!(matches!(err, PlaceholderError::RequiredMissing(_, _)));
}

#[test]
fn substitute_replaces_every_occurrence() {
    let resolver = empty_resolver();
    let mut values = StrMap::new();
    values.insert("x".to_string(), "1".to_string());
    let out = resolver.substitute("{{x}}+{{x}}={{x}}{{x}}", &values).unwrap();
    assert_eq!(out, "1+1=11");
    let err = resolver.substitute("{{y}}", &values).unwrap_err();
    assert_eq!(err.message(), "Unresolved placeholders found in content");
}

#[test]
fn content_without_tokens_is_unchanged() {
    let resolver = empty_resolver();
    let mut values = StrMap::new();
    values.insert("title".to_string(), "T".to_string());
    let content = "\\section{Intro} { braces } }}";
    assert_eq!(resolver.substitute(content, &values).unwrap(), content);
}

#[test]
fn validated_manifest_resolves_each_placeholder_to_its_value() {
    let mut title = make_placeholder("title", true);
    title.default = Some("Untitled".to_string());
    let mut lang = make_placeholder("lang", false);
    lang.default = Some("en".to_string());
    let m = TemplateManifest {
        id: "t".to_string(),
        version: "1.0.0".to_string(),
        display_name: "T".to_string(),
        description: "d".to_string(),
        files: FileSpec { include_patterns: vec![], exclude_patterns: vec![] },
        placeholders: vec![title, lang, make_placeholder("opt", false)],
        post_generate: vec![],
    }
    .validate()
    .unwrap();
    let mut cli = StrMap::new();
    cli.insert("lang".to_string(), "es".to_string());
    let resolver = PlaceholderResolver::new(cli, StrMap::new(), None);
    let values = resolver.resolve_all(&m.placeholders).unwrap();
    assert_eq!(values.get("title"), Some("Untitled".to_string()));
    assert_eq!(values.get("lang"), Some("es".to_string()));
    assert_eq!(values.get("opt"), None);
}

#[test]
fn section_key_names_read_the_user_configuration() {
    let mut cfg = Config::empty();
    cfg.defaults.language = Some("es".to_string());
    cfg.defaults.fontsize = Some("11pt".to_string());
    cfg.institution.address = Some("Calle 1".to_string());
    cfg.templates.watch = Some(true);
    let resolver = PlaceholderResolver::new(StrMap::new(), StrMap::new(), Some(cfg));
    let value = |n: &str| resolver.resolve(&make_placeholder(n, false)).unwrap();
    assert_eq!(value("defaults.language"), Some("es".to_string()));
    assert_eq!(value("language"), Some("es".to_string()));
    assert_eq!(value("defaults.fontsize"), Some("11pt".to_string()));
    assert_eq!(value("institution.address"), Some("Calle 1".to_string()));
    assert_eq!(value("templates.watch"), Some("true".to_string()));
    assert_eq!(value("defaults.papersize"), None);
    assert_eq!(value("fontsize"), None);
}

#[test]
fn resolve_all_names_the_first_missing_required_placeholder() {
    let resolver = empty_resolver();
    let mut a = make_placeholder("a", true);
    a.description = "first".to_string();
    let b = make_placeholder("b", true);
    let err = resolver.resolve_all(&[make_placeholder("opt", false), a, b]).unwrap_err();
    assert_eq!(err.message(), "Required placeholder 'a' has no value (first)");
}

#[test]
fn resolve_all_keeps_the_last_value_of_a_repeated_name() {
    let mut first = make_placeholder("x", false);
    first.default = Some("one".to_string());
    let mut second = make_placeholder("x", false);
    second.default = Some("two".to_string());
    let third = make_placeholder("x", false);
    let values = empty_resolver().resolve_all(&[first, second, third]).unwrap();
    assert_eq!(values.len(), 1);
    assert_eq!(values.get("x"), Some("two".to_string()));
}
