use texforge::manifest::{
    FileSpec, ManifestError, Placeholder, PlaceholderType, TemplateManifest,
};

fn manifest(id: &str, placeholders: Vec<Placeholder>) -> TemplateManifest {
    TemplateManifest {
        id: id.to_string(),
        version: "1.0.0".to_string(),
        display_name: "Test".to_string(),
        description: "Test template".to_string(),
        files: FileSpec { include_patterns: Vec::new(), exclude_patterns: Vec::new() },
        placeholders,
        post_generate: Vec::new(),
    }
}

fn placeholder(name: &str, kind: PlaceholderType, required: bool) -> Placeholder {
    Placeholder {
        name: name.to_string(),
        kind,
        description: "Document title".to_string(),
        required,
        default: None,
        choices: None,
    }
}

#[test]
fn test_parse_simple_manifest() {
    let mut m = manifest("basic-article", vec![placeholder("title", PlaceholderType::String, true)]);
    m.display_name = "Basic Article".to_string();
    m.description = "A simple article template".to_string();
    let manifest = m.validate().unwrap();
    assert_eq!(manifest.id, "basic-article");
    assert_eq!(manifest.placeholders.len(), 1);
    assert!(manifest.get_placeholder("title").is_some());
}

#[test]
fn test_parse_with_default() {
    let mut author = placeholder("author", PlaceholderType::String, false);
    author.description = "Author name".to_string();
    author.default = Some("{{user.name}}".to_string());
    let manifest = manifest("test", vec![author]).validate().unwrap();
    let author = manifest.get_placeholder("author").unwrap();
    assert_eq!(author.default, Some("{{user.name}}".to_string()));
}

#[test]
fn test_enum_placeholder_requires_choices() {
    let result = manifest("test", vec![placeholder("language", PlaceholderType::Enum, false)])
        .validate();
    assert!(result.is_err());
    assert!(result.unwrap_err().message().contains("must have 'choices'"));
}

#[test]
fn test_duplicate_placeholder_names() {
    let result = manifest(
        "test",
        vec![
            placeholder("title", PlaceholderType::String, false),
            placeholder("title", PlaceholderType::String, false),
        ],
    )
    .validate();
    assert!(result.is_err());
    assert!(result.unwrap_err().message().contains("duplicate"));
}

#[test]
fn enum_with_choices_is_accepted() {
    let mut p = placeholder("language", PlaceholderType::Enum, false);
    p.choices = Some(vec!["english".to_string(), "spanish".to_string()]);
    assert!(manifest("t", vec![p]).validate().is_ok());
}

#[test]
fn required_fields_are_checked_in_order() {
    let e = manifest("", vec![]).validate().unwrap_err();
    assert!(matches!(e, ManifestError::IdRequired));
    assert_eq!(e.message(), "Template manifest: id is required");
    let mut m = manifest("x", vec![]);
    m.version = String::new();
    m.display_name = String::new();
    let e = m.validate().unwrap_err();
    assert_eq!(e.message(), "Template manifest: version is required");
    let mut m = manifest("x", vec![]);
    m.display_name = String::new();
    let e = m.validate().unwrap_err();
    assert_eq!(e.message(), "Template manifest: display_name is required");
}

#[test]
fn placeholder_errors_name_the_placeholder() {
    let e = manifest("x", vec![placeholder("", PlaceholderType::String, false)])
        .validate()
        .unwrap_err();
    assert_eq!(e.message(), "Template manifest: placeholder name cannot be empty");
    let e = manifest(
        "x",
        vec![
            placeholder("a", PlaceholderType::String, false),
            placeholder("b", PlaceholderType::Boolean, false),
            placeholder("a", PlaceholderType::Enum, false),
        ],
    )
    .validate()
    .unwrap_err();
    assert_eq!(e.message(), "Template manifest: duplicate placeholder name 'a'");
    let e = manifest("x", vec![placeholder("lang", PlaceholderType::Enum, true)])
        .validate()
        .unwrap_err();
    assert_eq!(e.message(), "Template manifest: enum placeholder 'lang' must have 'choices'");
}

#[test]
fn lookups_by_name_and_requirement() {
    let m = manifest(
        "x",
        vec![
            placeholder("title", PlaceholderType::String, true),
            placeholder("subtitle", PlaceholderType::String, false),
            placeholder("author", PlaceholderType::String, true),
        ],
    );
    assert_eq!(m.get_placeholder("subtitle").unwrap().name, "subtitle");
    assert!(m.get_placeholder("missing").is_none());
    let req: Vec<&str> = m.required_placeholders().iter().map(|p| p.name.as_str()).collect();
    assert_eq!(req, vec!["title", "author"]);
}
