use texforge::config::{config_path, get, list_all, Config, ConfigError};

#[test]
fn set_then_get_reads_the_value() {
    let mut c = Config::empty();
    texforge::config::set(&mut c, "user.name", "Jane Doe").unwrap();
    assert_eq!(get(&c, "user.name").unwrap(), Some("Jane Doe".to_string()));
    texforge::config::set(&mut c, "defaults.fontsize", "11pt").unwrap();
    assert_eq!(get(&c, "defaults.fontsize").unwrap(), Some("11pt".to_string()));
    assert_eq!(get(&c, "user.name").unwrap(), Some("Jane Doe".to_string()));
}

#[test]
fn unset_value_reads_as_none() {
    let c = Config::empty();
    assert_eq!(get(&c, "institution.address").unwrap(), None);
}

#[test]
fn boolean_keys_take_true_or_false() {
    let mut c = Config::empty();
    texforge::config::set(&mut c, "templates.auto_update", "true").unwrap();
    assert_eq!(c.templates.auto_update, Some(true));
    assert_eq!(get(&c, "templates.auto_update").unwrap(), Some("true".to_string()));
    let e = texforge::config::set(&mut c, "templates.watch", "yes").unwrap_err();
    assert!(matches!(e, ConfigError::InvalidBool(_)));
    assert_eq!(e.message(), "provided string was not `true` or `false`");
    assert_eq!(c.templates.watch, None);
}

#[test]
fn unknown_keys_are_errors() {
    let mut c = Config::empty();
    let e = get(&c, "foo.bar").unwrap_err();
    assert_eq!(e.message(), "Unknown config section: foo");
    let e = get(&c, "user.age").unwrap_err();
    assert_eq!(e.message(), "Unknown user key: user.age");
    let e = texforge::config::set(&mut c, "institution", "X").unwrap_err();
    assert_eq!(e.message(), "Unknown institution key: institution");
    let e = texforge::config::set(&mut c, "defaults.color", "red").unwrap_err();
    assert_eq!(e.message(), "Unknown defaults key: defaults.color");
    let e = get(&c, "templates.x").unwrap_err();
    assert_eq!(e.message(), "Unknown templates key: templates.x");
    assert_eq!(c.user.name, None);
    assert_eq!(c.institution.name, None);
}

#[test]
fn list_all_gives_set_values_in_section_order() {
    let mut c = Config::empty();
    texforge::config::set(&mut c, "templates.watch", "false").unwrap();
    texforge::config::set(&mut c, "user.email", "john@example.com").unwrap();
    texforge::config::set(&mut c, "user.name", "John Doe").unwrap();
    let m = list_all(&c);
    assert_eq!(m.len(), 3);
    assert_eq!(m.key_at(0), "user.name");
    assert_eq!(m.value_at(0), "John Doe");
    assert_eq!(m.key_at(1), "user.email");
    assert_eq!(m.key_at(2), "templates.watch");
    assert_eq!(m.get("templates.watch"), Some("false".to_string()));
    assert_eq!(m.get("user.email"), Some("john@example.com".to_string()));
    assert!(!m.contains_key("institution.name"));
}

#[test]
fn list_all_agrees_with_get() {
    let mut c = Config::empty();
    texforge::config::set(&mut c, "user.name", "Ana").unwrap();
    texforge::config::set(&mut c, "defaults.papersize", "a4").unwrap();
    texforge::config::set(&mut c, "templates.auto_update", "false").unwrap();
    let m = list_all(&c);
    for i in 0..m.len() {
        assert_eq!(get(&c, m.key_at(i)).unwrap(), Some(m.value_at(i).clone()));
    }
    for key in ["user.email", "institution.name", "defaults.language", "templates.watch"] {
        assert_eq!(get(&c, key).unwrap(), None);
        assert!(!m.contains_key(key));
    }
}

#[test]
fn config_file_location() {
    assert_eq!(config_path(Some("/xdg"), Some("/home/u")), Some("/xdg/texforge/config.toml".to_string()));
    assert_eq!(config_path(None, Some("/home/u")), Some("/home/u/.texforge/config.toml".to_string()));
    assert_eq!(config_path(Some(""), None), Some("texforge/config.toml".to_string()));
    assert_eq!(config_path(None, None), None);
}

#[test]
fn every_listed_key_can_be_set_and_read_back() {
    let mut c = Config::empty();
    let keys = [
        "user.name",
        "user.email",
        "institution.name",
        "institution.address",
        "defaults.documentclass",
        "defaults.fontsize",
        "defaults.papersize",
        "defaults.language",
        "templates.source",
    ];
    for k in keys {
        texforge::config::set(&mut c, k, "v").unwrap();
        assert_eq!(get(&c, k).unwrap(), Some("v".to_string()));
    }
    for k in ["templates.auto_update", "templates.watch"] {
        texforge::config::set(&mut c, k, "true").unwrap();
        assert_eq!(get(&c, k).unwrap(), Some("true".to_string()));
    }
}
