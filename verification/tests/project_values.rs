use texforge::project_values::{flatten_toml, project_values, TomlEntry, TomlTable, TomlValue};
use texforge::strmap::StrMap;

fn entry(key: &str, value: TomlValue) -> TomlEntry {
    TomlEntry { key: key.to_string(), value }
}

#[test]
fn nested_tables_flatten_to_dotted_keys() {
    let table = TomlTable {
        entries: vec![
            entry("title", TomlValue::Text("T".to_string())),
            entry(
                "meta",
                TomlValue::Table(TomlTable {
                    entries: vec![
                        entry("year", TomlValue::Other),
                        entry("draft", TomlValue::Flag(true)),
                        entry(
                            "sub",
                            TomlValue::Table(TomlTable {
                                entries: vec![entry("x", TomlValue::Text("1".to_string()))],
                            }),
                        ),
                    ],
                }),
            ),
            entry("count", TomlValue::Other),
        ],
    };
    let m = project_values(&table);
    assert_eq!(m.len(), 3);
    assert_eq!(m.get("title"), Some("T".to_string()));
    assert_eq!(m.get("meta.draft"), Some("true".to_string()));
    assert_eq!(m.get("meta.sub.x"), Some("1".to_string()));
    assert!(!m.contains_key("meta.year"));
    assert!(!m.contains_key("count"));
}

#[test]
fn flattening_under_a_prefix_overwrites_existing_keys() {
    let table = TomlTable {
        entries: vec![
            entry("name", TomlValue::Text("new".to_string())),
            entry("watch", TomlValue::Flag(false)),
        ],
    };
    let mut m = StrMap::new();
    m.insert("user.name".to_string(), "old".to_string());
    flatten_toml(&table, "user", &mut m);
    assert_eq!(m.len(), 2);
    assert_eq!(m.get("user.name"), Some("new".to_string()));
    assert_eq!(m.get("user.watch"), Some("false".to_string()));
}
