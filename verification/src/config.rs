//! Global user configuration: its sections and dotted-key access.
use vstd::prelude::*;
use crate::text::{
    chars_of, eq_lit, find, find_at, lemma_find_from, lemma_find_skip, occurs_at, opt_view,
    slice_of, string_of, concat_str, lemma_find_first_char, lemma_find_no_char,
};
use crate::linter::{join_path, spec_join_path};
use crate::strmap::{StrMap, assoc_insert, keys_distinct, lemma_insert_lookup, lookup};

verus! {

/// User identity.
#[derive(Clone, Debug)]
pub struct UserConfig {
    pub name: Option<String>,
    pub email: Option<String>,
}

/// Institution details.
#[derive(Clone, Debug)]
pub struct InstitutionConfig {
    pub name: Option<String>,
    pub address: Option<String>,
}

/// Default document settings.
#[derive(Clone, Debug)]
pub struct DefaultsConfig {
    pub documentclass: Option<String>,
    pub fontsize: Option<String>,
    pub papersize: Option<String>,
    pub language: Option<String>,
}

/// Template source settings.
#[derive(Clone, Debug)]
pub struct TemplatesConfig {
    pub source: Option<String>,
    pub auto_update: Option<bool>,
    pub watch: Option<bool>,
}

/// The global configuration (`config.toml`).
#[derive(Clone, Debug)]
pub struct Config {
    pub user: UserConfig,
    pub institution: InstitutionConfig,
    pub defaults: DefaultsConfig,
    pub templates: TemplatesConfig,
}

/// The values a configuration holds.
pub struct ConfigView {
    pub user_name: Option<Seq<char>>,
    pub user_email: Option<Seq<char>>,
    pub institution_name: Option<Seq<char>>,
    pub institution_address: Option<Seq<char>>,
    pub documentclass: Option<Seq<char>>,
    pub fontsize: Option<Seq<char>>,
    pub papersize: Option<Seq<char>>,
    pub language: Option<Seq<char>>,
    pub source: Option<Seq<char>>,
    pub auto_update: Option<bool>,
    pub watch: Option<bool>,
}

impl View for Config {
    type V = ConfigView;

    open spec fn view(&self) -> ConfigView {
        ConfigView {
            user_name: opt_view(self.user.name),
            user_email: opt_view(self.user.email),
            institution_name: opt_view(self.institution.name),
            institution_address: opt_view(self.institution.address),
            documentclass: opt_view(self.defaults.documentclass),
            fontsize: opt_view(self.defaults.fontsize),
            papersize: opt_view(self.defaults.papersize),
            language: opt_view(self.defaults.language),
            source: opt_view(self.templates.source),
            auto_update: self.templates.auto_update,
            watch: self.templates.watch,
        }
    }
}

impl Config {
    /// A configuration with every value unset.
    pub fn empty() -> (c: Config)
        ensures
            c.user.name is None,
            c.user.email is None,
            c.institution.name is None,
            c.institution.address is None,
            c.defaults.documentclass is None,
            c.defaults.fontsize is None,
            c.defaults.papersize is None,
            c.defaults.language is None,
            c.templates.source is None,
            c.templates.auto_update is None,
            c.templates.watch is None,
    {
        Config {
            user: UserConfig { name: None, email: None },
            institution: InstitutionConfig { name: None, address: None },
            defaults: DefaultsConfig {
                documentclass: None,
                fontsize: None,
                papersize: None,
                language: None,
            },
            templates: TemplatesConfig { source: None, auto_update: None, watch: None },
        }
    }
}

/// What went wrong with a configuration key or value.
#[derive(Clone, Debug)]
pub enum ConfigError {
    /// An unknown key in `[user]`; holds the whole key.
    UnknownUserKey(String),
    /// An unknown key in `[institution]`; holds the whole key.
    UnknownInstitutionKey(String),
    /// An unknown key in `[defaults]`; holds the whole key.
    UnknownDefaultsKey(String),
    /// An unknown key in `[templates]`; holds the whole key.
    UnknownTemplatesKey(String),
    /// An unknown section; holds the section name.
    UnknownSection(String),
    /// A value for a boolean key that is neither `true` nor `false`.
    InvalidBool(String),
}

/// The meaning of a `ConfigError`.
pub enum ConfigFault {
    UnknownUserKey(Seq<char>),
    UnknownInstitutionKey(Seq<char>),
    UnknownDefaultsKey(Seq<char>),
    UnknownTemplatesKey(Seq<char>),
    UnknownSection(Seq<char>),
    InvalidBool(Seq<char>),
}

impl View for ConfigError {
    type V = ConfigFault;

    open spec fn view(&self) -> ConfigFault {
        match self {
            ConfigError::UnknownUserKey(k) => ConfigFault::UnknownUserKey(k@),
            ConfigError::UnknownInstitutionKey(k) => ConfigFault::UnknownInstitutionKey(k@),
            ConfigError::UnknownDefaultsKey(k) => ConfigFault::UnknownDefaultsKey(k@),
            ConfigError::UnknownTemplatesKey(k) => ConfigFault::UnknownTemplatesKey(k@),
            ConfigError::UnknownSection(k) => ConfigFault::UnknownSection(k@),
            ConfigError::InvalidBool(k) => ConfigFault::InvalidBool(k@),
        }
    }
}

impl ConfigError {
    /// The error's message.
    pub fn message(&self) -> (r: String)
        ensures
            r@ == match self@ {
                ConfigFault::UnknownUserKey(k) => "Unknown user key: "@ + k,
                ConfigFault::UnknownInstitutionKey(k) => "Unknown institution key: "@ + k,
                ConfigFault::UnknownDefaultsKey(k) => "Unknown defaults key: "@ + k,
                ConfigFault::UnknownTemplatesKey(k) => "Unknown templates key: "@ + k,
                ConfigFault::UnknownSection(k) => "Unknown config section: "@ + k,
                ConfigFault::InvalidBool(_) => "provided string was not `true` or `false`"@,
            },
    {
        match self {
            ConfigError::UnknownUserKey(k) => concat_str("Unknown user key: ", k.as_str()),
            ConfigError::UnknownInstitutionKey(k) => concat_str(
                "Unknown institution key: ",
                k.as_str(),
            ),
            ConfigError::UnknownDefaultsKey(k) => concat_str("Unknown defaults key: ", k.as_str()),
            ConfigError::UnknownTemplatesKey(k) => concat_str(
                "Unknown templates key: ",
                k.as_str(),
            ),
            ConfigError::UnknownSection(k) => concat_str("Unknown config section: ", k.as_str()),
            ConfigError::InvalidBool(_) => string_of(
                chars_of("provided string was not `true` or `false`").as_slice(),
            ),
        }
    }
}

/// The first dot-separated part of a key.
pub open spec fn key_section(key: Seq<char>) -> Seq<char> {
    match find(key, seq!['.']) {
        None => key,
        Some(i) => key.take(i),
    }
}

/// The second dot-separated part of a key, if the key has a dot.
pub open spec fn key_field(key: Seq<char>) -> Option<Seq<char>> {
    match find(key, seq!['.']) {
        None => None,
        Some(i) => {
            let rest = key.skip(i + 1);
            match find(rest, seq!['.']) {
                None => Some(rest),
                Some(j) => Some(rest.take(j)),
            }
        },
    }
}

/// The text of a boolean (`bool::to_string`).
pub open spec fn bool_text(b: bool) -> Seq<char> {
    if b {
        "true"@
    } else {
        "false"@
    }
}

/// An optional boolean as optional text.
pub open spec fn opt_bool_text(b: Option<bool>) -> Option<Seq<char>> {
    match b {
        Some(x) => Some(bool_text(x)),
        None => None,
    }
}

/// The value a dotted key names, or the error for an unknown key.
pub open spec fn spec_get(c: ConfigView, key: Seq<char>) -> Result<Option<Seq<char>>, ConfigFault> {
    let sec = key_section(key);
    let f = key_field(key);
    if sec == "user"@ {
        if f == Some("name"@) {
            Ok(c.user_name)
        } else if f == Some("email"@) {
            Ok(c.user_email)
        } else {
            Err(ConfigFault::UnknownUserKey(key))
        }
    } else if sec == "institution"@ {
        if f == Some("name"@) {
            Ok(c.institution_name)
        } else if f == Some("address"@) {
            Ok(c.institution_address)
        } else {
            Err(ConfigFault::UnknownInstitutionKey(key))
        }
    } else if sec == "defaults"@ {
        if f == Some("documentclass"@) {
            Ok(c.documentclass)
        } else if f == Some("fontsize"@) {
            Ok(c.fontsize)
        } else if f == Some("papersize"@) {
            Ok(c.papersize)
        } else if f == Some("language"@) {
            Ok(c.language)
        } else {
            Err(ConfigFault::UnknownDefaultsKey(key))
        }
    } else if sec == "templates"@ {
        if f == Some("source"@) {
            Ok(c.source)
        } else if f == Some("auto_update"@) {
            Ok(opt_bool_text(c.auto_update))
        } else if f == Some("watch"@) {
            Ok(opt_bool_text(c.watch))
        } else {
            Err(ConfigFault::UnknownTemplatesKey(key))
        }
    } else {
        Err(ConfigFault::UnknownSection(sec))
    }
}

fn split_key(k: &Vec<char>) -> (r: (Vec<char>, Option<Vec<char>>))
    ensures
        r.0@ == key_section(k@),
        match r.1 {
            Some(f) => key_field(k@) == Some(f@),
            None => key_field(k@) is None,
        },
{
    let mut dot: Vec<char> = Vec::new();
    dot.push('.');
    assert(dot@ =~= seq!['.']);
    proof {
        lemma_find_from(k@, seq!['.'], 0);
    }
    match find_at(k, &dot, 0) {
        None => (slice_of(k, 0, k.len()), None),
        Some(i) => {
            assert(occurs_at(k@, seq!['.'], i as int));
            let n = k.len();
            assert(i + 1 <= n);
            let sec = slice_of(k, 0, i);
            proof {
                lemma_find_skip(k@, seq!['.'], i + 1, 0);
                lemma_find_from(k@, seq!['.'], i + 1);
            }
            let f = match find_at(k, &dot, i + 1) {
                None => slice_of(k, i + 1, k.len()),
                Some(j) => slice_of(k, i + 1, j),
            };
            proof {
                assert(k@.skip(i + 1) =~= k@.subrange(i + 1, k@.len() as int));
                if let Some(j) = find(k@.skip(i + 1), seq!['.']) {
                    assert(k@.skip(i + 1).take(j) =~= k@.subrange(i + 1, i + 1 + j));
                }
            }
            assert(k@.take(i as int) =~= sec@);
            (sec, Some(f))
        },
    }
    }

fn is_field(f: &Option<Vec<char>>, lit: &str) -> (r: bool)
    ensures
        r == (match f {
            Some(v) => Some(v@),
            None => None::<Seq<char>>,
        } == Some(lit@)),
{
    match f {
        Some(v) => eq_lit(v, lit),
        None => false,
    }
}

fn copy_opt(o: &Option<String>) -> (r: Option<String>)
    ensures
        opt_view(r) == opt_view(*o),
{
    match o {
        Some(s) => Some(s.clone()),
        None => None,
    }
}

/// The text of a boolean.
pub fn bool_to_string(b: bool) -> (r: String)
    ensures
        r@ == bool_text(b),
{
    if b {
        string_of(chars_of("true").as_slice())
    } else {
        string_of(chars_of("false").as_slice())
    }
}

fn opt_bool_to_string(b: Option<bool>) -> (r: Option<String>)
    ensures
        opt_view(r) == opt_bool_text(b),
{
    match b {
        Some(x) => Some(bool_to_string(x)),
        None => None,
    }
}

/// Get a config value by dotted key (e.g., "user.name", "defaults.fontsize").
pub fn get(config: &Config, key: &str) -> (r: Result<Option<String>, ConfigError>)
    ensures
        match r {
            Ok(v) => spec_get(config@, key@) == Ok::<Option<Seq<char>>, ConfigFault>(opt_view(v)),
            Err(e) => spec_get(config@, key@) == Err::<Option<Seq<char>>, ConfigFault>(e@),
        },
{
    let k = chars_of(key);
    let (sec, f) = split_key(&k);
    let whole = string_of(k.as_slice());
    if eq_lit(&sec, "user") {
        if is_field(&f, "name") {
            Ok(copy_opt(&config.user.name))
        } else if is_field(&f, "email") {
            Ok(copy_opt(&config.user.email))
        } else {
            Err(ConfigError::UnknownUserKey(whole))
        }
    } else if eq_lit(&sec, "institution") {
        if is_field(&f, "name") {
            Ok(copy_opt(&config.institution.name))
        } else if is_field(&f, "address") {
            Ok(copy_opt(&config.institution.address))
        } else {
            Err(ConfigError::UnknownInstitutionKey(whole))
        }
    } else if eq_lit(&sec, "defaults") {
        if is_field(&f, "documentclass") {
            Ok(copy_opt(&config.defaults.documentclass))
        } else if is_field(&f, "fontsize") {
            Ok(copy_opt(&config.defaults.fontsize))
        } else if is_field(&f, "papersize") {
            Ok(copy_opt(&config.defaults.papersize))
        } else if is_field(&f, "language") {
            Ok(copy_opt(&config.defaults.language))
        } else {
            Err(ConfigError::UnknownDefaultsKey(whole))
        }
    } else if eq_lit(&sec, "templates") {
        if is_field(&f, "source") {
            Ok(copy_opt(&config.templates.source))
        } else if is_field(&f, "auto_update") {
            Ok(opt_bool_to_string(config.templates.auto_update))
        } else if is_field(&f, "watch") {
            Ok(opt_bool_to_string(config.templates.watch))
        } else {
            Err(ConfigError::UnknownTemplatesKey(whole))
        }
    } else {
        Err(ConfigError::UnknownSection(string_of(sec.as_slice())))
    }
}

/// `s` with `k` mapped to `v` when `v` is present.
pub open spec fn insert_present(
    s: Seq<(Seq<char>, Seq<char>)>,
    k: Seq<char>,
    v: Option<Seq<char>>,
) -> Seq<(Seq<char>, Seq<char>)> {
    match v {
        Some(x) => assoc_insert(s, k, x),
        None => s,
    }
}

/// Every set value under its dotted key, in section order.
pub open spec fn spec_list_all(c: ConfigView) -> Seq<(Seq<char>, Seq<char>)> {
    let s0 = Seq::<(Seq<char>, Seq<char>)>::empty();
    let s1 = insert_present(s0, "user.name"@, c.user_name);
    let s2 = insert_present(s1, "user.email"@, c.user_email);
    let s3 = insert_present(s2, "institution.name"@, c.institution_name);
    let s4 = insert_present(s3, "institution.address"@, c.institution_address);
    let s5 = insert_present(s4, "defaults.documentclass"@, c.documentclass);
    let s6 = insert_present(s5, "defaults.fontsize"@, c.fontsize);
    let s7 = insert_present(s6, "defaults.papersize"@, c.papersize);
    let s8 = insert_present(s7, "defaults.language"@, c.language);
    let s9 = insert_present(s8, "templates.source"@, c.source);
    let s10 = insert_present(s9, "templates.auto_update"@, opt_bool_text(c.auto_update));
    insert_present(s10, "templates.watch"@, opt_bool_text(c.watch))
}

fn insert_opt(m: &mut StrMap, k: &str, v: Option<String>)
    ensures
        final(m)@ == insert_present(old(m)@, k@, opt_view(v)),
{
    match v {
        Some(x) => {
            let key = string_of(chars_of(k).as_slice());
            m.insert(key, x);
        },
        None => {},
    }
}

/// List all configuration values as a flat map from dotted keys to values.
pub fn list_all(config: &Config) -> (m: StrMap)
    ensures
        m@ == spec_list_all(config@),
{
    let mut m = StrMap::new();
    insert_opt(&mut m, "user.name", copy_opt(&config.user.name));
    insert_opt(&mut m, "user.email", copy_opt(&config.user.email));
    insert_opt(&mut m, "institution.name", copy_opt(&config.institution.name));
    insert_opt(&mut m, "institution.address", copy_opt(&config.institution.address));
    insert_opt(&mut m, "defaults.documentclass", copy_opt(&config.defaults.documentclass));
    insert_opt(&mut m, "defaults.fontsize", copy_opt(&config.defaults.fontsize));
    insert_opt(&mut m, "defaults.papersize", copy_opt(&config.defaults.papersize));
    insert_opt(&mut m, "defaults.language", copy_opt(&config.defaults.language));
    insert_opt(&mut m, "templates.source", copy_opt(&config.templates.source));
    insert_opt(&mut m, "templates.auto_update", opt_bool_to_string(config.templates.auto_update));
    insert_opt(&mut m, "templates.watch", opt_bool_to_string(config.templates.watch));
    m
}

/// `bool::from_str`: exactly `true` or `false`.
pub open spec fn parse_bool_spec(v: Seq<char>) -> Option<bool> {
    if v == "true"@ {
        Some(true)
    } else if v == "false"@ {
        Some(false)
    } else {
        None
    }
}

/// The configuration after setting a dotted key, or the error.
pub open spec fn spec_set(c: ConfigView, key: Seq<char>, value: Seq<char>) -> Result<
    ConfigView,
    ConfigFault,
> {
    let sec = key_section(key);
    let f = key_field(key);
    let v = Some(value);
    if sec == "user"@ {
        if f == Some("name"@) {
            Ok(ConfigView { user_name: v, ..c })
        } else if f == Some("email"@) {
            Ok(ConfigView { user_email: v, ..c })
        } else {
            Err(ConfigFault::UnknownUserKey(key))
        }
    } else if sec == "institution"@ {
        if f == Some("name"@) {
            Ok(ConfigView { institution_name: v, ..c })
        } else if f == Some("address"@) {
            Ok(ConfigView { institution_address: v, ..c })
        } else {
            Err(ConfigFault::UnknownInstitutionKey(key))
        }
    } else if sec == "defaults"@ {
        if f == Some("documentclass"@) {
            Ok(ConfigView { documentclass: v, ..c })
        } else if f == Some("fontsize"@) {
            Ok(ConfigView { fontsize: v, ..c })
        } else if f == Some("papersize"@) {
            Ok(ConfigView { papersize: v, ..c })
        } else if f == Some("language"@) {
            Ok(ConfigView { language: v, ..c })
        } else {
            Err(ConfigFault::UnknownDefaultsKey(key))
        }
    } else if sec == "templates"@ {
        if f == Some("source"@) {
            Ok(ConfigView { source: v, ..c })
        } else if f == Some("auto_update"@) {
            match parse_bool_spec(value) {
                Some(b) => Ok(ConfigView { auto_update: Some(b), ..c }),
                None => Err(ConfigFault::InvalidBool(value)),
            }
        } else if f == Some("watch"@) {
            match parse_bool_spec(value) {
                Some(b) => Ok(ConfigView { watch: Some(b), ..c }),
                None => Err(ConfigFault::InvalidBool(value)),
            }
        } else {
            Err(ConfigFault::UnknownTemplatesKey(key))
        }
    } else {
        Err(ConfigFault::UnknownSection(sec))
    }
}

/// `bool::from_str`.
pub fn parse_bool(v: &Vec<char>) -> (r: Option<bool>)
    ensures
        r == parse_bool_spec(v@),
{
    if eq_lit(v, "true") {
        Some(true)
    } else if eq_lit(v, "false") {
        Some(false)
    } else {
        None
    }
}

/// Set a config value by dotted key. On an error the configuration is unchanged.
pub fn set(config: &mut Config, key: &str, value: &str) -> (r: Result<(), ConfigError>)
    ensures
        match r {
            Ok(_) => spec_set(old(config)@, key@, value@) == Ok::<ConfigView, ConfigFault>(
                final(config)@,
            ),
            Err(e) => spec_set(old(config)@, key@, value@) == Err::<ConfigView, ConfigFault>(e@)
                && final(config)@ == old(config)@,
        },
{
    let k = chars_of(key);
    let vc = chars_of(value);
    let (sec, f) = split_key(&k);
    let whole = string_of(k.as_slice());
    let v = string_of(vc.as_slice());
    if eq_lit(&sec, "user") {
        if is_field(&f, "name") {
            config.user.name = Some(v);
        } else if is_field(&f, "email") {
            config.user.email = Some(v);
        } else {
            return Err(ConfigError::UnknownUserKey(whole));
        }
    } else if eq_lit(&sec, "institution") {
        if is_field(&f, "name") {
            config.institution.name = Some(v);
        } else if is_field(&f, "address") {
            config.institution.address = Some(v);
        } else {
            return Err(ConfigError::UnknownInstitutionKey(whole));
        }
    } else if eq_lit(&sec, "defaults") {
        if is_field(&f, "documentclass") {
            config.defaults.documentclass = Some(v);
        } else if is_field(&f, "fontsize") {
            config.defaults.fontsize = Some(v);
        } else if is_field(&f, "papersize") {
            config.defaults.papersize = Some(v);
        } else if is_field(&f, "language") {
            config.defaults.language = Some(v);
        } else {
            return Err(ConfigError::UnknownDefaultsKey(whole));
        }
    } else if eq_lit(&sec, "templates") {
        if is_field(&f, "source") {
            config.templates.source = Some(v);
        } else if is_field(&f, "auto_update") {
            match parse_bool(&vc) {
                Some(b) => {
                    config.templates.auto_update = Some(b);
                },
                None => {
                    return Err(ConfigError::InvalidBool(v));
                },
            }
        } else if is_field(&f, "watch") {
            match parse_bool(&vc) {
                Some(b) => {
                    config.templates.watch = Some(b);
                },
                None => {
                    return Err(ConfigError::InvalidBool(v));
                },
            }
        } else {
            return Err(ConfigError::UnknownTemplatesKey(whole));
        }
    } else {
        return Err(ConfigError::UnknownSection(string_of(sec.as_slice())));
    }
    Ok(())
}

/// A value written with `set` is what `get` reads back for that key; the
/// `set` fails exactly where `get` fails, or on a boolean key with a value
/// other than `true`/`false`.
pub proof fn lemma_get_after_set(c: ConfigView, key: Seq<char>, value: Seq<char>)
    ensures
        spec_set(c, key, value) matches Ok(c2) ==> spec_get(c2, key) == Ok::<
            Option<Seq<char>>,
            ConfigFault,
        >(Some(value)),
        spec_get(c, key) is Err <==> (spec_set(c, key, value) is Err && !(spec_set(
            c,
            key,
            value,
        ) matches Err(ConfigFault::InvalidBool(_)))),
{
    reveal_strlit("true");
    reveal_strlit("false");
}

/// Setting one key leaves every other readable key unchanged.
pub proof fn lemma_set_preserves_others(
    c: ConfigView,
    key: Seq<char>,
    value: Seq<char>,
    other: Seq<char>,
)
    requires
        spec_set(c, key, value) is Ok,
        spec_get(c, other) is Ok,
        key_section(other) != key_section(key) || key_field(other) != key_field(key),
    ensures
        spec_get(spec_set(c, key, value)->Ok_0, other) == spec_get(c, other),
{
}

/// Where `config.toml` lives: `texforge/config.toml` under
/// `$XDG_CONFIG_HOME` when it is set, else `.texforge/config.toml` under the
/// home directory; none when neither is known.
pub open spec fn spec_config_path(xdg: Option<Seq<char>>, home: Option<Seq<char>>) -> Option<
    Seq<char>,
> {
    match xdg {
        Some(x) => Some(spec_join_path(x, "texforge/config.toml"@)),
        None => match home {
            Some(h) => Some(spec_join_path(h, ".texforge/config.toml"@)),
            None => None,
        },
    }
}

/// Where `config.toml` lives, given `$XDG_CONFIG_HOME` and the home
/// directory where they are known.
pub fn config_path(xdg: Option<&str>, home: Option<&str>) -> (r: Option<String>)
    ensures
        opt_view(r) == spec_config_path(
            match xdg {
                Some(x) => Some(x@),
                None => None,
            },
            match home {
                Some(h) => Some(h@),
                None => None,
            },
        ),
{
    match xdg {
        Some(x) => Some(join_path(x, "texforge/config.toml")),
        None => match home {
            Some(h) => Some(join_path(h, ".texforge/config.toml")),
            None => None,
        },
    }
}

/// A key made of a section, a dot and a field, neither holding a dot, has
/// that section and that field.
pub proof fn lemma_split_key(key: Seq<char>, sec: Seq<char>, field: Seq<char>)
    requires
        key == sec + seq!['.'] + field,
        forall|i: int| 0 <= i < sec.len() ==> sec[i] != '.',
        forall|i: int| 0 <= i < field.len() ==> field[i] != '.',
    ensures
        key_section(key) == sec,
        key_field(key) == Some(field),
{
    assert forall|i: int| 0 <= i < sec.len() implies key[i] != '.' by {
        assert(key[i] == sec[i]);
    }
    lemma_find_first_char(key, '.', sec.len() as int);
    assert(key.take(sec.len() as int) =~= sec);
    assert(key.skip(sec.len() as int + 1) =~= field);
    lemma_find_no_char(field, '.');
}

/// The dotted keys that `list_all` lists, in its order.
pub open spec fn listed_keys() -> Seq<Seq<char>> {
    seq![
        "user.name"@,
        "user.email"@,
        "institution.name"@,
        "institution.address"@,
        "defaults.documentclass"@,
        "defaults.fontsize"@,
        "defaults.papersize"@,
        "defaults.language"@,
        "templates.source"@,
        "templates.auto_update"@,
        "templates.watch"@,
    ]
}

proof fn lemma_insert_present(
    s: Seq<(Seq<char>, Seq<char>)>,
    k: Seq<char>,
    v: Option<Seq<char>>,
    q: Seq<char>,
)
    requires
        keys_distinct(s),
    ensures
        keys_distinct(insert_present(s, k, v)),
        lookup(insert_present(s, k, v), q) == if q == k && v is Some {
            v
        } else {
            lookup(s, q)
        },
{
    if let Some(x) = v {
        lemma_insert_lookup(s, k, x);
    }
}

/// `list_all` and `get` agree: each key that `list_all` can list is read by
/// `get` without error, and `list_all` maps it to the value `get` reads
/// (leaving it out when unset); no other key is listed.
pub proof fn lemma_list_all_agrees_with_get(c: ConfigView, q: Seq<char>)
    ensures
        listed_keys().contains(q) ==> spec_get(c, q) is Ok && lookup(spec_list_all(c), q)
            == spec_get(c, q)->Ok_0,
        !listed_keys().contains(q) ==> lookup(spec_list_all(c), q) is None,
{
    reveal_strlit("user.name");
    reveal_strlit("user.email");
    reveal_strlit("institution.name");
    reveal_strlit("institution.address");
    reveal_strlit("defaults.documentclass");
    reveal_strlit("defaults.fontsize");
    reveal_strlit("defaults.papersize");
    reveal_strlit("defaults.language");
    reveal_strlit("templates.source");
    reveal_strlit("templates.auto_update");
    reveal_strlit("templates.watch");
    let k = listed_keys();
    let s0 = Seq::<(Seq<char>, Seq<char>)>::empty();
    assert(keys_distinct(s0));
    let s1 = insert_present(s0, k[0], c.user_name);
    let s2 = insert_present(s1, k[1], c.user_email);
    let s3 = insert_present(s2, k[2], c.institution_name);
    let s4 = insert_present(s3, k[3], c.institution_address);
    let s5 = insert_present(s4, k[4], c.documentclass);
    let s6 = insert_present(s5, k[5], c.fontsize);
    let s7 = insert_present(s6, k[6], c.papersize);
    let s8 = insert_present(s7, k[7], c.language);
    let s9 = insert_present(s8, k[8], c.source);
    let s10 = insert_present(s9, k[9], opt_bool_text(c.auto_update));
    let s11 = insert_present(s10, k[10], opt_bool_text(c.watch));
    assert(s11 == spec_list_all(c));
    lemma_insert_present(s0, k[0], c.user_name, q);
    lemma_insert_present(s1, k[1], c.user_email, q);
    lemma_insert_present(s2, k[2], c.institution_name, q);
    lemma_insert_present(s3, k[3], c.institution_address, q);
    lemma_insert_present(s4, k[4], c.documentclass, q);
    lemma_insert_present(s5, k[5], c.fontsize, q);
    lemma_insert_present(s6, k[6], c.papersize, q);
    lemma_insert_present(s7, k[7], c.language, q);
    lemma_insert_present(s8, k[8], c.source, q);
    lemma_insert_present(s9, k[9], opt_bool_text(c.auto_update), q);
    lemma_insert_present(s10, k[10], opt_bool_text(c.watch), q);
    assert(lookup(s0, q) is None);
    assert forall|i: int, j: int| 0 <= i < j < 11 implies k[i] != k[j] by {
        if k[i] == k[j] {
            assert(k[i].len() == k[j].len());
            assert(k[i][0] == k[j][0]);
            assert(k[i][9] == k[j][9]);
            assert(k[i][10] == k[j][10]);
        }
    }
    if listed_keys().contains(q) {
        let i = choose|i: int| 0 <= i < k.len() && k[i] == q;
        lemma_listed_get(c, i, seq![]);
    }
}

/// The values of the listed keys, in the same order.
pub open spec fn listed_values(c: ConfigView) -> Seq<Option<Seq<char>>> {
    seq![
        c.user_name,
        c.user_email,
        c.institution_name,
        c.institution_address,
        c.documentclass,
        c.fontsize,
        c.papersize,
        c.language,
        c.source,
        opt_bool_text(c.auto_update),
        opt_bool_text(c.watch),
    ]
}

/// `get` reads the `i`-th listed key without error, and `set` writes it
/// (the boolean keys with `true` or `false`).
pub proof fn lemma_listed_get(c: ConfigView, i: int, v: Seq<char>)
    requires
        0 <= i < 11,
    ensures
        spec_get(c, listed_keys()[i]) == Ok::<Option<Seq<char>>, ConfigFault>(listed_values(c)[i]),
        (i < 9 || parse_bool_spec(v) is Some) ==> spec_set(c, listed_keys()[i], v) is Ok,
{
    reveal_strlit("user.name");
    reveal_strlit("user.email");
    reveal_strlit("institution.name");
    reveal_strlit("institution.address");
    reveal_strlit("defaults.documentclass");
    reveal_strlit("defaults.fontsize");
    reveal_strlit("defaults.papersize");
    reveal_strlit("defaults.language");
    reveal_strlit("templates.source");
    reveal_strlit("templates.auto_update");
    reveal_strlit("templates.watch");
    reveal_strlit("user");
    reveal_strlit("institution");
    reveal_strlit("defaults");
    reveal_strlit("templates");
    reveal_strlit("name");
    reveal_strlit("email");
    reveal_strlit("address");
    reveal_strlit("documentclass");
    reveal_strlit("fontsize");
    reveal_strlit("papersize");
    reveal_strlit("language");
    reveal_strlit("source");
    reveal_strlit("auto_update");
    reveal_strlit("watch");
    let k = listed_keys();
    let (sec, f) = if i == 0 {
        ("user"@, "name"@)
    } else if i == 1 {
        ("user"@, "email"@)
    } else if i == 2 {
        ("institution"@, "name"@)
    } else if i == 3 {
        ("institution"@, "address"@)
    } else if i == 4 {
        ("defaults"@, "documentclass"@)
    } else if i == 5 {
        ("defaults"@, "fontsize"@)
    } else if i == 6 {
        ("defaults"@, "papersize"@)
    } else if i == 7 {
        ("defaults"@, "language"@)
    } else if i == 8 {
        ("templates"@, "source"@)
    } else if i == 9 {
        ("templates"@, "auto_update"@)
    } else {
        ("templates"@, "watch"@)
    };
    assert(k[i] =~= sec + seq!['.'] + f);
    lemma_split_key(k[i], sec, f);
    assert("user"@[0] != "institution"@[0]);
    assert("user"@[0] != "defaults"@[0]);
    assert("user"@[0] != "templates"@[0]);
    assert("institution"@[0] != "defaults"@[0]);
    assert("institution"@[0] != "templates"@[0]);
    assert("defaults"@[0] != "templates"@[0]);
    assert("name"@[0] != "email"@[0]);
    assert("name"@[0] != "address"@[0]);
    assert("documentclass"@[0] != "fontsize"@[0]);
    assert("documentclass"@[0] != "papersize"@[0]);
    assert("documentclass"@[0] != "language"@[0]);
    assert("fontsize"@[0] != "papersize"@[0]);
    assert("fontsize"@[0] != "language"@[0]);
    assert("papersize"@[0] != "language"@[0]);
    assert("source"@[0] != "auto_update"@[0]);
    assert("source"@[0] != "watch"@[0]);
    assert("auto_update"@[0] != "watch"@[0]);
}

/// Setting any listed key succeeds (the boolean keys `templates.auto_update`
/// and `templates.watch` with `true` or `false`), and `get` then reads the
/// value back.
pub proof fn lemma_set_listed(c: ConfigView, key: Seq<char>, value: Seq<char>)
    requires
        listed_keys().contains(key),
        key == "templates.auto_update"@ || key == "templates.watch"@ ==> value == "true"@ || value
            == "false"@,
    ensures
        spec_set(c, key, value) is Ok,
        spec_get(spec_set(c, key, value)->Ok_0, key) == Ok::<Option<Seq<char>>, ConfigFault>(
            Some(value),
        ),
{
    let k = listed_keys();
    let i = choose|i: int| 0 <= i < k.len() && k[i] == key;
    reveal_strlit("true");
    reveal_strlit("false");
    assert(i >= 9 ==> key == "templates.auto_update"@ || key == "templates.watch"@);
    lemma_listed_get(c, i, value);
    lemma_get_after_set(c, key, value);
}

} // verus!
