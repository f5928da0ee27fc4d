//! The `config` command: short keys (`name`, `email`, `institution`,
//! `language`), the listing and the wizard's answers.
use vstd::prelude::*;
use crate::config::{lemma_split_key, spec_get, spec_set, Config, ConfigFault, ConfigView};
use crate::text::{chars_of, concat_str, eq_lit, string_of};

verus! {

/// The keys that the `config` command knows.
#[derive(PartialEq, Eq, Structural, Clone, Copy, Debug)]
pub enum SettingKey {
    Name,
    Email,
    Institution,
    Language,
}

/// The setting a key names, if it is one of the four.
pub open spec fn setting_key(k: Seq<char>) -> Option<SettingKey> {
    if k == "name"@ {
        Some(SettingKey::Name)
    } else if k == "email"@ {
        Some(SettingKey::Email)
    } else if k == "institution"@ {
        Some(SettingKey::Institution)
    } else if k == "language"@ {
        Some(SettingKey::Language)
    } else {
        None
    }
}

/// The value a setting holds.
pub open spec fn setting_value(c: ConfigView, k: SettingKey) -> Option<Seq<char>> {
    match k {
        SettingKey::Name => c.user_name,
        SettingKey::Email => c.user_email,
        SettingKey::Institution => c.institution_name,
        SettingKey::Language => c.language,
    }
}

/// The configuration with one setting given a value.
pub open spec fn with_setting(c: ConfigView, k: SettingKey, v: Seq<char>) -> ConfigView {
    match k {
        SettingKey::Name => ConfigView { user_name: Some(v), ..c },
        SettingKey::Email => ConfigView { user_email: Some(v), ..c },
        SettingKey::Institution => ConfigView { institution_name: Some(v), ..c },
        SettingKey::Language => ConfigView { language: Some(v), ..c },
    }
}

/// How a value is shown: itself, or `(not set)`.
pub open spec fn shown(v: Option<Seq<char>>) -> Seq<char> {
    match v {
        Some(s) => s,
        None => "(not set)"@,
    }
}

/// A key that the `config` command does not know; holds the key.
#[derive(Clone, Debug)]
pub enum SettingError {
    UnknownKey(String),
}

impl SettingError {
    /// The error's message.
    pub fn message(&self) -> (r: String)
        ensures
            r@ == match self {
                SettingError::UnknownKey(k) => "Unknown config key: "@ + k@
                    + ". Available: name, email, institution, language"@,
            },
    {
        match self {
            SettingError::UnknownKey(k) => {
                let a = concat_str("Unknown config key: ", k.as_str());
                concat_str(a.as_str(), ". Available: name, email, institution, language")
            },
        }
    }
}

/// Which of the four settings `key` names.
pub fn parse_setting_key(key: &str) -> (r: Option<SettingKey>)
    ensures
        r == setting_key(key@),
{
    let k = chars_of(key);
    if eq_lit(&k, "name") {
        Some(SettingKey::Name)
    } else if eq_lit(&k, "email") {
        Some(SettingKey::Email)
    } else if eq_lit(&k, "institution") {
        Some(SettingKey::Institution)
    } else if eq_lit(&k, "language") {
        Some(SettingKey::Language)
    } else {
        None
    }
}

fn show(v: &Option<String>) -> (r: String)
    ensures
        r@ == shown(match v {
            Some(s) => Some(s@),
            None => None,
        }),
{
    match v {
        Some(s) => s.clone(),
        None => {
            proof {
                reveal_strlit("(not set)");
            }
            "(not set)".to_string()
        },
    }
}

/// The text that `config <key>` prints for a setting.
pub fn get(config: &Config, key: &str) -> (r: Result<String, SettingError>)
    ensures
        match setting_key(key@) {
            Some(k) => r matches Ok(s) && s@ == shown(setting_value(config@, k)),
            None => r matches Err(SettingError::UnknownKey(s)) && s@ == key@,
        },
{
    match parse_setting_key(key) {
        Some(SettingKey::Name) => Ok(show(&config.user.name)),
        Some(SettingKey::Email) => Ok(show(&config.user.email)),
        Some(SettingKey::Institution) => Ok(show(&config.institution.name)),
        Some(SettingKey::Language) => Ok(show(&config.defaults.language)),
        None => Err(SettingError::UnknownKey(key.to_string())),
    }
}

/// `config <key> <value>`: set the setting and return the confirmation
/// `✓ Set <key> = <value>`. On an unknown key the configuration is unchanged.
pub fn set(config: &mut Config, key: &str, value: &str) -> (r: Result<String, SettingError>)
    ensures
        match setting_key(key@) {
            Some(k) => r matches Ok(s) && s@ == "✓ Set "@ + key@ + " = "@ + value@
                && final(config)@ == with_setting(old(config)@, k, value@),
            None => r matches Err(SettingError::UnknownKey(s)) && s@ == key@ && final(config)@
                == old(config)@,
        },
{
    let v = value.to_string();
    match parse_setting_key(key) {
        Some(SettingKey::Name) => {
            config.user.name = Some(v);
        },
        Some(SettingKey::Email) => {
            config.user.email = Some(v);
        },
        Some(SettingKey::Institution) => {
            config.institution.name = Some(v);
        },
        Some(SettingKey::Language) => {
            config.defaults.language = Some(v);
        },
        None => {
            return Err(SettingError::UnknownKey(key.to_string()));
        },
    }
    let a = concat_str("✓ Set ", key);
    let b = concat_str(a.as_str(), " = ");
    Ok(concat_str(b.as_str(), value))
}

/// The text that `config list` prints.
pub open spec fn listing(c: ConfigView) -> Seq<char> {
    "Global configuration:\n\n"@ + "[User]\n"@ + "  name       = "@ + shown(c.user_name) + "\n"@
        + "  email      = "@ + shown(c.user_email) + "\n"@ + "\n"@ + "[Institution]\n"@
        + "  name       = "@ + shown(c.institution_name) + "\n"@ + "\n"@ + "[Defaults]\n"@
        + "  language   = "@ + shown(c.language) + "\n"@
}

/// The text that `config list` prints.
pub fn list(config: &Config) -> (r: String)
    ensures
        r@ == listing(config@),
{
    let s0 = concat_str("Global configuration:\n\n", "[User]\n");
    let s1 = concat_str(s0.as_str(), "  name       = ");
    let s2 = concat_str(s1.as_str(), show(&config.user.name).as_str());
    let s3 = concat_str(s2.as_str(), "\n");
    let s4 = concat_str(s3.as_str(), "  email      = ");
    let s5 = concat_str(s4.as_str(), show(&config.user.email).as_str());
    let s6 = concat_str(s5.as_str(), "\n");
    let s7 = concat_str(s6.as_str(), "\n");
    let s8 = concat_str(s7.as_str(), "[Institution]\n");
    let s9 = concat_str(s8.as_str(), "  name       = ");
    let s10 = concat_str(s9.as_str(), show(&config.institution.name).as_str());
    let s11 = concat_str(s10.as_str(), "\n");
    let s12 = concat_str(s11.as_str(), "\n");
    let s13 = concat_str(s12.as_str(), "[Defaults]\n");
    let s14 = concat_str(s13.as_str(), "  language   = ");
    let s15 = concat_str(s14.as_str(), show(&config.defaults.language).as_str());
    concat_str(s15.as_str(), "\n")
}

/// The languages the wizard offers, in the order offered.
pub open spec fn available_languages() -> Seq<Seq<char>> {
    seq![
        "english"@,
        "spanish"@,
        "french"@,
        "german"@,
        "portuguese"@,
        "italian"@,
        "dutch"@,
        "russian"@,
        "chinese"@,
        "japanese"@,
    ]
}

/// The languages the wizard offers, in the order offered.
pub fn language_options() -> (r: Vec<String>)
    ensures
        r@.len() == available_languages().len(),
        forall|i: int| 0 <= i < r@.len() ==> #[trigger] r@[i]@ == available_languages()[i],
{
    let names = [
        "english",
        "spanish",
        "french",
        "german",
        "portuguese",
        "italian",
        "dutch",
        "russian",
        "chinese",
        "japanese",
    ];
    let mut r: Vec<String> = Vec::new();
    let mut i: usize = 0;
    while i < names.len()
        invariant
            names@.len() == 10,
            i <= 10,
            r@.len() == i,
            forall|j: int| 0 <= j < i ==> #[trigger] r@[j]@ == names@[j]@,
        decreases 10 - i,
    {
        r.push(names[i].to_string());
        i = i + 1;
    }
    proof {
        reveal_strlit("english");
        reveal_strlit("spanish");
        reveal_strlit("french");
        reveal_strlit("german");
        reveal_strlit("portuguese");
        reveal_strlit("italian");
        reveal_strlit("dutch");
        reveal_strlit("russian");
        reveal_strlit("chinese");
        reveal_strlit("japanese");
    }
    r
}

/// What the wizard proposes before asking: the current values (empty where
/// unset), the current language or `english`, and whether that language is
/// one of those offered (then the language question may be skipped).
#[derive(Clone, Debug)]
pub struct WizardDefaults {
    pub name: String,
    pub email: String,
    pub institution: String,
    pub language: String,
    pub language_offered: bool,
}

/// A value, or the empty text when unset.
pub open spec fn or_empty(v: Option<Seq<char>>) -> Seq<char> {
    match v {
        Some(s) => s,
        None => Seq::empty(),
    }
}

/// The language the wizard proposes.
pub open spec fn proposed_language(c: ConfigView) -> Seq<char> {
    match c.language {
        Some(l) => l,
        None => "english"@,
    }
}

fn or_empty_string(v: &Option<String>) -> (r: String)
    ensures
        r@ == or_empty(match v {
            Some(s) => Some(s@),
            None => None,
        }),
{
    match v {
        Some(s) => s.clone(),
        None => String::new(),
    }
}

/// What the wizard proposes for `config`.
pub fn wizard_defaults(config: &Config) -> (r: WizardDefaults)
    ensures
        r.name@ == or_empty(config@.user_name),
        r.email@ == or_empty(config@.user_email),
        r.institution@ == or_empty(config@.institution_name),
        r.language@ == proposed_language(config@),
        r.language_offered == available_languages().contains(proposed_language(config@)),
{
    let language = match &config.defaults.language {
        Some(l) => l.clone(),
        None => {
            proof {
                reveal_strlit("english");
            }
            "english".to_string()
        },
    };
    let options = language_options();
    let lc = chars_of(language.as_str());
    let mut offered = false;
    let mut i: usize = 0;
    while i < options.len()
        invariant
            i <= options@.len(),
            options@.len() == available_languages().len(),
            forall|j: int| 0 <= j < options@.len() ==> #[trigger] options@[j]@
                == available_languages()[j],
            lc@ == language@,
            offered == exists|j: int| 0 <= j < i && available_languages()[j] == lc@,
        decreases options@.len() - i,
    {
        let oc = chars_of(options[i].as_str());
        let same = crate::text::same_chars(&lc, &oc);
        if same {
            offered = true;
        }
        assert(options@[i as int]@ == available_languages()[i as int]);
        i = i + 1;
    }
    proof {
        if offered {
            let j = choose|j: int| 0 <= j < options@.len() && available_languages()[j] == lc@;
            assert(available_languages().contains(lc@));
        } else {
            assert forall|j: int| 0 <= j < available_languages().len() implies
                available_languages()[j] != lc@ by {}
        }
    }
    WizardDefaults {
        name: or_empty_string(&config.user.name),
        email: or_empty_string(&config.user.email),
        institution: or_empty_string(&config.institution.name),
        language,
        language_offered: offered,
    }
}

/// Store the wizard's four answers.
pub fn apply_wizard(config: &mut Config, name: &str, email: &str, institution: &str, language: &str)
    ensures
        final(config)@ == with_setting(
            with_setting(
                with_setting(with_setting(old(config)@, SettingKey::Name, name@), SettingKey::Email, email@),
                SettingKey::Institution,
                institution@,
            ),
            SettingKey::Language,
            language@,
        ),
{
    config.user.name = Some(name.to_string());
    config.user.email = Some(email.to_string());
    config.institution.name = Some(institution.to_string());
    config.defaults.language = Some(language.to_string());
}

/// The dotted key that a short key stands for.
pub open spec fn dotted_key(k: SettingKey) -> Seq<char> {
    match k {
        SettingKey::Name => "user.name"@,
        SettingKey::Email => "user.email"@,
        SettingKey::Institution => "institution.name"@,
        SettingKey::Language => "defaults.language"@,
    }
}

/// A value written through a short key is read back through it, and the
/// other short keys keep their values.
pub proof fn lemma_setting_read_back(c: ConfigView, k: SettingKey, v: Seq<char>, other: SettingKey)
    ensures
        setting_value(with_setting(c, k, v), k) == Some(v),
        other != k ==> setting_value(with_setting(c, k, v), other) == setting_value(c, other),
{
}

/// The short keys are the dotted keys `user.name`, `user.email`,
/// `institution.name` and `defaults.language`: reading or writing through
/// either gives the same configuration.
pub proof fn lemma_short_keys_agree(c: ConfigView, k: SettingKey, v: Seq<char>)
    ensures
        spec_get(c, dotted_key(k)) == Ok::<Option<Seq<char>>, ConfigFault>(setting_value(c, k)),
        spec_set(c, dotted_key(k), v) == Ok::<ConfigView, ConfigFault>(with_setting(c, k, v)),
{
    reveal_strlit("user.name");
    reveal_strlit("user.email");
    reveal_strlit("institution.name");
    reveal_strlit("defaults.language");
    reveal_strlit("user");
    reveal_strlit("name");
    reveal_strlit("email");
    reveal_strlit("institution");
    reveal_strlit("defaults");
    reveal_strlit("language");
    reveal_strlit("templates");
    reveal_strlit("documentclass");
    reveal_strlit("fontsize");
    reveal_strlit("papersize");
    match k {
        SettingKey::Name => {
            assert(dotted_key(k) =~= "user"@ + seq!['.'] + "name"@);
            lemma_split_key(dotted_key(k), "user"@, "name"@);
        },
        SettingKey::Email => {
            assert(dotted_key(k) =~= "user"@ + seq!['.'] + "email"@);
            lemma_split_key(dotted_key(k), "user"@, "email"@);
        },
        SettingKey::Institution => {
            assert(dotted_key(k) =~= "institution"@ + seq!['.'] + "name"@);
            lemma_split_key(dotted_key(k), "institution"@, "name"@);
        },
        SettingKey::Language => {
            assert(dotted_key(k) =~= "defaults"@ + seq!['.'] + "language"@);
            lemma_split_key(dotted_key(k), "defaults"@, "language"@);
            assert("language"@.len() != "documentclass"@.len());
            assert("language"@[0] != "fontsize"@[0]);
            assert("language"@[0] != "papersize"@[0]);
            assert("defaults"@[0] != "user"@[0]);
            assert("defaults"@.len() != "institution"@.len());
        },
    }
}

} // verus!
