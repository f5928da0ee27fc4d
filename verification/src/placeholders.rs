//! Placeholder resolution with a precedence chain, and `{{token}}` substitution.
//!
//! A placeholder's value comes from, in order: the command line, the project
//! configuration, the user configuration, and the template's default.
use vstd::prelude::*;
use crate::config::{
    lemma_list_all_agrees_with_get, lemma_listed_get, list_all, listed_keys, listed_values,
    spec_list_all, Config,
    ConfigView,
};
use crate::manifest::{
    lemma_valid_manifest, manifest_fault, placeholders_view, Placeholder, PlaceholderView,
    TemplateManifest,
};
use crate::strmap::{StrMap, assoc_insert, keys_distinct, lemma_insert_lookup, lookup};
use crate::text::{
    append_chars, chars_of, concat_str, contains, find, find_at, lemma_find_from, occurs_at,
    opt_view, replace, replace_chars, str_eq, string_of,
};

verus! {

/// Why placeholder resolution or substitution failed.
#[derive(Clone, Debug)]
pub enum PlaceholderError {
    /// A required placeholder has no value; holds its name and description.
    RequiredMissing(String, String),
    /// `{{` remains in the content after substitution.
    Unresolved,
}

/// The meaning of a `PlaceholderError`.
pub enum PlaceholderFault {
    RequiredMissing(Seq<char>, Seq<char>),
    Unresolved,
}

impl View for PlaceholderError {
    type V = PlaceholderFault;

    open spec fn view(&self) -> PlaceholderFault {
        match self {
            PlaceholderError::RequiredMissing(n, d) => PlaceholderFault::RequiredMissing(n@, d@),
            PlaceholderError::Unresolved => PlaceholderFault::Unresolved,
        }
    }
}

impl PlaceholderError {
    /// The error's message.
    pub fn message(&self) -> (r: String)
        ensures
            r@ == match self@ {
                PlaceholderFault::RequiredMissing(n, d) => "Required placeholder '"@ + n
                    + "' has no value ("@ + d + ")"@,
                PlaceholderFault::Unresolved => "Unresolved placeholders found in content"@,
            },
    {
        match self {
            PlaceholderError::RequiredMissing(n, d) => {
                let a = concat_str("Required placeholder '", n.as_str());
                let b = concat_str(a.as_str(), "' has no value (");
                let c = concat_str(b.as_str(), d.as_str());
                concat_str(c.as_str(), ")")
            },
            PlaceholderError::Unresolved => string_of(
                chars_of("Unresolved placeholders found in content").as_slice(),
            ),
        }
    }
}

/// The optional user configuration, by what it holds.
pub open spec fn opt_config_view(c: Option<Config>) -> Option<ConfigView> {
    match c {
        Some(x) => Some(x@),
        None => None,
    }
}

/// The value the user configuration gives a placeholder name, if any: the
/// short names `author`, `email`, `institution`, `documentclass` and
/// `language` stand for their settings, and a name of the form `section.key`
/// reads that setting of the configuration (as `list_all` lists it).
pub open spec fn from_user(c: ConfigView, name: Seq<char>) -> Option<Seq<char>> {
    if c.user_name is Some && name == "author"@ {
        c.user_name
    } else if c.user_email is Some && name == "email"@ {
        c.user_email
    } else if c.institution_name is Some && name == "institution"@ {
        c.institution_name
    } else if c.documentclass is Some && name == "documentclass"@ {
        c.documentclass
    } else if c.language is Some && name == "language"@ {
        c.language
    } else {
        lookup(spec_list_all(c), name)
    }
}

/// `{{user.name}}`, `{{user.email}}` and `{{institution.name}}` in `text`
/// replaced by the user configuration's values, where it has them.
pub open spec fn interpolate(c: Option<ConfigView>, text: Seq<char>) -> Seq<char> {
    match c {
        None => text,
        Some(cfg) => {
            let a = match cfg.user_name {
                Some(n) => replace(text, "{{user.name}}"@, n),
                None => text,
            };
            let b = match cfg.user_email {
                Some(e) => replace(a, "{{user.email}}"@, e),
                None => a,
            };
            match cfg.institution_name {
                Some(i) => replace(b, "{{institution.name}}"@, i),
                None => b,
            }
        },
    }
}

/// A placeholder's value under the precedence chain: command line, project
/// configuration, user configuration, template default.
#[verifier::opaque]
pub open spec fn spec_resolve(
    cli: Seq<(Seq<char>, Seq<char>)>,
    project: Seq<(Seq<char>, Seq<char>)>,
    user: Option<ConfigView>,
    p: PlaceholderView,
) -> Option<Seq<char>> {
    if lookup(cli, p.name) is Some {
        lookup(cli, p.name)
    } else if lookup(project, p.name) is Some {
        lookup(project, p.name)
    } else if user matches Some(c) && from_user(c, p.name) is Some {
        from_user(user->Some_0, p.name)
    } else {
        match p.default {
            Some(d) => Some(interpolate(user, d)),
            None => None,
        }
    }
}

/// The values of `ps` in order, each inserted under its name, or the first
/// required placeholder without a value.
pub open spec fn spec_resolve_all(
    cli: Seq<(Seq<char>, Seq<char>)>,
    project: Seq<(Seq<char>, Seq<char>)>,
    user: Option<ConfigView>,
    ps: Seq<PlaceholderView>,
) -> Result<Seq<(Seq<char>, Seq<char>)>, PlaceholderFault>
    decreases ps.len(),
{
    if ps.len() == 0 {
        Ok(Seq::empty())
    } else {
        match spec_resolve_all(cli, project, user, ps.drop_last()) {
            Err(e) => Err(e),
            Ok(m) => {
                let p = ps.last();
                match spec_resolve(cli, project, user, p) {
                    Some(v) => Ok(assoc_insert(m, p.name, v)),
                    None => if p.required {
                        Err(PlaceholderFault::RequiredMissing(p.name, p.description))
                    } else {
                        Ok(m)
                    },
                }
            },
        }
    }
}

/// The token `{{key}}`.
pub open spec fn token(key: Seq<char>) -> Seq<char> {
    seq!['{', '{'] + key + seq!['}', '}']
}

/// `content` with the token of each entry replaced by its value, entry by entry.
pub open spec fn substitute_all(content: Seq<char>, es: Seq<(Seq<char>, Seq<char>)>) -> Seq<char>
    decreases es.len(),
{
    if es.len() == 0 {
        content
    } else {
        replace(substitute_all(content, es.drop_last()), token(es.last().0), es.last().1)
    }
}

/// Placeholder resolver with precedence chain.
pub struct PlaceholderResolver {
    /// Values from the command line (highest priority).
    pub cli_args: StrMap,
    /// Values from the project configuration.
    pub project_config: StrMap,
    /// The user configuration, if one was loaded.
    pub user_config: Option<Config>,
}

impl PlaceholderResolver {
    /// Create a resolver from its three sources of values.
    pub fn new(cli_args: StrMap, project_config: StrMap, user_config: Option<Config>) -> (r: Self)
        ensures
            r.cli_args@ == cli_args@,
            r.project_config@ == project_config@,
            opt_config_view(r.user_config) == opt_config_view(user_config),
    {
        PlaceholderResolver { cli_args, project_config, user_config }
    }

    /// Extract a value from the user configuration by placeholder name: a
    /// short name, or `section.key` for that setting.
    fn resolve_from_user_config(&self, cfg: &Config, placeholder: &str) -> (r: Option<String>)
        ensures
            opt_view(r) == from_user(cfg@, placeholder@),
    {
        if let Some(name) = &cfg.user.name {
            if str_eq(placeholder, "author") {
                return Some(name.clone());
            }
        }
        if let Some(email) = &cfg.user.email {
            if str_eq(placeholder, "email") {
                return Some(email.clone());
            }
        }
        if let Some(name) = &cfg.institution.name {
            if str_eq(placeholder, "institution") {
                return Some(name.clone());
            }
        }
        if let Some(dc) = &cfg.defaults.documentclass {
            if str_eq(placeholder, "documentclass") {
                return Some(dc.clone());
            }
        }
        if let Some(lang) = &cfg.defaults.language {
            if str_eq(placeholder, "language") {
                return Some(lang.clone());
            }
        }
        list_all(cfg).get(placeholder)
    }

    /// Resolve `{{user.name}}` style interpolations in defaults.
    fn resolve_interpolations(&self, text: &str) -> (r: String)
        ensures
            r@ == interpolate(opt_config_view(self.user_config), text@),
    {
        let mut result = chars_of(text);
        if let Some(cfg) = &self.user_config {
            if let Some(name) = &cfg.user.name {
                let f = chars_of("{{user.name}}");
                let t = chars_of(name.as_str());
                proof { reveal_strlit("{{user.name}}"); }
                result = replace_chars(&result, &f, &t);
            }
            if let Some(email) = &cfg.user.email {
                let f = chars_of("{{user.email}}");
                let t = chars_of(email.as_str());
                proof { reveal_strlit("{{user.email}}"); }
                result = replace_chars(&result, &f, &t);
            }
            if let Some(inst) = &cfg.institution.name {
                let f = chars_of("{{institution.name}}");
                let t = chars_of(inst.as_str());
                proof { reveal_strlit("{{institution.name}}"); }
                result = replace_chars(&result, &f, &t);
            }
        }
        string_of(result.as_slice())
    }

    /// Resolve a placeholder value using the precedence chain; `Ok(None)` when no
    /// source has a value.
    pub fn resolve(&self, placeholder: &Placeholder) -> (r: Result<Option<String>, PlaceholderError>)
        ensures
            r matches Ok(v) && opt_view(v) == spec_resolve(
                self.cli_args@,
                self.project_config@,
                opt_config_view(self.user_config),
                placeholder@,
            ),
    {
        reveal(spec_resolve);
        if let Some(value) = self.cli_args.get(placeholder.name.as_str()) {
            return Ok(Some(value));
        }
        if let Some(value) = self.project_config.get(placeholder.name.as_str()) {
            return Ok(Some(value));
        }
        if let Some(user_cfg) = &self.user_config {
            if let Some(value) = self.resolve_from_user_config(user_cfg, placeholder.name.as_str()) {
                return Ok(Some(value));
            }
        }
        if let Some(default) = &placeholder.default {
            let resolved = self.resolve_interpolations(default.as_str());
            return Ok(Some(resolved));
        }
        Ok(None)
    }

    /// Resolve all placeholders in order; fails on the first required one
    /// without a value.
    pub fn resolve_all(&self, placeholders: &[Placeholder]) -> (r: Result<StrMap, PlaceholderError>)
        ensures
            match r {
                Ok(m) => spec_resolve_all(
                    self.cli_args@,
                    self.project_config@,
                    opt_config_view(self.user_config),
                    placeholders_view(placeholders@),
                ) == Ok::<Seq<(Seq<char>, Seq<char>)>, PlaceholderFault>(m@),
                Err(e) => spec_resolve_all(
                    self.cli_args@,
                    self.project_config@,
                    opt_config_view(self.user_config),
                    placeholders_view(placeholders@),
                ) == Err::<Seq<(Seq<char>, Seq<char>)>, PlaceholderFault>(e@),
            },
    {
        let ghost cli = self.cli_args@;
        let ghost proj = self.project_config@;
        let ghost user = opt_config_view(self.user_config);
        let ghost ps = placeholders_view(placeholders@);
        let mut result = StrMap::new();
        let mut i: usize = 0;
        while i < placeholders.len()
            invariant
                i <= ps.len(),
                ps == placeholders_view(placeholders@),
                cli == self.cli_args@,
                proj == self.project_config@,
                user == opt_config_view(self.user_config),
                spec_resolve_all(cli, proj, user, ps.take(i as int)) == Ok::<
                    Seq<(Seq<char>, Seq<char>)>,
                    PlaceholderFault,
                >(result@),
            decreases ps.len() - i,
        {
            let ph = &placeholders[i];
            assert(ps.take(i + 1).drop_last() =~= ps.take(i as int));
            assert(ps.take(i + 1).last() == ph@);
            let resolved = self.resolve(ph);
            match resolved {
                Ok(Some(value)) => {
                    result.insert(ph.name.clone(), value);
                },
                Ok(None) => {
                    if ph.required {
                        proof {
                            lemma_resolve_all_err_stays(cli, proj, user, ps, i as int + 1);
                        }
                        return Err(
                            PlaceholderError::RequiredMissing(
                                ph.name.clone(),
                                ph.description.clone(),
                            ),
                        );
                    }
                },
                Err(e) => {
                    return Err(e);
                },
            }
            i = i + 1;
        }
        assert(ps.take(i as int) =~= ps);
        Ok(result)
    }

    /// Replace `{{placeholder}}` tokens in content, entry by entry in the map's
    /// order; fails if `{{` remains afterwards.
    pub fn substitute(&self, content: &str, values: &StrMap) -> (r: Result<String, PlaceholderError>)
        ensures
            match r {
                Ok(s) => s@ == substitute_all(content@, values@) && !contains(
                    substitute_all(content@, values@),
                    seq!['{', '{'],
                ),
                Err(e) => e@ == PlaceholderFault::Unresolved && contains(
                    substitute_all(content@, values@),
                    seq!['{', '{'],
                ),
            },
    {
        let mut result = chars_of(content);
        let mut i: usize = 0;
        while i < values.len()
            invariant
                i <= values@.len(),
                result@ == substitute_all(content@, values@.take(i as int)),
            decreases values@.len() - i,
        {
            assert(values@.take(i + 1).drop_last() =~= values@.take(i as int));
            let mut tok: Vec<char> = Vec::new();
            tok.push('{');
            tok.push('{');
            let key = chars_of(values.key_at(i).as_str());
            append_chars(&mut tok, &key);
            tok.push('}');
            tok.push('}');
            assert(tok@ =~= token(values@[i as int].0));
            let val = chars_of(values.value_at(i).as_str());
            result = replace_chars(&result, &tok, &val);
            i = i + 1;
        }
        assert(values@.take(i as int) =~= values@);
        let mut open: Vec<char> = Vec::new();
        open.push('{');
        open.push('{');
        assert(open@ =~= seq!['{', '{']);
        if find_at(&result, &open, 0).is_some() {
            return Err(PlaceholderError::Unresolved);
        }
        Ok(string_of(result.as_slice()))
    }
}

/// Once resolution fails on a prefix, it fails the same way on every longer prefix.
pub proof fn lemma_resolve_all_err_stays(
    cli: Seq<(Seq<char>, Seq<char>)>,
    project: Seq<(Seq<char>, Seq<char>)>,
    user: Option<ConfigView>,
    ps: Seq<PlaceholderView>,
    n: int,
)
    requires
        0 <= n <= ps.len(),
        spec_resolve_all(cli, project, user, ps.take(n)) is Err,
    ensures
        spec_resolve_all(cli, project, user, ps) == spec_resolve_all(cli, project, user, ps.take(n)),
    decreases ps.len() - n,
{
    if n == ps.len() {
        assert(ps.take(n) =~= ps);
    } else {
        assert(ps.take(n + 1).drop_last() =~= ps.take(n));
        lemma_resolve_all_err_stays(cli, project, user, ps, n + 1);
    }
}

/// Resolving a list of placeholders succeeds exactly when every required one
/// has a value.
pub proof fn lemma_resolve_all_ok_iff(
    cli: Seq<(Seq<char>, Seq<char>)>,
    project: Seq<(Seq<char>, Seq<char>)>,
    user: Option<ConfigView>,
    ps: Seq<PlaceholderView>,
)
    ensures
        spec_resolve_all(cli, project, user, ps) is Ok <==> forall|i: int|
            0 <= i < ps.len() && (#[trigger] ps[i]).required ==> spec_resolve(
                cli,
                project,
                user,
                ps[i],
            ) is Some,
    decreases ps.len(),
{
    if ps.len() > 0 {
        let q = ps.drop_last();
        lemma_resolve_all_ok_iff(cli, project, user, q);
        let n = ps.len() - 1;
        assert forall|i: int| 0 <= i < q.len() implies #[trigger] q[i] == ps[i] by {}
        let p = ps[n];
        assert(ps.last() == p);
        if spec_resolve_all(cli, project, user, q) is Err {
            let i = choose|i: int|
                0 <= i < q.len() && (#[trigger] q[i]).required && !(spec_resolve(
                    cli,
                    project,
                    user,
                    q[i],
                ) is Some);
            assert(ps[i] == q[i]);
            assert(spec_resolve_all(cli, project, user, ps) is Err);
        } else if spec_resolve(cli, project, user, p) is None && p.required {
            assert(spec_resolve_all(cli, project, user, ps) is Err);
        } else {
            assert(spec_resolve_all(cli, project, user, ps) is Ok);
            assert forall|i: int| 0 <= i < ps.len() && (#[trigger] ps[i]).required implies spec_resolve(
                cli,
                project,
                user,
                ps[i],
            ) is Some by {
                if i < n {
                    assert(q[i] == ps[i]);
                }
            }
        }
    }
}

/// A later placeholder with the name of `ps[i]` that has a value.
pub open spec fn later_valued(
    cli: Seq<(Seq<char>, Seq<char>)>,
    project: Seq<(Seq<char>, Seq<char>)>,
    user: Option<ConfigView>,
    ps: Seq<PlaceholderView>,
    i: int,
) -> bool {
    exists|j: int|
        i < j < ps.len() && ps[j].name == ps[i].name && spec_resolve(cli, project, user, ps[j])
            is Some
}

/// When resolving a list of placeholders succeeds, the result holds each name
/// once; its names are exactly those of the placeholders that have a value;
/// and each such name is mapped to the value of the last placeholder of that
/// name that has one.
pub proof fn lemma_resolve_all_values(
    cli: Seq<(Seq<char>, Seq<char>)>,
    project: Seq<(Seq<char>, Seq<char>)>,
    user: Option<ConfigView>,
    ps: Seq<PlaceholderView>,
)
    requires
        spec_resolve_all(cli, project, user, ps) is Ok,
    ensures
        keys_distinct(spec_resolve_all(cli, project, user, ps)->Ok_0),
        forall|n: Seq<char>|
            #![trigger lookup(spec_resolve_all(cli, project, user, ps)->Ok_0, n)]
            lookup(spec_resolve_all(cli, project, user, ps)->Ok_0, n) is Some <==> exists|i: int|
                0 <= i < ps.len() && ps[i].name == n && spec_resolve(cli, project, user, ps[i])
                    is Some,
        forall|i: int|
            0 <= i < ps.len() && spec_resolve(cli, project, user, #[trigger] ps[i]) is Some
                && !later_valued(cli, project, user, ps, i) ==> lookup(
                spec_resolve_all(cli, project, user, ps)->Ok_0,
                ps[i].name,
            ) == spec_resolve(cli, project, user, ps[i]),
    decreases ps.len(),
{
    if ps.len() == 0 {
        assert(keys_distinct(Seq::<(Seq<char>, Seq<char>)>::empty()));
    } else {
        let q = ps.drop_last();
        let n = ps.len() - 1;
        let p = ps[n];
        assert(ps.last() == p);
        assert forall|i: int| 0 <= i < q.len() implies #[trigger] q[i] == ps[i] by {}
        lemma_resolve_all_values(cli, project, user, q);
        let m = spec_resolve_all(cli, project, user, q)->Ok_0;
        let m2 = spec_resolve_all(cli, project, user, ps)->Ok_0;
        match spec_resolve(cli, project, user, p) {
            Some(v) => {
                assert(m2 == assoc_insert(m, p.name, v));
                lemma_insert_lookup(m, p.name, v);
            },
            None => {
                assert(m2 == m);
            },
        }
        assert forall|k: Seq<char>|
            #![trigger lookup(m2, k)]
            lookup(m2, k) is Some <==> exists|i: int|
                0 <= i < ps.len() && ps[i].name == k && spec_resolve(cli, project, user, ps[i])
                    is Some by {
            if lookup(m2, k) is Some {
                if k == p.name && spec_resolve(cli, project, user, p) is Some {
                    assert(ps[n].name == k);
                } else {
                    assert(lookup(m, k) is Some);
                    let i = choose|i: int|
                        0 <= i < q.len() && q[i].name == k && spec_resolve(cli, project, user, q[i])
                            is Some;
                    assert(ps[i] == q[i]);
                }
            }
            if exists|i: int|
                0 <= i < ps.len() && ps[i].name == k && spec_resolve(cli, project, user, ps[i])
                    is Some {
                let i = choose|i: int|
                    0 <= i < ps.len() && ps[i].name == k && spec_resolve(cli, project, user, ps[i])
                        is Some;
                if i < n {
                    assert(q[i] == ps[i]);
                    assert(lookup(m, k) is Some);
                }
            }
        }
        assert forall|i: int|
            0 <= i < ps.len() && spec_resolve(cli, project, user, #[trigger] ps[i]) is Some
                && !later_valued(cli, project, user, ps, i) implies lookup(m2, ps[i].name)
            == spec_resolve(cli, project, user, ps[i]) by {
            if i < n {
                assert(q[i] == ps[i]);
                if ps[n].name == ps[i].name {
                    assert(spec_resolve(cli, project, user, ps[n]) is None);
                }
                if later_valued(cli, project, user, q, i) {
                    let j = choose|j: int|
                        i < j < q.len() && q[j].name == q[i].name && spec_resolve(
                            cli,
                            project,
                            user,
                            q[j],
                        ) is Some;
                    assert(q[j] == ps[j]);
                }
            }
        }
    }
}

/// When resolving a list of placeholders fails, the error names the first
/// required placeholder without a value, with its description.
pub proof fn lemma_resolve_all_error(
    cli: Seq<(Seq<char>, Seq<char>)>,
    project: Seq<(Seq<char>, Seq<char>)>,
    user: Option<ConfigView>,
    ps: Seq<PlaceholderView>,
)
    requires
        spec_resolve_all(cli, project, user, ps) is Err,
    ensures
        exists|i: int|
            #![trigger ps[i]]
            0 <= i < ps.len() && ps[i].required && spec_resolve(cli, project, user, ps[i]) is None
                && (forall|j: int|
                0 <= j < i ==> !(ps[j].required && spec_resolve(cli, project, user, ps[j])
                    is None)) && spec_resolve_all(cli, project, user, ps) == Err::<
                Seq<(Seq<char>, Seq<char>)>,
                PlaceholderFault,
            >(PlaceholderFault::RequiredMissing(ps[i].name, ps[i].description)),
    decreases ps.len(),
{
    let q = ps.drop_last();
    let n = ps.len() - 1;
    let p = ps[n];
    assert(ps.last() == p);
    assert forall|i: int| 0 <= i < q.len() implies #[trigger] q[i] == ps[i] by {}
    if spec_resolve_all(cli, project, user, q) is Err {
        lemma_resolve_all_error(cli, project, user, q);
        let i = choose|i: int|
            #![trigger q[i]]
            0 <= i < q.len() && q[i].required && spec_resolve(cli, project, user, q[i]) is None
                && (forall|j: int|
                0 <= j < i ==> !(q[j].required && spec_resolve(cli, project, user, q[j])
                    is None)) && spec_resolve_all(cli, project, user, q) == Err::<
                Seq<(Seq<char>, Seq<char>)>,
                PlaceholderFault,
            >(PlaceholderFault::RequiredMissing(q[i].name, q[i].description));
        assert(ps[i] == q[i]);
        assert forall|j: int| 0 <= j < i implies !(ps[j].required && spec_resolve(
            cli,
            project,
            user,
            ps[j],
        ) is None) by {
            assert(ps[j] == q[j]);
        }
    } else {
        lemma_resolve_all_ok_iff(cli, project, user, q);
        assert forall|j: int| 0 <= j < n implies !(ps[j].required && spec_resolve(
            cli,
            project,
            user,
            ps[j],
        ) is None) by {
            assert(ps[j] == q[j]);
        }
    }
}

/// Resolving the placeholders of a manifest that validation accepts succeeds
/// exactly when each required placeholder has a value, and then maps every
/// placeholder that has a value to that value.
pub proof fn lemma_resolve_manifest(
    cli: Seq<(Seq<char>, Seq<char>)>,
    project: Seq<(Seq<char>, Seq<char>)>,
    user: Option<ConfigView>,
    m: TemplateManifest,
)
    requires
        manifest_fault(m) is None,
    ensures
        ({
            let ps = placeholders_view(m.placeholders@);
            &&& spec_resolve_all(cli, project, user, ps) is Ok <==> forall|i: int|
                0 <= i < ps.len() && (#[trigger] ps[i]).required ==> spec_resolve(
                    cli,
                    project,
                    user,
                    ps[i],
                ) is Some
            &&& spec_resolve_all(cli, project, user, ps) matches Ok(vals) ==> forall|i: int|
                0 <= i < ps.len() && spec_resolve(cli, project, user, #[trigger] ps[i]) is Some
                    ==> lookup(vals, ps[i].name) == spec_resolve(cli, project, user, ps[i])
        }),
{
    let ps = placeholders_view(m.placeholders@);
    lemma_valid_manifest(m);
    lemma_resolve_all_ok_iff(cli, project, user, ps);
    if spec_resolve_all(cli, project, user, ps) is Ok {
        lemma_resolve_all_values(cli, project, user, ps);
        assert forall|i: int, j: int| 0 <= i < j < ps.len() implies ps[j].name != ps[i].name by {
            assert(ps[i] == m.placeholders@[i]@);
            assert(ps[j] == m.placeholders@[j]@);
        }
    }
}

/// Content without `{{` has nothing to substitute: whatever the values, it
/// comes back unchanged (and so substitution succeeds).
pub proof fn lemma_substitute_plain(content: Seq<char>, es: Seq<(Seq<char>, Seq<char>)>)
    requires
        !contains(content, seq!['{', '{']),
    ensures
        substitute_all(content, es) == content,
    decreases es.len(),
{
    if es.len() > 0 {
        lemma_substitute_plain(content, es.drop_last());
        let tok = token(es.last().0);
        lemma_find_from(content, tok, 0);
        lemma_find_from(content, seq!['{', '{'], 0);
        if let Some(i) = find(content, tok) {
            assert(content.subrange(i, i + 2) =~= tok.subrange(0, 2));
            assert(tok.subrange(0, 2) =~= seq!['{', '{']);
            assert(occurs_at(content, seq!['{', '{'], i));
        }
    }
}

/// The precedence chain: a command-line value wins over every other source;
/// failing that, a project value; failing that, the user configuration's;
/// failing that, the template's default with `{{user.*}}` tokens filled in;
/// and with none of these there is no value.
pub proof fn lemma_precedence(
    cli: Seq<(Seq<char>, Seq<char>)>,
    project: Seq<(Seq<char>, Seq<char>)>,
    user: Option<ConfigView>,
    p: PlaceholderView,
)
    ensures
        lookup(cli, p.name) is Some ==> spec_resolve(cli, project, user, p) == lookup(cli, p.name),
        lookup(cli, p.name) is None && lookup(project, p.name) is Some ==> spec_resolve(
            cli,
            project,
            user,
            p,
        ) == lookup(project, p.name),
        lookup(cli, p.name) is None && lookup(project, p.name) is None && user is Some
            && from_user(user->Some_0, p.name) is Some ==> spec_resolve(cli, project, user, p)
            == from_user(user->Some_0, p.name),
        lookup(cli, p.name) is None && lookup(project, p.name) is None && (user is Some
            ==> from_user(user->Some_0, p.name) is None) ==> spec_resolve(cli, project, user, p) == match p.default {
            Some(d) => Some(interpolate(user, d)),
            None => None,
        },
{
    reveal(spec_resolve);
}

proof fn lemma_from_user_short(c: ConfigView)
    ensures
        c.user_name is Some ==> from_user(c, "author"@) == c.user_name,
        c.user_email is Some ==> from_user(c, "email"@) == c.user_email,
        c.institution_name is Some ==> from_user(c, "institution"@) == c.institution_name,
        c.documentclass is Some ==> from_user(c, "documentclass"@) == c.documentclass,
        c.language is Some ==> from_user(c, "language"@) == c.language,
{
    reveal_strlit("author");
    reveal_strlit("email");
    reveal_strlit("institution");
    reveal_strlit("documentclass");
    reveal_strlit("language");
    assert("email"@.len() != "author"@.len());
    assert("institution"@.len() != "author"@.len());
    assert("institution"@.len() != "email"@.len());
    assert("documentclass"@.len() != "author"@.len());
    assert("documentclass"@.len() != "email"@.len());
    assert("documentclass"@.len() != "institution"@.len());
    assert("language"@.len() != "author"@.len());
    assert("language"@.len() != "email"@.len());
    assert("language"@.len() != "institution"@.len());
    assert("language"@.len() != "documentclass"@.len());
}

proof fn lemma_from_user_key(c: ConfigView, i: int)
    requires
        0 <= i < 9,
    ensures
        from_user(c, listed_keys()[i]) == listed_values(c)[i],
{
    let q = listed_keys()[i];
    reveal_strlit("author");
    reveal_strlit("email");
    reveal_strlit("institution");
    reveal_strlit("documentclass");
    reveal_strlit("language");
    reveal_strlit("user.name");
    reveal_strlit("user.email");
    reveal_strlit("institution.name");
    reveal_strlit("institution.address");
    reveal_strlit("defaults.documentclass");
    reveal_strlit("defaults.fontsize");
    reveal_strlit("defaults.papersize");
    reveal_strlit("defaults.language");
    reveal_strlit("templates.source");
    assert(q.len() >= 9);
    assert(q != "author"@ && q != "email"@ && q != "institution"@ && q != "documentclass"@ && q
        != "language"@) by {
        assert(q.len() != 6 && q.len() != 5 && q.len() != 11 && q.len() != 13 && q.len() != 8);
    }
    lemma_list_all_agrees_with_get(c, q);
    assert(listed_keys().contains(q)) by {
        assert(listed_keys()[i] == q);
    }
    lemma_listed_get(c, i, q);
}

/// Where neither the command line nor the project gives a value, the user
/// configuration fills a placeholder: `author`, `email`, `institution`,
/// `documentclass` and `language` take the user's name, email, institution
/// name, document class and language, and a placeholder named by a
/// configuration key (`section.key`, such as `defaults.fontsize`) takes that
/// setting.
pub proof fn lemma_user_config_fills(
    cli: Seq<(Seq<char>, Seq<char>)>,
    project: Seq<(Seq<char>, Seq<char>)>,
    c: ConfigView,
    p: PlaceholderView,
)
    requires
        lookup(cli, p.name) is None,
        lookup(project, p.name) is None,
    ensures
        p.name == "author"@ && c.user_name is Some ==> spec_resolve(cli, project, Some(c), p) == c.user_name,
        p.name == "email"@ && c.user_email is Some ==> spec_resolve(cli, project, Some(c), p) == c.user_email,
        p.name == "institution"@ && c.institution_name is Some ==> spec_resolve(cli, project, Some(c), p) == c.institution_name,
        p.name == "documentclass"@ && c.documentclass is Some ==> spec_resolve(cli, project, Some(c), p) == c.documentclass,
        p.name == "language"@ && c.language is Some ==> spec_resolve(cli, project, Some(c), p) == c.language,
        p.name == "user.name"@ && c.user_name is Some ==> spec_resolve(cli, project, Some(c), p) == c.user_name,
        p.name == "user.email"@ && c.user_email is Some ==> spec_resolve(cli, project, Some(c), p) == c.user_email,
        p.name == "institution.name"@ && c.institution_name is Some ==> spec_resolve(cli, project, Some(c), p) == c.institution_name,
        p.name == "institution.address"@ && c.institution_address is Some ==> spec_resolve(cli, project, Some(c), p) == c.institution_address,
        p.name == "defaults.documentclass"@ && c.documentclass is Some ==> spec_resolve(cli, project, Some(c), p) == c.documentclass,
        p.name == "defaults.fontsize"@ && c.fontsize is Some ==> spec_resolve(cli, project, Some(c), p) == c.fontsize,
        p.name == "defaults.papersize"@ && c.papersize is Some ==> spec_resolve(cli, project, Some(c), p) == c.papersize,
        p.name == "defaults.language"@ && c.language is Some ==> spec_resolve(cli, project, Some(c), p) == c.language,
        p.name == "templates.source"@ && c.source is Some ==> spec_resolve(cli, project, Some(c), p) == c.source,
{
    lemma_precedence(cli, project, Some(c), p);
    lemma_from_user_short(c);
    if p.name == "user.name"@ {
        lemma_from_user_key(c, 0);
        reveal_strlit("user.name");
        assert(listed_keys()[0] == p.name);
    }
    if p.name == "user.email"@ {
        lemma_from_user_key(c, 1);
        reveal_strlit("user.email");
        assert(listed_keys()[1] == p.name);
    }
    if p.name == "institution.name"@ {
        lemma_from_user_key(c, 2);
        reveal_strlit("institution.name");
        assert(listed_keys()[2] == p.name);
    }
    if p.name == "institution.address"@ {
        lemma_from_user_key(c, 3);
        reveal_strlit("institution.address");
        assert(listed_keys()[3] == p.name);
    }
    if p.name == "defaults.documentclass"@ {
        lemma_from_user_key(c, 4);
        reveal_strlit("defaults.documentclass");
        assert(listed_keys()[4] == p.name);
    }
    if p.name == "defaults.fontsize"@ {
        lemma_from_user_key(c, 5);
        reveal_strlit("defaults.fontsize");
        assert(listed_keys()[5] == p.name);
    }
    if p.name == "defaults.papersize"@ {
        lemma_from_user_key(c, 6);
        reveal_strlit("defaults.papersize");
        assert(listed_keys()[6] == p.name);
    }
    if p.name == "defaults.language"@ {
        lemma_from_user_key(c, 7);
        reveal_strlit("defaults.language");
        assert(listed_keys()[7] == p.name);
    }
    if p.name == "templates.source"@ {
        lemma_from_user_key(c, 8);
        reveal_strlit("templates.source");
        assert(listed_keys()[8] == p.name);
    }
}

/// A text without `{` is left alone by `replace` of a pattern that starts
/// with `{`.
proof fn lemma_replace_braceless(s: Seq<char>, f: Seq<char>, t: Seq<char>)
    requires
        f.len() > 0,
        f[0] == '{',
        forall|k: int| 0 <= k < s.len() ==> s[k] != '{',
    ensures
        replace(s, f, t) == s,
{
    lemma_find_from(s, f, 0);
    if let Some(k) = find(s, f) {
        assert(s.subrange(k, k + f.len())[0] == s[k]);
    }
}

/// Substituting one value replaces its token by the value in text that holds
/// no other brace: `a{{key}}b` becomes `a`, the value, then `b`.
pub proof fn lemma_token_replaced(a: Seq<char>, key: Seq<char>, value: Seq<char>, b: Seq<char>)
    requires
        forall|k: int| 0 <= k < a.len() ==> a[k] != '{',
        forall|k: int| 0 <= k < b.len() ==> b[k] != '{',
    ensures
        substitute_all(a + token(key) + b, seq![(key, value)]) == a + value + b,
{
    let es = seq![(key, value)];
    let s = a + token(key) + b;
    let f = token(key);
    assert(es.drop_last() =~= Seq::<(Seq<char>, Seq<char>)>::empty());
    assert(substitute_all(s, es.drop_last()) == s);
    assert(occurs_at(s, f, a.len() as int)) by {
        assert(s.subrange(a.len() as int, a.len() + f.len() as int) =~= f);
    }
    lemma_find_from(s, f, 0);
    let k = find(s, f)->Some_0;
    assert(k == a.len()) by {
        if k < a.len() {
            assert(s.subrange(k, k + f.len())[0] == s[k]);
            assert(s[k] == a[k]);
        }
    }
    assert(s.take(k) =~= a);
    assert(s.skip(k + f.len()) =~= b);
    lemma_replace_braceless(b, f, value);
}

} // verus!