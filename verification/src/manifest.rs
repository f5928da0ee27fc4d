//! Template manifest (`template.toml`) schema and validation.
use vstd::prelude::*;
use crate::text::{chars_of, concat_str, opt_view, str_eq, string_of, strings_view};

verus! {

/// Which files of a template are copied.
#[derive(Clone, Debug)]
pub struct FileSpec {
    pub include_patterns: Vec<String>,
    pub exclude_patterns: Vec<String>,
}

/// The kind of value a placeholder takes.
#[derive(Clone, Copy, Debug, PartialEq, Eq, Structural)]
pub enum PlaceholderType {
    String,
    Boolean,
    Enum,
}

/// A placeholder that can be substituted during template generation.
#[derive(Clone, Debug)]
pub struct Placeholder {
    pub name: String,
    pub kind: PlaceholderType,
    pub description: String,
    pub required: bool,
    pub default: Option<String>,
    pub choices: Option<Vec<String>>,
}

/// What a placeholder holds.
pub struct PlaceholderView {
    pub name: Seq<char>,
    pub kind: PlaceholderType,
    pub description: Seq<char>,
    pub required: bool,
    pub default: Option<Seq<char>>,
    pub choices: Option<Seq<Seq<char>>>,
}

impl View for Placeholder {
    type V = PlaceholderView;

    open spec fn view(&self) -> PlaceholderView {
        PlaceholderView {
            name: self.name@,
            kind: self.kind,
            description: self.description@,
            required: self.required,
            default: opt_view(self.default),
            choices: match self.choices {
                Some(c) => Some(strings_view(c@)),
                None => None,
            },
        }
    }
}

/// A post-generate script that the user can optionally run.
#[derive(Clone, Debug)]
pub struct PostGenerateScript {
    pub name: String,
    pub description: String,
    pub command: String,
    pub optional: bool,
}

/// The template manifest.
#[derive(Clone, Debug)]
pub struct TemplateManifest {
    pub id: String,
    pub version: String,
    pub display_name: String,
    pub description: String,
    pub files: FileSpec,
    pub placeholders: Vec<Placeholder>,
    pub post_generate: Vec<PostGenerateScript>,
}

/// The placeholders of a manifest, by what they hold.
pub open spec fn placeholders_view(ps: Seq<Placeholder>) -> Seq<PlaceholderView> {
    Seq::new(ps.len(), |i: int| ps[i]@)
}

/// Why a manifest is rejected.
#[derive(Clone, Debug)]
pub enum ManifestError {
    IdRequired,
    VersionRequired,
    DisplayNameRequired,
    EmptyPlaceholderName,
    DuplicatePlaceholder(String),
    EnumWithoutChoices(String),
}

/// The meaning of a `ManifestError`.
pub enum ManifestFault {
    IdRequired,
    VersionRequired,
    DisplayNameRequired,
    EmptyPlaceholderName,
    DuplicatePlaceholder(Seq<char>),
    EnumWithoutChoices(Seq<char>),
}

impl View for ManifestError {
    type V = ManifestFault;

    open spec fn view(&self) -> ManifestFault {
        match self {
            ManifestError::IdRequired => ManifestFault::IdRequired,
            ManifestError::VersionRequired => ManifestFault::VersionRequired,
            ManifestError::DisplayNameRequired => ManifestFault::DisplayNameRequired,
            ManifestError::EmptyPlaceholderName => ManifestFault::EmptyPlaceholderName,
            ManifestError::DuplicatePlaceholder(n) => ManifestFault::DuplicatePlaceholder(n@),
            ManifestError::EnumWithoutChoices(n) => ManifestFault::EnumWithoutChoices(n@),
        }
    }
}

impl ManifestError {
    /// The error's message.
    pub fn message(&self) -> (r: String)
        ensures
            r@ == match self@ {
                ManifestFault::IdRequired => "Template manifest: id is required"@,
                ManifestFault::VersionRequired => "Template manifest: version is required"@,
                ManifestFault::DisplayNameRequired => "Template manifest: display_name is required"@,
                ManifestFault::EmptyPlaceholderName =>
                    "Template manifest: placeholder name cannot be empty"@,
                ManifestFault::DuplicatePlaceholder(n) =>
                    "Template manifest: duplicate placeholder name '"@ + n + "'"@,
                ManifestFault::EnumWithoutChoices(n) => "Template manifest: enum placeholder '"@ + n
                    + "' must have 'choices'"@,
            },
    {
        match self {
            ManifestError::IdRequired => string_of(
                chars_of("Template manifest: id is required").as_slice(),
            ),
            ManifestError::VersionRequired => string_of(
                chars_of("Template manifest: version is required").as_slice(),
            ),
            ManifestError::DisplayNameRequired => string_of(
                chars_of("Template manifest: display_name is required").as_slice(),
            ),
            ManifestError::EmptyPlaceholderName => string_of(
                chars_of("Template manifest: placeholder name cannot be empty").as_slice(),
            ),
            ManifestError::DuplicatePlaceholder(n) => {
                let a = concat_str("Template manifest: duplicate placeholder name '", n.as_str());
                concat_str(a.as_str(), "'")
            },
            ManifestError::EnumWithoutChoices(n) => {
                let a = concat_str("Template manifest: enum placeholder '", n.as_str());
                concat_str(a.as_str(), "' must have 'choices'")
            },
        }
    }
}

/// Some placeholder before position `i` has the name `n`.
pub open spec fn name_before(ps: Seq<PlaceholderView>, i: int, n: Seq<char>) -> bool {
    exists|j: int| 0 <= j < i && ps[j].name == n
}

/// The first fault among the placeholders from position `i` on.
pub open spec fn placeholder_fault(ps: Seq<PlaceholderView>, i: int) -> Option<ManifestFault>
    decreases ps.len() - i,
{
    if i < 0 || i >= ps.len() {
        None
    } else if ps[i].name.len() == 0 {
        Some(ManifestFault::EmptyPlaceholderName)
    } else if name_before(ps, i, ps[i].name) {
        Some(ManifestFault::DuplicatePlaceholder(ps[i].name))
    } else if ps[i].kind == PlaceholderType::Enum && ps[i].choices is None {
        Some(ManifestFault::EnumWithoutChoices(ps[i].name))
    } else {
        placeholder_fault(ps, i + 1)
    }
}

/// The first reason to reject a manifest, if any.
pub open spec fn manifest_fault(m: TemplateManifest) -> Option<ManifestFault> {
    if m.id@.len() == 0 {
        Some(ManifestFault::IdRequired)
    } else if m.version@.len() == 0 {
        Some(ManifestFault::VersionRequired)
    } else if m.display_name@.len() == 0 {
        Some(ManifestFault::DisplayNameRequired)
    } else {
        placeholder_fault(placeholders_view(m.placeholders@), 0)
    }
}

/// The index of the first placeholder named `n`.
pub open spec fn first_named(ps: Seq<PlaceholderView>, n: Seq<char>) -> Option<int> {
    if exists|i: int| 0 <= i < ps.len() && ps[i].name == n {
        Some(
            choose|i: int|
                0 <= i < ps.len() && ps[i].name == n && forall|j: int|
                    0 <= j < i ==> ps[j].name != n,
        )
    } else {
        None
    }
}

impl TemplateManifest {
    /// Accepts a parsed manifest, or gives the first reason to reject it.
    pub fn validate(self) -> (r: Result<TemplateManifest, ManifestError>)
        ensures
            match r {
                Ok(m) => manifest_fault(self) is None && m == self,
                Err(e) => manifest_fault(self) == Some(e@),
            },
    {
        if self.id.as_str().is_empty() {
            return Err(ManifestError::IdRequired);
        }
        if self.version.as_str().is_empty() {
            return Err(ManifestError::VersionRequired);
        }
        if self.display_name.as_str().is_empty() {
            return Err(ManifestError::DisplayNameRequired);
        }
        let ghost ps = placeholders_view(self.placeholders@);
        assert(manifest_fault(self) == placeholder_fault(ps, 0));
        let mut i: usize = 0;
        while i < self.placeholders.len()
            invariant
                i <= ps.len(),
                ps == placeholders_view(self.placeholders@),
                manifest_fault(self) == placeholder_fault(ps, i as int),
            decreases ps.len() - i,
        {
            let p = &self.placeholders[i];
            assert(ps[i as int] == p@);
            if p.name.as_str().is_empty() {
                assert(placeholder_fault(ps, i as int) == Some(
                    ManifestFault::EmptyPlaceholderName,
                ));
                return Err(ManifestError::EmptyPlaceholderName);
            }
            let mut j: usize = 0;
            while j < i
                invariant
                    j <= i < ps.len(),
                    ps == placeholders_view(self.placeholders@),
                    p@ == ps[i as int],
                    ps[i as int].name.len() > 0,
                    manifest_fault(self) == placeholder_fault(ps, i as int),
                    forall|k: int| 0 <= k < j ==> ps[k].name != ps[i as int].name,
                decreases i - j,
            {
                if str_eq(self.placeholders[j].name.as_str(), p.name.as_str()) {
                    assert(ps[j as int].name == ps[i as int].name);
                    assert(name_before(ps, i as int, ps[i as int].name));
                    assert(placeholder_fault(ps, i as int) == Some(
                        ManifestFault::DuplicatePlaceholder(ps[i as int].name),
                    ));
                    return Err(ManifestError::DuplicatePlaceholder(p.name.clone()));
                }
                j = j + 1;
            }
            assert(!name_before(ps, i as int, ps[i as int].name));
            if p.kind == PlaceholderType::Enum && p.choices.is_none() {
                assert(placeholder_fault(ps, i as int) == Some(
                    ManifestFault::EnumWithoutChoices(ps[i as int].name),
                ));
                return Err(ManifestError::EnumWithoutChoices(p.name.clone()));
            }
            i = i + 1;
        }
        Ok(self)
    }

    /// Get a placeholder by name.
    pub fn get_placeholder(&self, name: &str) -> (r: Option<&Placeholder>)
        ensures
            match r {
                Some(p) => first_named(placeholders_view(self.placeholders@), name@) matches Some(
                    i,
                ) && self.placeholders@[i] == *p,
                None => first_named(placeholders_view(self.placeholders@), name@) is None,
            },
    {
        let ghost ps = placeholders_view(self.placeholders@);
        let mut i: usize = 0;
        while i < self.placeholders.len()
            invariant
                i <= ps.len(),
                ps == placeholders_view(self.placeholders@),
                forall|k: int| 0 <= k < i ==> ps[k].name != name@,
            decreases ps.len() - i,
        {
            if str_eq(self.placeholders[i].name.as_str(), name) {
                assert(ps[i as int].name == name@);
                let ghost c = choose|c: int|
                    0 <= c < ps.len() && ps[c].name == name@ && forall|j: int|
                        0 <= j < c ==> ps[j].name != name@;
                assert(c == i) by {
                    if c < i {
                    } else if c > i {
                    }
                }
                return Some(&self.placeholders[i]);
            }
            i = i + 1;
        }
        None
    }

    /// Get all required placeholders, in manifest order.
    pub fn required_placeholders(&self) -> (r: Vec<&Placeholder>)
        ensures
            r@.len() == self.placeholders@.filter(|p: Placeholder| p.required).len(),
            forall|k: int|
                0 <= k < r@.len() ==> *r@[k] == self.placeholders@.filter(
                    |p: Placeholder| p.required,
                )[k],
    {
        let ghost all = self.placeholders@;
        let ghost pred = |p: Placeholder| p.required;
        let mut r: Vec<&Placeholder> = Vec::new();
        let mut i: usize = 0;
        while i < self.placeholders.len()
            invariant
                i <= all.len(),
                all == self.placeholders@,
                pred == (|p: Placeholder| p.required),
                r@.len() == all.take(i as int).filter(pred).len(),
                forall|k: int| 0 <= k < r@.len() ==> *r@[k] == all.take(i as int).filter(pred)[k],
            decreases all.len() - i,
        {
            reveal_with_fuel(Seq::<_>::filter, 1);
            assert(all.take(i + 1).drop_last() =~= all.take(i as int));
            if self.placeholders[i].required {
                r.push(&self.placeholders[i]);
            }
            i = i + 1;
        }
        assert(all.take(i as int) =~= all);
        r
    }
}

/// The first fault from position `i` on is absent exactly when every
/// placeholder from `i` on has a non-empty name that no earlier placeholder
/// has, and choices if it is an enum.
proof fn lemma_no_fault_from(ps: Seq<PlaceholderView>, i: int)
    requires
        0 <= i,
        placeholder_fault(ps, i) is None,
    ensures
        forall|k: int|
            i <= k < ps.len() ==> (#[trigger] ps[k]).name.len() > 0 && !name_before(ps, k, ps[k].name)
                && (ps[k].kind == PlaceholderType::Enum ==> ps[k].choices is Some),
    decreases ps.len() - i,
{
    if i < ps.len() {
        lemma_no_fault_from(ps, i + 1);
    }
}

/// A manifest that validation accepts has an id, a version and a display
/// name, and its placeholders have non-empty, distinct names, with choices
/// for every enum placeholder.
pub proof fn lemma_valid_manifest(m: TemplateManifest)
    requires
        manifest_fault(m) is None,
    ensures
        m.id@.len() > 0,
        m.version@.len() > 0,
        m.display_name@.len() > 0,
        forall|k: int|
            0 <= k < m.placeholders@.len() ==> (#[trigger] m.placeholders@[k]).name@.len() > 0 && (
            m.placeholders@[k].kind == PlaceholderType::Enum ==> m.placeholders@[k].choices is Some),
        forall|j: int, k: int|
            0 <= j < k < m.placeholders@.len() ==> (#[trigger] m.placeholders@[j]).name@
                != (#[trigger] m.placeholders@[k]).name@,
{
    let ps = placeholders_view(m.placeholders@);
    lemma_no_fault_from(ps, 0);
    assert forall|k: int| 0 <= k < m.placeholders@.len() implies (#[trigger] m.placeholders@[k]).name@.len()
        > 0 && (m.placeholders@[k].kind == PlaceholderType::Enum ==> m.placeholders@[k].choices
        is Some) by {
        assert(ps[k] == m.placeholders@[k]@);
    }
    assert forall|j: int, k: int| 0 <= j < k < m.placeholders@.len() implies (
    #[trigger] m.placeholders@[j]).name@ != (#[trigger] m.placeholders@[k]).name@ by {
        assert(ps[k] == m.placeholders@[k]@);
        assert(ps[j] == m.placeholders@[j]@);
        if ps[j].name == ps[k].name {
            assert(name_before(ps, k, ps[k].name));
        }
    }
}

proof fn lemma_fault_absent_from(ps: Seq<PlaceholderView>, i: int)
    requires
        0 <= i,
        forall|k: int|
            i <= k < ps.len() ==> (#[trigger] ps[k]).name.len() > 0 && !name_before(ps, k, ps[k].name)
                && (ps[k].kind == PlaceholderType::Enum ==> ps[k].choices is Some),
    ensures
        placeholder_fault(ps, i) is None,
    decreases ps.len() - i,
{
    if i < ps.len() {
        assert(ps[i].name.len() > 0);
        lemma_fault_absent_from(ps, i + 1);
    }
}

/// Validation accepts exactly the manifests with an id, a version and a
/// display name (each non-empty, whatever else it holds) whose placeholders
/// have non-empty, distinct names and choices for every enum placeholder; and
/// a missing id, version or display name is reported as such, in that order.
pub proof fn lemma_manifest_accepted_iff(m: TemplateManifest)
    ensures
        manifest_fault(m) is None <==> (m.id@.len() > 0 && m.version@.len() > 0
            && m.display_name@.len() > 0 && (forall|k: int|
            0 <= k < m.placeholders@.len() ==> (#[trigger] m.placeholders@[k]).name@.len() > 0 && (
            m.placeholders@[k].kind == PlaceholderType::Enum ==> m.placeholders@[k].choices
                is Some)) && (forall|j: int, k: int|
            0 <= j < k < m.placeholders@.len() ==> (#[trigger] m.placeholders@[j]).name@
                != (#[trigger] m.placeholders@[k]).name@)),
        manifest_fault(m) == Some(ManifestFault::IdRequired) <==> m.id@.len() == 0,
        manifest_fault(m) == Some(ManifestFault::VersionRequired) <==> m.id@.len() > 0
            && m.version@.len() == 0,
        manifest_fault(m) == Some(ManifestFault::DisplayNameRequired) <==> m.id@.len() > 0
            && m.version@.len() > 0 && m.display_name@.len() == 0,
{
    if manifest_fault(m) is None {
        lemma_valid_manifest(m);
    }
    let ps = placeholders_view(m.placeholders@);
    if m.id@.len() > 0 && m.version@.len() > 0 && m.display_name@.len() > 0 && (forall|k: int|
        0 <= k < m.placeholders@.len() ==> (#[trigger] m.placeholders@[k]).name@.len() > 0 && (
        m.placeholders@[k].kind == PlaceholderType::Enum ==> m.placeholders@[k].choices is Some))
        && (forall|j: int, k: int|
        0 <= j < k < m.placeholders@.len() ==> (#[trigger] m.placeholders@[j]).name@
            != (#[trigger] m.placeholders@[k]).name@) {
        assert forall|k: int| 0 <= k < ps.len() implies (#[trigger] ps[k]).name.len() > 0
            && !name_before(ps, k, ps[k].name) && (ps[k].kind == PlaceholderType::Enum
            ==> ps[k].choices is Some) by {
            assert(ps[k] == m.placeholders@[k]@);
            assert(m.placeholders@[k].name@.len() > 0);
            if name_before(ps, k, ps[k].name) {
                let j = choose|j: int| 0 <= j < k && ps[j].name == ps[k].name;
                assert(ps[j] == m.placeholders@[j]@);
                assert(m.placeholders@[j].name@ != m.placeholders@[k].name@);
            }
        }
        lemma_fault_absent_from(ps, 0);
    }
    if m.id@.len() > 0 && m.version@.len() > 0 && m.display_name@.len() > 0 {
        lemma_placeholder_fault_kinds(ps, 0);
    }
}

/// A placeholder fault is about a placeholder, never about the manifest's
/// own fields.
proof fn lemma_placeholder_fault_kinds(ps: Seq<PlaceholderView>, i: int)
    ensures
        placeholder_fault(ps, i) != Some(ManifestFault::IdRequired),
        placeholder_fault(ps, i) != Some(ManifestFault::VersionRequired),
        placeholder_fault(ps, i) != Some(ManifestFault::DisplayNameRequired),
    decreases ps.len() - i,
{
    if 0 <= i < ps.len() {
        lemma_placeholder_fault_kinds(ps, i + 1);
    }
}

} // verus!
