//! The `template` command: the listing of installed templates and the
//! validity check of a template's files.
use vstd::prelude::*;
use crate::text::{chars_of, concat_str, eq_lit, string_of, strings_view};

verus! {

/// The lines listing installed templates, one `  - name` line each.
pub open spec fn listed(names: Seq<Seq<char>>) -> Seq<char>
    decreases names.len(),
{
    if names.len() == 0 {
        Seq::empty()
    } else {
        listed(names.drop_last()) + "  - "@ + names.last() + "\n"@
    }
}

/// What `template list` prints for the installed templates `names`.
pub open spec fn listing(names: Seq<Seq<char>>) -> Seq<char> {
    if names.len() == 0 {
        "No templates installed locally.\nThe 'general' template is always available (built-in).\n"@
    } else {
        "Installed templates:\n"@ + listed(names)
    }
}

/// What `template list` prints for the installed templates `names`.
pub fn list(names: &[String]) -> (r: String)
    ensures
        r@ == listing(strings_view(names@)),
{
    if names.len() == 0 {
        return string_of(
            chars_of(
                "No templates installed locally.\nThe 'general' template is always available (built-in).\n",
            ).as_slice(),
        );
    }
    let ghost ns = strings_view(names@);
    let mut out = string_of(chars_of("Installed templates:\n").as_slice());
    let mut i: usize = 0;
    assert(ns.take(0) =~= Seq::<Seq<char>>::empty());
    while i < names.len()
        invariant
            i <= names@.len(),
            ns == strings_view(names@),
            out@ == "Installed templates:\n"@ + listed(ns.take(i as int)),
        decreases names@.len() - i,
    {
        let a = concat_str(out.as_str(), "  - ");
        let b = concat_str(a.as_str(), names[i].as_str());
        out = concat_str(b.as_str(), "\n");
        assert(ns.take(i + 1).drop_last() =~= ns.take(i as int));
        i = i + 1;
    }
    assert(ns.take(i as int) =~= ns);
    out
}

/// Why a template is not valid.
#[derive(Clone, Debug)]
pub enum TemplateError {
    /// The template has no `template.toml`; holds the template's name.
    MissingManifest(String),
}

impl TemplateError {
    /// The error's message.
    pub fn message(&self) -> (r: String)
        ensures
            r@ == match self {
                TemplateError::MissingManifest(n) => "Template '"@ + n@
                    + "' is missing template.toml"@,
            },
    {
        match self {
            TemplateError::MissingManifest(n) => {
                let a = concat_str("Template '", n.as_str());
                concat_str(a.as_str(), "' is missing template.toml")
            },
        }
    }
}

/// `template validate`: a template is valid when one of its files is
/// `template.toml`; the confirmation names it.
pub fn validate(name: &str, file_paths: &[String]) -> (r: Result<String, TemplateError>)
    ensures
        strings_view(file_paths@).contains("template.toml"@) ==> (r matches Ok(s) && s@
            == "✅ Template '"@ + name@ + "' is valid"@),
        !strings_view(file_paths@).contains("template.toml"@) ==> (r matches Err(
            TemplateError::MissingManifest(n),
        ) && n@ == name@),
{
    let ghost ps = strings_view(file_paths@);
    let mut found = false;
    let mut i: usize = 0;
    while i < file_paths.len()
        invariant
            i <= file_paths@.len(),
            ps == strings_view(file_paths@),
            found <==> exists|j: int| 0 <= j < i && ps[j] == "template.toml"@,
        decreases file_paths@.len() - i,
    {
        let p = chars_of(file_paths[i].as_str());
        assert(ps[i as int] == p@);
        if eq_lit(&p, "template.toml") {
            found = true;
        }
        i = i + 1;
    }
    if found {
        let a = concat_str("✅ Template '", name);
        Ok(concat_str(a.as_str(), "' is valid"))
    } else {
        assert(!ps.contains("template.toml"@));
        Err(TemplateError::MissingManifest(name.to_string()))
    }
}

} // verus!
