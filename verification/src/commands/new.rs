//! The `new` command: which files a new project gets, and its `project.toml`.
use vstd::prelude::*;
use crate::text::{chars_of, concat_str, eq_lit};

verus! {

/// The `project.toml` of a new project.
pub open spec fn new_project_toml(name: Seq<char>, template: Seq<char>) -> Seq<char> {
    "[documento]\ntitulo = \""@ + name + "\"\nautor = \"Author\"\ntemplate = \""@ + template
        + "\"\n\n[compilacion]\nentry = \"main.tex\"\nbibliografia = \"bib/references.bib\"\n"@
}

/// The `project.toml` of a new project named `name` made from `template`.
pub fn project_toml(name: &str, template: &str) -> (r: String)
    ensures
        r@ == new_project_toml(name@, template@),
{
    let a = concat_str("[documento]\ntitulo = \"", name);
    let b = concat_str(a.as_str(), "\"\nautor = \"Author\"\ntemplate = \"");
    let c = concat_str(b.as_str(), template);
    concat_str(
        c.as_str(),
        "\"\n\n[compilacion]\nentry = \"main.tex\"\nbibliografia = \"bib/references.bib\"\n",
    )
}

/// A template file that a project gets: every one but the template's own
/// metadata, `template.toml`.
pub open spec fn is_project_file(rel_path: Seq<char>) -> bool {
    rel_path != "template.toml"@
}

/// A file to write: its path under the project directory and its content.
#[derive(Clone, Debug)]
pub struct PlannedFile {
    pub path: String,
    pub content: String,
}

/// What `new` writes: the template's files other than `template.toml`, in
/// the order given, then `project.toml`.
pub open spec fn planned_files(
    template_files: Seq<(Seq<char>, Seq<char>)>,
    name: Seq<char>,
    template: Seq<char>,
) -> Seq<(Seq<char>, Seq<char>)> {
    template_files.filter(|f: (Seq<char>, Seq<char>)| is_project_file(f.0)).push(
        ("project.toml"@, new_project_toml(name, template)),
    )
}

/// Files by path and content.
pub open spec fn planned_view(fs: Seq<PlannedFile>) -> Seq<(Seq<char>, Seq<char>)> {
    fs.map_values(|f: PlannedFile| (f.path@, f.content@))
}

/// The files of a new project named `name` from the template `template`
/// whose files are `template_files`.
pub fn plan(name: &str, template: &str, template_files: &[PlannedFile]) -> (r: Vec<PlannedFile>)
    ensures
        planned_view(r@) == planned_files(planned_view(template_files@), name@, template@),
{
    let mut out: Vec<PlannedFile> = Vec::new();
    let ghost src = planned_view(template_files@);
    let ghost keep = |f: (Seq<char>, Seq<char>)| is_project_file(f.0);
    let mut i: usize = 0;
    assert(src.take(0) =~= Seq::<(Seq<char>, Seq<char>)>::empty());
    while i < template_files.len()
        invariant
            i <= template_files@.len(),
            src == planned_view(template_files@),
            keep == (|f: (Seq<char>, Seq<char>)| is_project_file(f.0)),
            planned_view(out@) == src.take(i as int).filter(keep),
        decreases template_files@.len() - i,
    {
        let f = &template_files[i];
        let p = chars_of(f.path.as_str());
        assert(src.take(i + 1).drop_last() =~= src.take(i as int));
        proof {
            reveal(Seq::filter);
        }
        if !eq_lit(&p, "template.toml") {
            let ghost before = planned_view(out@);
            out.push(PlannedFile { path: f.path.clone(), content: f.content.clone() });
            assert(planned_view(out@) =~= before.push(src[i as int]));
        } else {
            assert(!keep(src[i as int]));
        }
        i = i + 1;
    }
    assert(src.take(i as int) =~= src);
    let ghost before = planned_view(out@);
    let toml = project_toml(name, template);
    proof {
        reveal_strlit("project.toml");
    }
    out.push(PlannedFile { path: "project.toml".to_string(), content: toml });
    assert(planned_view(out@) =~= before.push(("project.toml"@, new_project_toml(name@, template@))));
    out
}

/// The directory that `new` creates for images.
pub open spec fn images_dir() -> Seq<char> {
    "assets/images"@
}

/// The directory that `new` creates for images.
pub fn images_directory() -> (r: String)
    ensures
        r@ == images_dir(),
{
    let s = chars_of("assets/images");
    proof {
        reveal_strlit("assets/images");
    }
    crate::text::string_of(s.as_slice())
}

/// What `new` writes never includes the template's `template.toml`, and
/// always ends with the project's `project.toml`.
pub proof fn lemma_plan_shape(
    template_files: Seq<(Seq<char>, Seq<char>)>,
    name: Seq<char>,
    template: Seq<char>,
)
    ensures
        ({
            let fs = planned_files(template_files, name, template);
            &&& fs.len() > 0
            &&& fs.last() == ("project.toml"@, new_project_toml(name, template))
            &&& forall|i: int| 0 <= i < fs.len() - 1 ==> is_project_file(#[trigger] fs[i].0)
        }),
{
    let keep = |f: (Seq<char>, Seq<char>)| is_project_file(f.0);
    let kept = template_files.filter(keep);
    assert forall|i: int| 0 <= i < kept.len() implies is_project_file(#[trigger] kept[i].0) by {
        template_files.lemma_filter_pred(keep, i);
    }
    let fs = planned_files(template_files, name, template);
    assert forall|i: int| 0 <= i < fs.len() - 1 implies is_project_file(#[trigger] fs[i].0) by {
        assert(fs[i] == kept[i]);
    }
}

} // verus!
