//! The `init` command: the `project.toml` written for an existing directory,
//! and which files it takes as entry point and bibliography.
use vstd::prelude::*;
use crate::compiler::{last_index_chars, last_index_of};
use crate::text::{chars_of, concat_str, contains, eq_lit, find_at, slice_of, string_of};

verus! {

/// The `bibliografia` line: the bibliography found, or a commented example.
pub open spec fn bib_line(bib: Option<Seq<char>>) -> Seq<char> {
    match bib {
        Some(b) => "bibliografia = \""@ + b + "\""@,
        None => "# bibliografia = \"refs.bib\""@,
    }
}

/// The `project.toml` that `init` writes: titled after the directory
/// (`documento` when it has no name), with the entry point found (else
/// `main.tex`) and the bibliography line.
pub open spec fn init_project_toml(
    dir_name: Option<Seq<char>>,
    entry: Option<Seq<char>>,
    bib: Option<Seq<char>>,
) -> Seq<char> {
    let title = match dir_name {
        Some(d) => d,
        None => "documento"@,
    };
    let e = match entry {
        Some(x) => x,
        None => "main.tex"@,
    };
    "[documento]\ntitulo = \""@ + title
        + "\"\nautor = \"Author\"\ntemplate = \"general\"\n\n[compilacion]\nentry = \""@ + e
        + "\"\n"@ + bib_line(bib) + "\n"@
}

/// The `project.toml` for a directory named `dir_name` whose entry point and
/// bibliography are `entry` and `bib`, where found.
pub fn project_toml(dir_name: Option<&str>, entry: Option<&str>, bib: Option<&str>) -> (r: String)
    ensures
        r@ == init_project_toml(
            match dir_name {
                Some(s) => Some(s@),
                None => None,
            },
            match entry {
                Some(s) => Some(s@),
                None => None,
            },
            match bib {
                Some(s) => Some(s@),
                None => None,
            },
        ),
{
    let title = match dir_name {
        Some(d) => d,
        None => "documento",
    };
    let e = match entry {
        Some(x) => x,
        None => "main.tex",
    };
    let line = match bib {
        Some(b) => {
            let x = concat_str("bibliografia = \"", b);
            concat_str(x.as_str(), "\"")
        },
        None => string_of(chars_of("# bibliografia = \"refs.bib\"").as_slice()),
    };
    let a = concat_str("[documento]\ntitulo = \"", title);
    let b1 = concat_str(
        a.as_str(),
        "\"\nautor = \"Author\"\ntemplate = \"general\"\n\n[compilacion]\nentry = \"",
    );
    let c = concat_str(b1.as_str(), e);
    let d = concat_str(c.as_str(), "\"\n");
    let f = concat_str(d.as_str(), line.as_str());
    concat_str(f.as_str(), "\n")
}

/// A `.tex` file is the entry point when it declares `\documentclass`.
pub fn declares_document(content: &str) -> (r: bool)
    ensures
        r == contains(content@, "\\documentclass"@),
{
    let c = chars_of(content);
    let p = chars_of("\\documentclass");
    find_at(&c, &p, 0).is_some()
}

/// The extension of a file name, as `Path::extension` gives it: what follows
/// the last `.`, unless that `.` is the name's first character or the name
/// is `..`.
pub open spec fn extension(name: Seq<char>) -> Option<Seq<char>> {
    if name == ".."@ {
        None
    } else {
        match last_index_of(name, '.') {
            Some(i) => if i > 0 {
                Some(name.skip(i + 1))
            } else {
                None
            },
            None => None,
        }
    }
}

/// The file name `name` has the extension `ext`.
pub fn has_extension_of(name: &str, ext: &str) -> (r: bool)
    ensures
        r == (extension(name@) == Some(ext@)),
{
    let n = chars_of(name);
    if eq_lit(&n, "..") {
        return false;
    }
    match last_index_chars(&n, '.') {
        Some(i) => {
            if i == 0 {
                return false;
            }
            let len = n.len();
            assert(i < len);
            let e = slice_of(&n, i + 1, len);
            assert(e@ =~= n@.skip(i + 1));
            let x = chars_of(ext);
            crate::text::same_chars(&e, &x)
        },
        None => false,
    }
}

} // verus!
