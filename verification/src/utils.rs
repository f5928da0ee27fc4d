//! What mirroring the project's assets into `build/` does with each entry
//! of the project directory.
use vstd::prelude::*;
use crate::commands::init::{extension, has_extension_of};
use crate::text::chars_of;

verus! {

/// What happens to one entry of the project directory.
#[derive(Clone, Copy, Debug, PartialEq, Eq, Structural)]
pub enum MirrorAction {
    /// Left alone.
    Skip,
    /// A directory, linked into `build/`.
    Link,
    /// A file, copied into `build/`.
    Copy,
}

/// The action for an entry named `name`: hidden entries and `build/` itself
/// are skipped; a directory is linked unless something already stands at its
/// place in `build/`; a file other than a `.tex` file is copied unless its
/// copy exists; anything else is skipped.
pub open spec fn spec_mirror_action(
    name: Seq<char>,
    is_build_dir: bool,
    is_dir: bool,
    is_file: bool,
    dest_taken: bool,
) -> MirrorAction {
    if (name.len() > 0 && name[0] == '.') || is_build_dir {
        MirrorAction::Skip
    } else if is_dir {
        if dest_taken {
            MirrorAction::Skip
        } else {
            MirrorAction::Link
        }
    } else if is_file && extension(name) != Some("tex"@) && !dest_taken {
        MirrorAction::Copy
    } else {
        MirrorAction::Skip
    }
}

/// Decide what mirroring does with the entry `name` of the project
/// directory, given whether it is `build/` itself, a directory or a file, and
/// whether its place in `build/` is taken.
pub fn mirror_action(
    name: &str,
    is_build_dir: bool,
    is_dir: bool,
    is_file: bool,
    dest_taken: bool,
) -> (r: MirrorAction)
    ensures
        r == spec_mirror_action(name@, is_build_dir, is_dir, is_file, dest_taken),
{
    let n = chars_of(name);
    if (n.len() > 0 && n[0] == '.') || is_build_dir {
        MirrorAction::Skip
    } else if is_dir {
        if dest_taken {
            MirrorAction::Skip
        } else {
            MirrorAction::Link
        }
    } else if is_file && !has_extension_of(name, "tex") && !dest_taken {
        MirrorAction::Copy
    } else {
        MirrorAction::Skip
    }
}

} // verus!
