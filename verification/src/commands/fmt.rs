//! The `fmt` command: what happens to each file and how the run ends.
use vstd::prelude::*;
use crate::format_laws::{copied_verbatim, lemma_format_idempotent};
use crate::formatter::spec_format;
use crate::text::{chars_of, clean_line, concat_str, lines, same_chars, string_of};
use crate::version::{decimal, decimal_text};

verus! {

/// What `fmt` does with one file.
#[derive(Clone, Debug)]
pub enum FileOutcome {
    /// The file is already formatted.
    Unchanged,
    /// With `--check`: the file would change; it is reported, not written.
    NeedsFormatting,
    /// The file is rewritten with this content.
    Rewrite(String),
}

/// What `fmt` does with a file holding `content`.
pub open spec fn file_outcome(check: bool, content: Seq<char>, o: FileOutcome) -> bool {
    if spec_format(content) == content {
        o is Unchanged
    } else if check {
        o is NeedsFormatting
    } else {
        o matches FileOutcome::Rewrite(c) && c@ == spec_format(content)
    }
}

/// Decide what `fmt` does with a file holding `content`.
pub fn process_file(check: bool, content: &str) -> (r: FileOutcome)
    ensures
        file_outcome(check, content@, r),
{
    let formatted = crate::formatter::format(content);
    let a = chars_of(content);
    let b = chars_of(formatted.as_str());
    if same_chars(&a, &b) {
        FileOutcome::Unchanged
    } else if check {
        FileOutcome::NeedsFormatting
    } else {
        FileOutcome::Rewrite(formatted)
    }
}

/// How a run of `fmt` over `total` files ends, `unformatted` of which need
/// formatting: with `--check` and files to format, the error; otherwise the
/// closing line.
pub open spec fn fmt_result(check: bool, unformatted: nat, total: nat) -> Result<
    Seq<char>,
    Seq<char>,
> {
    if check && unformatted > 0 {
        Err(decimal(unformatted) + " file(s) need formatting — run 'texforge fmt'"@)
    } else if !check {
        Ok("✅ "@ + decimal(total) + " file(s) checked"@)
    } else {
        Ok("✅ All files formatted correctly"@)
    }
}

/// How a run of `fmt` ends.
pub fn summary(check: bool, unformatted: usize, total: usize) -> (r: Result<String, String>)
    ensures
        match fmt_result(check, unformatted as nat, total as nat) {
            Ok(m) => r matches Ok(s) && s@ == m,
            Err(m) => r matches Err(s) && s@ == m,
        },
{
    if check && unformatted > 0 {
        let n = decimal_text(unformatted as u64);
        let t = string_of(n.as_slice());
        Err(concat_str(t.as_str(), " file(s) need formatting — run 'texforge fmt'"))
    } else if !check {
        let n = decimal_text(total as u64);
        let t = string_of(n.as_slice());
        let a = concat_str("✅ ", t.as_str());
        Ok(concat_str(a.as_str(), " file(s) checked"))
    } else {
        Ok(string_of(chars_of("✅ All files formatted correctly").as_slice()))
    }
}

/// A file that `fmt` rewrites is then left as it is by the next run, with or
/// without `--check`; for every content but one with a line inside a verbatim
/// environment that ends in a carriage return.
pub proof fn lemma_rewrite_is_final(check: bool, content: Seq<char>, o: FileOutcome)
    requires
        file_outcome(false, content, o),
        forall|k: int|
            0 <= k < lines(content).len() && copied_verbatim(lines(content), k) ==> clean_line(
                #[trigger] lines(content)[k],
            ),
    ensures
        o matches FileOutcome::Rewrite(c) ==> file_outcome(check, c@, FileOutcome::Unchanged),
{
    lemma_format_idempotent(content);
}

} // verus!
