//! Static lint rules for LaTeX projects.
use vstd::prelude::*;
use crate::text::{
    has_prefix, lines, split_lines, starts_with, strings_view, opt_view,
    append_chars, chars_of, find, find_at, lemma_find_from, lemma_find_skip, occurs_at,
    slice_of, string_of, trim, trim_chars, seqs_of, eq_lit,
};

verus! {

/// Where the comment of a line starts: the first `%` at or after `i` that is
/// not escaped, or the line's length. A backslash escapes the character after it
/// unless it is itself escaped; `escaped` tells whether the character at `i`
/// is.
pub open spec fn comment_start(s: Seq<char>, i: int, escaped: bool) -> int
    decreases s.len() - i,
{
    if i < 0 || i >= s.len() {
        s.len() as int
    } else if s[i] == '%' && !escaped {
        i
    } else {
        comment_start(s, i + 1, s[i] == '\\' && !escaped)
    }
}

/// The line without its comment.
pub open spec fn spec_strip_comment(s: Seq<char>) -> Seq<char> {
    s.take(comment_start(s, 0, false))
}

fn strip_comment_chars(s: &Vec<char>) -> (r: Vec<char>)
    ensures
        r@ == spec_strip_comment(s@),
{
    let mut i: usize = 0;
    let mut escaped = false;
    while i < s.len()
        invariant
            i <= s@.len(),
            comment_start(s@, 0, false) == comment_start(s@, i as int, escaped),
        decreases s@.len() - i,
    {
        if s[i] == '%' && !escaped {
            return slice_of(s, 0, i);
        }
        escaped = s[i] == '\\' && !escaped;
        i = i + 1;
    }
    slice_of(s, 0, s.len())
}

/// Strip a LaTeX comment from a line: everything from the first unescaped
/// `%` on, where a backslash escapes the character after it unless it is
/// itself escaped.
pub fn strip_comment(line: &str) -> (r: String)
    ensures
        r@ == spec_strip_comment(line@),
{
    let s = chars_of(line);
    let r = strip_comment_chars(&s);
    string_of(r.as_slice())
}

/// The arguments of `pat{arg}` and `pat[opts]{arg}` in `search`, trimmed, empty
/// ones left out.
pub open spec fn cmd_args(search: Seq<char>, pat: Seq<char>) -> Seq<Seq<char>>
    decreases search.len(),
{
    if pat.len() == 0 {
        seq![]
    } else {
        match find(search, pat) {
            None => seq![],
            Some(pos) => {
                proof {
                    lemma_find_from(search, pat, 0);
                }
                let after = search.skip(pos + pat.len());
                let opened = if after.len() > 0 && after[0] == '[' {
                    match find(after, seq![']']) {
                        Some(e) => {
                            proof {
                                lemma_find_from(after, seq![']'], 0);
                            }
                            Some(after.skip(e + 1))
                        },
                        None => None,
                    }
                } else {
                    Some(after)
                };
                match opened {
                    None => seq![],
                    Some(a) => if a.len() > 0 && a[0] == '{' {
                        match find(a, seq!['}']) {
                            Some(e) => {
                                proof {
                                    lemma_find_from(a, seq!['}'], 0);
                                }
                                let arg = trim(a.subrange(1, e));
                                let rest = cmd_args(a.skip(e + 1), pat);
                                if arg.len() > 0 {
                                    seq![arg] + rest
                                } else {
                                    rest
                                }
                            },
                            None => cmd_args(a, pat),
                        }
                    } else {
                        cmd_args(a, pat)
                    },
                }
            },
        }
    }
}

/// `\` followed by a command name.
pub open spec fn command_pattern(cmd: Seq<char>) -> Seq<char> {
    seq!['\\'] + cmd
}

fn single(c: char) -> (r: Vec<char>)
    ensures
        r@ == seq![c],
{
    let mut r: Vec<char> = Vec::new();
    r.push(c);
    assert(r@ =~= seq![c]);
    r
}

/// The arguments of `pat` commands in `line`, as character vectors.
pub fn command_args(line: &Vec<char>, pat: &Vec<char>) -> (r: Vec<Vec<char>>)
    requires
        pat@.len() > 0,
    ensures
        seqs_of(r@) == cmd_args(line@, pat@),
{
    let close_opt = single(']');
    let close_arg = single('}');
    let mut out: Vec<Vec<char>> = Vec::new();
    let mut off: usize = 0;
    let n = line.len();
    assert(line@.skip(0) =~= line@);
    loop
        invariant
            pat@.len() > 0,
            close_opt@ == seq![']'],
            close_arg@ == seq!['}'],
            n == line@.len(),
            off <= n,
            seqs_of(out@) + cmd_args(line@.skip(off as int), pat@) == cmd_args(line@, pat@),
        decreases n - off,
    {
        let ghost search = line@.skip(off as int);
        proof {
            lemma_find_skip(line@, pat@, off as int, 0);
            lemma_find_from(line@, pat@, off as int);
        }
        let p = match find_at(line, pat, off) {
            None => {
                assert(cmd_args(search, pat@) =~= Seq::<Seq<char>>::empty());
                assert(seqs_of(out@) + Seq::<Seq<char>>::empty() =~= seqs_of(out@));
                return out;
            },
            Some(p) => p,
        };
        assert(occurs_at(line@, pat@, p as int));
        assert(p + pat@.len() <= n);
        let a0 = p + pat.len();
        let ghost after = search.skip(p - off + pat@.len());
        assert(after =~= line@.skip(a0 as int));
        assert(find(search, pat@) == Some(p - off));
        assert(a0 < n ==> after[0] == line@[a0 as int]);
        assert(after.len() == n - a0);
        let ghost opened_spec = if after.len() > 0 && after[0] == '[' {
            match find(after, seq![']']) {
                Some(e) => Some(after.skip(e + 1)),
                None => None,
            }
        } else {
            Some(after)
        };
        assert(cmd_args(search, pat@) == match opened_spec {
            None => Seq::<Seq<char>>::empty(),
            Some(a) => if a.len() > 0 && a[0] == '{' {
                match find(a, seq!['}']) {
                    Some(e) => {
                        let arg = trim(a.subrange(1, e));
                        let rest = cmd_args(a.skip(e + 1), pat@);
                        if arg.len() > 0 {
                            seq![arg] + rest
                        } else {
                            rest
                        }
                    },
                    None => cmd_args(a, pat@),
                }
            } else {
                cmd_args(a, pat@)
            },
        });
        let mut a = a0;
        if a0 < n && line[a0] == '[' {
            proof {
                lemma_find_skip(line@, seq![']'], a0 as int, 0);
                lemma_find_from(line@, seq![']'], a0 as int);
            }
            match find_at(line, &close_opt, a0) {
                None => {
                    assert(cmd_args(search, pat@) =~= Seq::<Seq<char>>::empty());
                    assert(seqs_of(out@) + Seq::<Seq<char>>::empty() =~= seqs_of(out@));
                    return out;
                },
                Some(e) => {
                    assert(occurs_at(line@, seq![']'], e as int));
                    assert(line@.skip(a0 as int).skip(e - a0 + 1) =~= line@.skip(e + 1));
                    a = e + 1;
                },
            }
        }
        let ghost opened = line@.skip(a as int);
        assert(opened_spec == Some(opened));
        if a < n && line[a] == '{' {
            proof {
                lemma_find_skip(line@, seq!['}'], a as int, 0);
                lemma_find_from(line@, seq!['}'], a as int);
            }
            match find_at(line, &close_arg, a) {
                Some(e) => {
                    assert(occurs_at(line@, seq!['}'], e as int));
                    let inner = slice_of(line, a + 1, e);
                    assert(inner@ =~= opened.subrange(1, e - a));
                    let arg = trim_chars(&inner);
                    assert(opened.skip(e - a + 1) =~= line@.skip(e + 1));
                    if arg.len() > 0 {
                        let ghost before = seqs_of(out@);
                        let ghost av = arg@;
                        out.push(arg);
                        assert(seqs_of(out@) =~= before.push(av));
                        assert(before.push(av) + cmd_args(line@.skip(e + 1), pat@) =~= before + (
                        seq![av] + cmd_args(line@.skip(e + 1), pat@)));
                    }
                    off = e + 1;
                },
                None => {
                    off = a;
                },
            }
        } else {
            off = a;
        }
    }
}

/// Extract arguments from `\command{arg}` and `\command[opts]{arg}` in a line.
pub fn extract_commands(line: &str, cmd: &str) -> (r: Vec<String>)
    ensures
        crate::text::strings_view(r@) == cmd_args(line@, command_pattern(cmd@)),
{
    let l = chars_of(line);
    let mut pat = single('\\');
    let c = chars_of(cmd);
    append_chars(&mut pat, &c);
    let args = command_args(&l, &pat);
    crate::text::strings_of(&args)
}

/// `s` without trailing `/` characters and trailing `.` components, which a
/// path's components leave out.
pub open spec fn strip_trailing_separators(s: Seq<char>) -> Seq<char>
    decreases s.len(),
{
    if s.len() > 0 && s.last() == '/' {
        strip_trailing_separators(s.drop_last())
    } else if s.len() > 1 && s.last() == '.' && s[s.len() - 2] == '/' {
        strip_trailing_separators(s.drop_last())
    } else {
        s
    }
}

/// The text after the last `/` of `s`.
pub open spec fn after_last_slash(s: Seq<char>) -> Seq<char>
    decreases s.len(),
{
    if s.len() == 0 {
        s
    } else if s.last() == '/' {
        seq![]
    } else {
        after_last_slash(s.drop_last()).push(s.last())
    }
}

/// A file name has an extension: it is not `..` and has a `.` after its first
/// character.
pub open spec fn has_extension(name: Seq<char>) -> bool {
    name != ".."@ && exists|i: int| 1 <= i < name.len() && name[i] == '.'
}

/// The path of an `\input`: unchanged when its file name has an extension (or
/// it has no file name), else with trailing slashes and `.` components removed
/// and `.tex` added.
pub open spec fn spec_resolve_tex(input: Seq<char>) -> Seq<char> {
    let t = strip_trailing_separators(input);
    let name = after_last_slash(t);
    if name.len() == 0 || name == "."@ || name == ".."@ || has_extension(name) {
        input
    } else {
        t + ".tex"@
    }
}

/// `rel` under `root`, as `Path::join` writes it: an absolute `rel` replaces
/// `root`; otherwise a `/` separates them unless `root` is empty or ends in one.
pub open spec fn spec_join_path(root: Seq<char>, rel: Seq<char>) -> Seq<char> {
    if rel.len() > 0 && rel[0] == '/' {
        rel
    } else if root.len() == 0 || root.last() == '/' {
        root + rel
    } else {
        root + seq!['/'] + rel
    }
}

fn strip_separators_chars(s: &Vec<char>) -> (r: usize)
    ensures
        r <= s@.len(),
        s@.take(r as int) == strip_trailing_separators(s@),
{
    let mut n = s.len();
    assert(s@.take(n as int) =~= s@);
    while n > 0 && (s[n - 1] == '/' || (n > 1 && s[n - 1] == '.' && s[n - 2] == '/'))
        invariant
            n <= s@.len(),
            strip_trailing_separators(s@.take(n as int)) == strip_trailing_separators(s@),
        decreases n,
    {
        assert(s@.take(n as int).drop_last() =~= s@.take(n - 1));
        n = n - 1;
    }
    n
}

fn last_slash_start(s: &Vec<char>, n: usize) -> (r: usize)
    requires
        n <= s@.len(),
    ensures
        r <= n,
        s@.subrange(r as int, n as int) == after_last_slash(s@.take(n as int)),
{
    let mut k = n;
    assert(s@.subrange(n as int, n as int) =~= Seq::<char>::empty());
    while k > 0 && s[k - 1] != '/'
        invariant
            k <= n <= s@.len(),
            after_last_slash(s@.take(n as int)) == after_last_slash(s@.take(k as int)) + s@.subrange(
                k as int,
                n as int,
            ),
        decreases k,
    {
        assert(s@.take(k as int).drop_last() =~= s@.take(k - 1));
        assert(s@.subrange(k - 1, n as int) =~= seq![s@[k - 1]] + s@.subrange(k as int, n as int));
        k = k - 1;
    }
    if k > 0 {
        assert(s@.take(k as int).last() == '/');
    }
    assert(after_last_slash(s@.take(k as int)) =~= Seq::<char>::empty());
    k
}

/// Resolve a `\input` path, adding the `.tex` extension if missing.
pub fn resolve_tex_path(input: &str) -> (r: String)
    ensures
        r@ == spec_resolve_tex(input@),
{
    let s = chars_of(input);
    let n = strip_separators_chars(&s);
    let k = last_slash_start(&s, n);
    let name = slice_of(&s, k, n);
    let mut ext = false;
    let mut i: usize = 1;
    while i < name.len()
        invariant
            1 <= i,
            !ext ==> forall|j: int| 1 <= j < i && j < name@.len() ==> name@[j] != '.',
            ext ==> exists|j: int| 1 <= j < name@.len() && name@[j] == '.',
        decreases name@.len() - i,
    {
        if name[i] == '.' {
            ext = true;
        }
        i = i + 1;
    }
    let dots = eq_lit(&name, "..");
    let dot = eq_lit(&name, ".");
    if name.len() == 0 || dot || dots || ext {
        string_of(s.as_slice())
    } else {
        let mut t = slice_of(&s, 0, n);
        let e = chars_of(".tex");
        append_chars(&mut t, &e);
        string_of(t.as_slice())
    }
}

/// `rel` joined under `root`.
pub fn join_path(root: &str, rel: &str) -> (r: String)
    ensures
        r@ == spec_join_path(root@, rel@),
{
    let a = chars_of(root);
    let b = chars_of(rel);
    if b.len() > 0 && b[0] == '/' {
        return string_of(b.as_slice());
    }
    let mut r = slice_of(&a, 0, a.len());
    if !(a.len() == 0 || a[a.len() - 1] == '/') {
        r.push('/');
    }
    append_chars(&mut r, &b);
    string_of(r.as_slice())
}

/// A lint finding with its location and an optional suggestion.
#[derive(Clone, Debug)]
pub struct LintError {
    pub file: String,
    pub line: usize,
    pub message: String,
    pub suggestion: Option<String>,
}

/// What a lint finding holds.
pub struct LintErrorView {
    pub file: Seq<char>,
    pub line: nat,
    pub message: Seq<char>,
    pub suggestion: Option<Seq<char>>,
}

impl View for LintError {
    type V = LintErrorView;

    open spec fn view(&self) -> LintErrorView {
        LintErrorView {
            file: self.file@,
            line: self.line as nat,
            message: self.message@,
            suggestion: opt_view(self.suggestion),
        }
    }
}

/// The findings of a list, by what they hold.
pub open spec fn errors_view(v: Seq<LintError>) -> Seq<LintErrorView> {
    Seq::new(v.len(), |i: int| v[i]@)
}

/// The text of a finding: `ERROR [file:line]`, then the message on its own
/// line indented by two spaces, then the suggestion, if any, on another such
/// line after `suggestion: `.
pub open spec fn lint_error_text(e: LintErrorView) -> Seq<char> {
    let head = "ERROR ["@ + e.file + ":"@ + crate::version::decimal(e.line) + "]\n  "@ + e.message;
    match e.suggestion {
        Some(s) => head + "\n  suggestion: "@ + s,
        None => head,
    }
}

impl LintError {
    /// The finding as text.
    pub fn render(&self) -> (r: String)
        ensures
            r@ == lint_error_text(self@),
    {
        let mut t = chars_of("ERROR [");
        append_chars(&mut t, &chars_of(self.file.as_str()));
        append_chars(&mut t, &chars_of(":"));
        append_chars(&mut t, &crate::version::decimal_text(self.line as u64));
        append_chars(&mut t, &chars_of("]\n  "));
        append_chars(&mut t, &chars_of(self.message.as_str()));
        if let Some(s) = &self.suggestion {
            append_chars(&mut t, &chars_of("\n  suggestion: "));
            append_chars(&mut t, &chars_of(s.as_str()));
        }
        string_of(t.as_slice())
    }
}

fn push_error(errors: &mut Vec<LintError>, e: LintError)
    ensures
        errors_view(final(errors)@) == errors_view(old(errors)@).push(e@),
{
    let ghost before = errors_view(errors@);
    let ghost ev = e@;
    errors.push(e);
    assert(errors_view(errors@) =~= before.push(ev));
}

/// `\end{env} does not match \begin{top}`
pub open spec fn mismatch_error(rel: Seq<char>, line: nat, env: Seq<char>, top: Seq<char>) -> LintErrorView {
    LintErrorView {
        file: rel,
        line,
        message: "\\end{"@ + env + "} does not match \\begin{"@ + top + "}"@,
        suggestion: Some("Expected \\end{"@ + top + "}"@),
    }
}

/// `\end{env} without matching \begin`
pub open spec fn orphan_end_error(rel: Seq<char>, line: nat, env: Seq<char>) -> LintErrorView {
    LintErrorView {
        file: rel,
        line,
        message: "\\end{"@ + env + "} without matching \\begin"@,
        suggestion: None,
    }
}

/// `\begin{env} never closed`
pub open spec fn unclosed_error(rel: Seq<char>, line: nat, env: Seq<char>) -> LintErrorView {
    LintErrorView {
        file: rel,
        line,
        message: "\\begin{"@ + env + "} never closed"@,
        suggestion: Some("Add \\end{"@ + env + "}"@),
    }
}

/// Open environments (name and line) and findings so far.
pub struct EnvState {
    pub stack: Seq<(Seq<char>, nat)>,
    pub errs: Seq<LintErrorView>,
}

/// Open each of `begins` at line `line`.
pub open spec fn open_envs(stack: Seq<(Seq<char>, nat)>, begins: Seq<Seq<char>>, line: nat) -> Seq<
    (Seq<char>, nat),
> {
    stack + Seq::new(begins.len(), |i: int| (begins[i], line))
}

/// Close `env` at line `line`.
pub open spec fn close_env(rel: Seq<char>, line: nat, st: EnvState, env: Seq<char>) -> EnvState {
    if st.stack.len() > 0 {
        let top = st.stack.last().0;
        if top == env {
            EnvState { stack: st.stack.drop_last(), errs: st.errs }
        } else {
            EnvState { stack: st.stack, errs: st.errs.push(mismatch_error(rel, line, env, top)) }
        }
    } else {
        EnvState { stack: st.stack, errs: st.errs.push(orphan_end_error(rel, line, env)) }
    }
}

/// Close each of `ends` in order at line `line`.
pub open spec fn close_envs(rel: Seq<char>, line: nat, st: EnvState, ends: Seq<Seq<char>>) -> EnvState
    decreases ends.len(),
{
    if ends.len() == 0 {
        st
    } else {
        close_env(rel, line, close_envs(rel, line, st, ends.drop_last()), ends.last())
    }
}

/// One line of the environment check: comment lines are skipped; otherwise
/// every `\begin` on the line opens, then every `\end` closes.
pub open spec fn env_line(rel: Seq<char>, st: EnvState, text: Seq<char>, line: nat) -> EnvState {
    let t = trim(text);
    if starts_with(t, seq!['%']) {
        st
    } else {
        close_envs(
            rel,
            line,
            EnvState { stack: open_envs(st.stack, cmd_args(t, "\\begin"@), line), errs: st.errs },
            cmd_args(t, "\\end"@),
        )
    }
}

/// The environment check over the lines `ls`, numbered from 1.
pub open spec fn env_run(rel: Seq<char>, ls: Seq<Seq<char>>) -> EnvState
    decreases ls.len(),
{
    if ls.len() == 0 {
        EnvState { stack: seq![], errs: seq![] }
    } else {
        env_line(rel, env_run(rel, ls.drop_last()), ls.last(), ls.len())
    }
}

/// Every finding of the environment check of a file: mismatches in order, then
/// one per environment left open, outermost first.
pub open spec fn spec_check_environments(rel: Seq<char>, content: Seq<char>) -> Seq<LintErrorView> {
    let st = env_run(rel, lines(content));
    st.errs + Seq::new(st.stack.len(), |i: int| unclosed_error(rel, st.stack[i].1, st.stack[i].0))
}

fn copy_opt_string(o: &Option<String>) -> (r: Option<String>)
    ensures
        opt_view(r) == opt_view(*o),
{
    match o {
        Some(s) => Some(s.clone()),
        None => None,
    }
}

fn cat3(a: &str, b: &Vec<char>, c: &str) -> (r: Vec<char>)
    ensures
        r@ == a@ + b@ + c@,
{
    let mut t = chars_of(a);
    append_chars(&mut t, b);
    append_chars(&mut t, &chars_of(c));
    t
}

struct EnvExec {
    stack: Vec<(Vec<char>, usize)>,
    errs: Vec<LintError>,
}

impl EnvExec {
    spec fn state(&self) -> EnvState {
        EnvState {
            stack: Seq::new(self.stack@.len(), |i: int| (self.stack@[i].0@, self.stack@[i].1 as nat)),
            errs: errors_view(self.errs@),
        }
    }
}

fn close_one(rel: &str, line: usize, st: &mut EnvExec, env: &Vec<char>)
    ensures
        final(st).state() == close_env(rel@, line as nat, old(st).state(), env@),
        final(st).stack@.len() <= old(st).stack@.len(),
{
    let ghost s0 = st.state();
    let n = st.stack.len();
    if n > 0 {
        let same = crate::text::same_chars(&st.stack[n - 1].0, env);
        if same {
            st.stack.pop();
            assert(st.state().stack =~= s0.stack.drop_last());
        } else {
            let top = slice_of(&st.stack[n - 1].0, 0, st.stack[n - 1].0.len());
            assert(top@ =~= s0.stack.last().0);
            let m = cat3("\\end{", env, "} does not match \\begin{");
            let mut m2 = m;
            append_chars(&mut m2, &top);
            append_chars(&mut m2, &chars_of("}"));
            let sug = cat3("Expected \\end{", &top, "}");
            push_error(
                &mut st.errs,
                LintError {
                    file: string_of(chars_of(rel).as_slice()),
                    line,
                    message: string_of(m2.as_slice()),
                    suggestion: Some(string_of(sug.as_slice())),
                },
            );
            assert(st.state().stack =~= s0.stack);
        }
    } else {
        let m = cat3("\\end{", env, "} without matching \\begin");
        push_error(
            &mut st.errs,
            LintError {
                file: string_of(chars_of(rel).as_slice()),
                line,
                message: string_of(m.as_slice()),
                suggestion: None,
            },
        );
        assert(st.state().stack =~= s0.stack);
    }
}

fn env_line_exec(rel: &str, st: &mut EnvExec, text: &Vec<char>, line: usize)
    ensures
        final(st).state() == env_line(rel@, old(st).state(), text@, line as nat),
{
    let t = trim_chars(text);
    let pct = single('%');
    if has_prefix(&t, &pct) {
        return;
    }
    let bpat = chars_of("\\begin");
    let epat = chars_of("\\end");
    proof {
        reveal_strlit("\\begin");
        reveal_strlit("\\end");
    }
    let begins = command_args(&t, &bpat);
    let ends = command_args(&t, &epat);
    let ghost s0 = st.state();
    let mut i: usize = 0;
    assert(open_envs(s0.stack, seqs_of(begins@).take(0), line as nat) =~= s0.stack);
    while i < begins.len()
        invariant
            i <= begins@.len(),
            st.state().errs == s0.errs,
            st.state().stack == open_envs(s0.stack, seqs_of(begins@).take(i as int), line as nat),
        decreases begins@.len() - i,
    {
        let ghost before = st.state().stack;
        let ghost vstack = st.stack@;
        let e = slice_of(&begins[i], 0, begins[i].len());
        assert(e@ =~= begins@[i as int]@);
        let ghost ev = e@;
        st.stack.push((e, line));
        i = i + 1;
        assert forall|q: int| 0 <= q < before.len() implies st.state().stack[q] == before[q] by {
            assert(st.stack@[q] == vstack[q]);
        }
        assert(st.state().stack[before.len() as int] == (ev, line as nat));
        let ghost target = open_envs(s0.stack, seqs_of(begins@).take(i as int), line as nat);
        let ghost prev = open_envs(s0.stack, seqs_of(begins@).take(i - 1), line as nat);
        assert(before == prev);
        assert forall|q: int| 0 <= q < prev.len() implies target[q] == prev[q] by {
            if q >= s0.stack.len() {
                assert(seqs_of(begins@).take(i as int)[q - s0.stack.len()] == seqs_of(begins@).take(
                    i - 1,
                )[q - s0.stack.len()]);
            }
        }
        assert(target[prev.len() as int] == (ev, line as nat));
        assert(st.state().stack =~= open_envs(s0.stack, seqs_of(begins@).take(i as int), line as nat));
    }
    assert(seqs_of(begins@).take(i as int) =~= seqs_of(begins@));
    let ghost s1 = st.state();
    let mut j: usize = 0;
    while j < ends.len()
        invariant
            j <= ends@.len(),
            st.state() == close_envs(rel@, line as nat, s1, seqs_of(ends@).take(j as int)),
        decreases ends@.len() - j,
    {
        assert(seqs_of(ends@).take(j + 1).drop_last() =~= seqs_of(ends@).take(j as int));
        close_one(rel, line, st, &ends[j]);
        j = j + 1;
    }
    assert(seqs_of(ends@).take(j as int) =~= seqs_of(ends@));
}

/// Check for unclosed and mismatched `\begin{env}` / `\end{env}` environments;
/// the findings are appended to `errors`.
pub fn check_environments(rel: &str, content: &str, errors: &mut Vec<LintError>)
    ensures
        errors_view(final(errors)@) == errors_view(old(errors)@) + spec_check_environments(
            rel@,
            content@,
        ),
{
    let c = chars_of(content);
    let ls = split_lines(&c);
    let mut st = EnvExec { stack: Vec::new(), errs: Vec::new() };
    assert(st.state().stack =~= Seq::<(Seq<char>, nat)>::empty());
    assert(st.state().errs =~= Seq::<LintErrorView>::empty());
    let mut i: usize = 0;
    assert(seqs_of(ls@).take(0) =~= Seq::<Seq<char>>::empty());
    while i < ls.len()
        invariant
            i <= ls@.len(),
            st.state() == env_run(rel@, seqs_of(ls@).take(i as int)),
        decreases ls@.len() - i,
    {
        assert(seqs_of(ls@).take(i + 1).drop_last() =~= seqs_of(ls@).take(i as int));
        env_line_exec(rel, &mut st, &ls[i], i + 1);
        i = i + 1;
    }
    assert(seqs_of(ls@).take(i as int) =~= seqs_of(ls@));
    let ghost before = errors_view(errors@);
    let mut k: usize = 0;
    while k < st.errs.len()
        invariant
            k <= st.errs@.len(),
            errors_view(errors@) == before + errors_view(st.errs@).take(k as int),
        decreases st.errs@.len() - k,
    {
        let e = LintError {
            file: st.errs[k].file.clone(),
            line: st.errs[k].line,
            message: st.errs[k].message.clone(),
            suggestion: copy_opt_string(&st.errs[k].suggestion),
        };
        assert(e@ == errors_view(st.errs@)[k as int]);
        push_error(errors, e);
        k = k + 1;
        assert(errors_view(errors@) =~= before + errors_view(st.errs@).take(k as int));
    }
    assert(errors_view(st.errs@).take(k as int) =~= errors_view(st.errs@));
    let ghost mid = errors_view(errors@);
    let ghost stk = st.state().stack;
    let mut m: usize = 0;
    assert(mid + Seq::new(0, |q: int| unclosed_error(rel@, stk[q].1, stk[q].0)) =~= mid);
    while m < st.stack.len()
        invariant
            m <= st.stack@.len(),
            stk == st.state().stack,
            errors_view(errors@) == mid + Seq::new(
                m as nat,
                |q: int| unclosed_error(rel@, stk[q].1, stk[q].0),
            ),
        decreases st.stack@.len() - m,
    {
        let env = &st.stack[m].0;
        let msg = cat3("\\begin{", env, "} never closed");
        let sug = cat3("Add \\end{", env, "}");
        push_error(
            errors,
            LintError {
                file: string_of(chars_of(rel).as_slice()),
                line: st.stack[m].1,
                message: string_of(msg.as_slice()),
                suggestion: Some(string_of(sug.as_slice())),
            },
        );
        m = m + 1;
        assert(errors_view(errors@) =~= mid + Seq::new(
            m as nat,
            |q: int| unclosed_error(rel@, stk[q].1, stk[q].0),
        ));
    }
}

/// The kinds of reference that the reference check examines.
pub enum RefKind {
    Input,
    Image,
    Cite,
    Label,
}

/// Whether a reference of kind `k` to `a` is broken, given the known names.
pub open spec fn ref_broken(k: RefKind, known: Seq<Seq<char>>, a: Seq<char>) -> bool {
    match k {
        RefKind::Input => !known.contains(spec_resolve_tex(a)),
        _ => !known.contains(a),
    }
}

/// The finding for a broken reference of kind `k` to `a` at line `n` of `rel`.
pub open spec fn ref_error(k: RefKind, root: Seq<char>, rel: Seq<char>, n: nat, a: Seq<char>) -> LintErrorView {
    match k {
        RefKind::Input => LintErrorView {
            file: rel,
            line: n,
            message: "\\input{"@ + a + "} — file not found"@,
            suggestion: Some("Create "@ + spec_join_path(root, spec_resolve_tex(a))),
        },
        RefKind::Image => LintErrorView {
            file: rel,
            line: n,
            message: "\\includegraphics{"@ + a + "} — file not found"@,
            suggestion: None,
        },
        RefKind::Cite => LintErrorView {
            file: rel,
            line: n,
            message: "\\cite{"@ + a + "} — key not found in .bib"@,
            suggestion: None,
        },
        RefKind::Label => LintErrorView {
            file: rel,
            line: n,
            message: "\\ref{"@ + a + "} — no matching \\label found"@,
            suggestion: None,
        },
    }
}

/// The findings for the broken ones of the references `args` of kind `k`, in order.
pub open spec fn errs_for(
    k: RefKind,
    root: Seq<char>,
    rel: Seq<char>,
    n: nat,
    known: Seq<Seq<char>>,
    args: Seq<Seq<char>>,
) -> Seq<LintErrorView>
    decreases args.len(),
{
    if args.len() == 0 {
        seq![]
    } else {
        errs_for(k, root, rel, n, known, args.drop_last()) + if ref_broken(k, known, args.last()) {
            seq![ref_error(k, root, rel, n, args.last())]
        } else {
            seq![]
        }
    }
}

/// The pieces of `s` between commas (`str::split(',')`).
pub open spec fn split_commas(s: Seq<char>) -> Seq<Seq<char>> {
    let (done, cur) = split_state(s);
    done.push(cur)
}

/// The pieces completed so far, and the piece in progress, after reading `s`.
pub open spec fn split_state(s: Seq<char>) -> (Seq<Seq<char>>, Seq<char>)
    decreases s.len(),
{
    if s.len() == 0 {
        (seq![], seq![])
    } else {
        let (done, cur) = split_state(s.drop_last());
        if s.last() == ',' {
            (done.push(cur), seq![])
        } else {
            (done, cur.push(s.last()))
        }
    }
}

/// The citation keys of the `\cite` arguments `args`: each split at commas and
/// trimmed, empty keys left out.
pub open spec fn cite_keys(args: Seq<Seq<char>>) -> Seq<Seq<char>>
    decreases args.len(),
{
    if args.len() == 0 {
        seq![]
    } else {
        cite_keys(args.drop_last()) + nonempty_trimmed(split_commas(args.last()))
    }
}

/// Each piece trimmed, empty ones left out.
pub open spec fn nonempty_trimmed(ps: Seq<Seq<char>>) -> Seq<Seq<char>>
    decreases ps.len(),
{
    if ps.len() == 0 {
        seq![]
    } else {
        nonempty_trimmed(ps.drop_last()) + if trim(ps.last()).len() > 0 {
            seq![trim(ps.last())]
        } else {
            seq![]
        }
    }
}

/// The reference findings of one line (its comment removed), numbered `n`.
pub open spec fn ref_errors_line(
    root: Seq<char>,
    rel: Seq<char>,
    n: nat,
    raw: Seq<char>,
    bib_on: bool,
    keys: Seq<Seq<char>>,
    labels: Seq<Seq<char>>,
    existing: Seq<Seq<char>>,
) -> Seq<LintErrorView> {
    let l = spec_strip_comment(raw);
    let inputs = errs_for(RefKind::Input, root, rel, n, existing, cmd_args(l, "\\input"@));
    let images = errs_for(RefKind::Image, root, rel, n, existing, cmd_args(l, "\\includegraphics"@));
    let cites = if bib_on {
        errs_for(RefKind::Cite, root, rel, n, keys, cite_keys(cmd_args(l, "\\cite"@)))
    } else {
        seq![]
    };
    let refs = errs_for(RefKind::Label, root, rel, n, labels, cmd_args(l, "\\ref"@));
    inputs + images + cites + refs
}

/// The reference findings of the lines `ls`, numbered from 1.
pub open spec fn ref_errors(
    root: Seq<char>,
    rel: Seq<char>,
    ls: Seq<Seq<char>>,
    bib_on: bool,
    keys: Seq<Seq<char>>,
    labels: Seq<Seq<char>>,
    existing: Seq<Seq<char>>,
) -> Seq<LintErrorView>
    decreases ls.len(),
{
    if ls.len() == 0 {
        seq![]
    } else {
        ref_errors(root, rel, ls.drop_last(), bib_on, keys, labels, existing) + ref_errors_line(
            root,
            rel,
            ls.len(),
            ls.last(),
            bib_on,
            keys,
            labels,
            existing,
        )
    }
}

/// Whether `x` is one of the strings of `v`.
pub fn contains_chars(v: &Vec<String>, x: &Vec<char>) -> (r: bool)
    ensures
        r == strings_view(v@).contains(x@),
{
    let mut i: usize = 0;
    while i < v.len()
        invariant
            i <= v@.len(),
            forall|j: int| 0 <= j < i ==> strings_view(v@)[j] != x@,
        decreases v@.len() - i,
    {
        let c = chars_of(v[i].as_str());
        if crate::text::same_chars(&c, x) {
            assert(strings_view(v@)[i as int] == x@);
            return true;
        }
        i = i + 1;
    }
    false
}

fn split_comma_chars(s: &Vec<char>) -> (r: Vec<Vec<char>>)
    ensures
        seqs_of(r@) == split_commas(s@),
{
    let mut done: Vec<Vec<char>> = Vec::new();
    let mut cur: Vec<char> = Vec::new();
    let mut i: usize = 0;
    while i < s.len()
        invariant
            i <= s@.len(),
            (seqs_of(done@), cur@) == split_state(s@.take(i as int)),
        decreases s@.len() - i,
    {
        assert(s@.take(i + 1).drop_last() =~= s@.take(i as int));
        if s[i] == ',' {
            let ghost before = seqs_of(done@);
            let ghost cv = cur@;
            done.push(cur);
            assert(seqs_of(done@) =~= before.push(cv));
            cur = Vec::new();
        } else {
            cur.push(s[i]);
        }
        i = i + 1;
    }
    assert(s@.take(i as int) =~= s@);
    let ghost before = seqs_of(done@);
    let ghost cv = cur@;
    done.push(cur);
    assert(seqs_of(done@) =~= before.push(cv));
    done
}

fn cite_key_list(args: &Vec<Vec<char>>) -> (r: Vec<Vec<char>>)
    ensures
        seqs_of(r@) == cite_keys(seqs_of(args@)),
{
    let mut out: Vec<Vec<char>> = Vec::new();
    let mut i: usize = 0;
    while i < args.len()
        invariant
            i <= args@.len(),
            seqs_of(out@) == cite_keys(seqs_of(args@).take(i as int)),
        decreases args@.len() - i,
    {
        assert(seqs_of(args@).take(i + 1).drop_last() =~= seqs_of(args@).take(i as int));
        let pieces = split_comma_chars(&args[i]);
        let ghost base = seqs_of(out@);
        let mut j: usize = 0;
        while j < pieces.len()
            invariant
                j <= pieces@.len(),
                seqs_of(out@) == base + nonempty_trimmed(seqs_of(pieces@).take(j as int)),
            decreases pieces@.len() - j,
        {
            assert(seqs_of(pieces@).take(j + 1).drop_last() =~= seqs_of(pieces@).take(j as int));
            let k = trim_chars(&pieces[j]);
            if k.len() > 0 {
                let ghost before = seqs_of(out@);
                let ghost kv = k@;
                out.push(k);
                assert(seqs_of(out@) =~= before.push(kv));
            }
            j = j + 1;
        }
        assert(seqs_of(pieces@).take(j as int) =~= seqs_of(pieces@));
        i = i + 1;
    }
    assert(seqs_of(args@).take(i as int) =~= seqs_of(args@));
    out
}

fn lit_plus(a: &str, b: &Vec<char>) -> (r: String)
    ensures
        r@ == a@ + b@,
{
    let mut t = chars_of(a);
    append_chars(&mut t, b);
    string_of(t.as_slice())
}

fn wrap_msg(a: &str, b: &Vec<char>, c: &str) -> (r: String)
    ensures
        r@ == a@ + b@ + c@,
{
    let t = cat3(a, b, c);
    string_of(t.as_slice())
}

fn ref_error_exec(kind: &RefKind, root: &str, rel: &str, n: usize, a: &Vec<char>) -> (e: LintError)
    ensures
        e@ == ref_error(*kind, root@, rel@, n as nat, a@),
{
    let file = string_of(chars_of(rel).as_slice());
    match kind {
        RefKind::Input => {
            let a_str = string_of(a.as_slice());
            let resolved = resolve_tex_path(a_str.as_str());
            let full = join_path(root, resolved.as_str());
            LintError {
                file,
                line: n,
                message: wrap_msg("\\input{", a, "} — file not found"),
                suggestion: Some(lit_plus("Create ", &chars_of(full.as_str()))),
            }
        },
        RefKind::Image => LintError {
            file,
            line: n,
            message: wrap_msg("\\includegraphics{", a, "} — file not found"),
            suggestion: None,
        },
        RefKind::Cite => LintError {
            file,
            line: n,
            message: wrap_msg("\\cite{", a, "} — key not found in .bib"),
            suggestion: None,
        },
        RefKind::Label => LintError {
            file,
            line: n,
            message: wrap_msg("\\ref{", a, "} — no matching \\label found"),
            suggestion: None,
        },
    }
}

fn ref_broken_exec(kind: &RefKind, known: &Vec<String>, a: &Vec<char>) -> (r: bool)
    ensures
        r == ref_broken(*kind, strings_view(known@), a@),
{
    match kind {
        RefKind::Input => {
            let a_str = string_of(a.as_slice());
            let resolved = resolve_tex_path(a_str.as_str());
            !contains_chars(known, &chars_of(resolved.as_str()))
        },
        _ => !contains_chars(known, a),
    }
}

fn check_refs_of(
    kind: RefKind,
    root: &str,
    rel: &str,
    n: usize,
    known: &Vec<String>,
    args: &Vec<Vec<char>>,
    errors: &mut Vec<LintError>,
)
    ensures
        errors_view(final(errors)@) == errors_view(old(errors)@) + errs_for(
            kind,
            root@,
            rel@,
            n as nat,
            strings_view(known@),
            seqs_of(args@),
        ),
{
    let ghost base = errors_view(errors@);
    let ghost kn = strings_view(known@);
    let mut i: usize = 0;
    while i < args.len()
        invariant
            i <= args@.len(),
            kn == strings_view(known@),
            errors_view(errors@) == base + errs_for(
                kind,
                root@,
                rel@,
                n as nat,
                kn,
                seqs_of(args@).take(i as int),
            ),
        decreases args@.len() - i,
    {
        let ghost prefix = seqs_of(args@).take(i + 1);
        assert(prefix.drop_last() =~= seqs_of(args@).take(i as int));
        assert(prefix.last() == args@[i as int]@);
        if ref_broken_exec(&kind, known, &args[i]) {
            let e = ref_error_exec(&kind, root, rel, n, &args[i]);
            push_error(errors, e);
        }
        assert(errors_view(errors@) =~= base + errs_for(kind, root@, rel@, n as nat, kn, prefix));
        i = i + 1;
    }
    assert(seqs_of(args@).take(i as int) =~= seqs_of(args@));
}

fn refs_line(
    root: &str,
    rel: &str,
    n: usize,
    raw: &Vec<char>,
    bib_on: bool,
    keys: &Vec<String>,
    labels: &Vec<String>,
    existing: &Vec<String>,
    errors: &mut Vec<LintError>,
)
    ensures
        errors_view(final(errors)@) == errors_view(old(errors)@) + ref_errors_line(
            root@,
            rel@,
            n as nat,
            raw@,
            bib_on,
            strings_view(keys@),
            strings_view(labels@),
            strings_view(existing@),
        ),
{
    let l = strip_comment_chars(raw);
    let ghost base = errors_view(errors@);
    proof {
        reveal_strlit("\\input");
        reveal_strlit("\\includegraphics");
        reveal_strlit("\\cite");
        reveal_strlit("\\ref");
    }
    let inputs = command_args(&l, &chars_of("\\input"));
    check_refs_of(RefKind::Input, root, rel, n, existing, &inputs, errors);
    let images = command_args(&l, &chars_of("\\includegraphics"));
    check_refs_of(RefKind::Image, root, rel, n, existing, &images, errors);
    let ghost mid = errors_view(errors@);
    if bib_on {
        let cites = command_args(&l, &chars_of("\\cite"));
        let ckeys = cite_key_list(&cites);
        check_refs_of(RefKind::Cite, root, rel, n, keys, &ckeys, errors);
    } else {
        assert(errors_view(errors@) =~= mid + Seq::<LintErrorView>::empty());
    }
    let refs = command_args(&l, &chars_of("\\ref"));
    check_refs_of(RefKind::Label, root, rel, n, labels, &refs, errors);
    assert(errors_view(errors@) =~= base + ref_errors_line(
        root@,
        rel@,
        n as nat,
        raw@,
        bib_on,
        strings_view(keys@),
        strings_view(labels@),
        strings_view(existing@),
    ));
}

/// Check `\input`, `\includegraphics`, `\cite` and `\ref` references of a
/// file's `content`; the findings are appended to `errors`. `existing` lists the
/// paths (relative to `root`) that exist; `\cite` keys are checked only when a
/// bibliography is configured.
pub fn check_references(
    root: &str,
    rel: &str,
    content: &str,
    bib_file: Option<&str>,
    bib_keys: &Vec<String>,
    all_labels: &Vec<String>,
    existing: &Vec<String>,
    errors: &mut Vec<LintError>,
)
    ensures
        errors_view(final(errors)@) == errors_view(old(errors)@) + ref_errors(
            root@,
            rel@,
            lines(content@),
            bib_file is Some,
            strings_view(bib_keys@),
            strings_view(all_labels@),
            strings_view(existing@),
        ),
{
    let c = chars_of(content);
    let ls = split_lines(&c);
    let ghost base = errors_view(errors@);
    let mut i: usize = 0;
    while i < ls.len()
        invariant
            i <= ls@.len(),
            errors_view(errors@) == base + ref_errors(
                root@,
                rel@,
                seqs_of(ls@).take(i as int),
                bib_file is Some,
                strings_view(bib_keys@),
                strings_view(all_labels@),
                strings_view(existing@),
            ),
        decreases ls@.len() - i,
    {
        assert(seqs_of(ls@).take(i + 1).drop_last() =~= seqs_of(ls@).take(i as int));
        let ghost mid = errors_view(errors@);
        refs_line(
            root,
            rel,
            i + 1,
            &ls[i],
            bib_file.is_some(),
            bib_keys,
            all_labels,
            existing,
            errors,
        );
        i = i + 1;
        assert(errors_view(errors@) =~= base + ref_errors(
            root@,
            rel@,
            seqs_of(ls@).take(i as int),
            bib_file is Some,
            strings_view(bib_keys@),
            strings_view(all_labels@),
            strings_view(existing@),
        ));
    }
    assert(seqs_of(ls@).take(i as int) =~= seqs_of(ls@));
}

/// The citation key declared on a `.bib` line: `@type{key, ...}`, trimmed;
/// `@comment` lines declare none.
pub open spec fn bib_key_of(line: Seq<char>) -> Option<Seq<char>> {
    let t = trim(line);
    if starts_with(t, "@"@) && !starts_with(t, "@comment"@) {
        match find(t, seq!['{']) {
            None => None,
            Some(s) => match find(t.skip(s), seq![',']) {
                None => None,
                Some(e) => {
                    let key = trim(t.subrange(s + 1, s + e));
                    if key.len() > 0 {
                        Some(key)
                    } else {
                        None
                    }
                },
            },
        }
    } else {
        None
    }
}

/// The keys declared on the lines `ls`, in order.
pub open spec fn bib_keys_of(ls: Seq<Seq<char>>) -> Seq<Seq<char>>
    decreases ls.len(),
{
    if ls.len() == 0 {
        seq![]
    } else {
        bib_keys_of(ls.drop_last()) + match bib_key_of(ls.last()) {
            Some(k) => seq![k],
            None => seq![],
        }
    }
}

fn bib_key_line(line: &Vec<char>) -> (r: Option<Vec<char>>)
    ensures
        match r {
            Some(k) => bib_key_of(line@) == Some(k@),
            None => bib_key_of(line@) is None,
        },
{
    let t = trim_chars(line);
    proof {
        reveal_strlit("@");
        reveal_strlit("@comment");
    }
    if !has_prefix(&t, &chars_of("@")) || has_prefix(&t, &chars_of("@comment")) {
        return None;
    }
    let open = single('{');
    let comma = single(',');
    proof {
        lemma_find_from(t@, seq!['{'], 0);
    }
    let s = match find_at(&t, &open, 0) {
        None => {
            return None;
        },
        Some(s) => s,
    };
    assert(occurs_at(t@, seq!['{'], s as int));
    proof {
        lemma_find_skip(t@, seq![','], s as int, 0);
        lemma_find_from(t@, seq![','], s as int);
    }
    let e = match find_at(&t, &comma, s) {
        None => {
            return None;
        },
        Some(e) => e,
    };
    assert(occurs_at(t@, seq![','], e as int));
    assert(t@.subrange(s as int, s + 1)[0] == t@[s as int]);
    assert(t@.subrange(e as int, e + 1)[0] == t@[e as int]);
    assert(e != s);
    let inner = slice_of(&t, s + 1, e);
    let key = trim_chars(&inner);
    if key.len() > 0 {
        Some(key)
    } else {
        None
    }
}

/// Parse the `@type{key, ...}` entries of a `.bib` file's content.
pub fn parse_bib_keys(content: &str) -> (r: Vec<String>)
    ensures
        strings_view(r@) == bib_keys_of(lines(content@)),
{
    let c = chars_of(content);
    let ls = split_lines(&c);
    let mut keys: Vec<Vec<char>> = Vec::new();
    let mut i: usize = 0;
    while i < ls.len()
        invariant
            i <= ls@.len(),
            seqs_of(keys@) == bib_keys_of(seqs_of(ls@).take(i as int)),
        decreases ls@.len() - i,
    {
        assert(seqs_of(ls@).take(i + 1).drop_last() =~= seqs_of(ls@).take(i as int));
        let ghost before = seqs_of(keys@);
        match bib_key_line(&ls[i]) {
            Some(k) => {
                let ghost kv = k@;
                keys.push(k);
                assert(seqs_of(keys@) =~= before.push(kv));
            },
            None => {
                assert(before + Seq::<Seq<char>>::empty() =~= before);
            },
        }
        i = i + 1;
    }
    assert(seqs_of(ls@).take(i as int) =~= seqs_of(ls@));
    crate::text::strings_of(&keys)
}

/// The arguments of `pat` commands over the lines `ls`, comments removed, in order.
pub open spec fn args_over_lines(ls: Seq<Seq<char>>, pat: Seq<char>) -> Seq<Seq<char>>
    decreases ls.len(),
{
    if ls.len() == 0 {
        seq![]
    } else {
        args_over_lines(ls.drop_last(), pat) + cmd_args(spec_strip_comment(ls.last()), pat)
    }
}

fn args_over(content: &Vec<char>, pat: &Vec<char>) -> (r: Vec<Vec<char>>)
    requires
        pat@.len() > 0,
    ensures
        seqs_of(r@) == args_over_lines(lines(content@), pat@),
{
    let ls = split_lines(content);
    let mut out: Vec<Vec<char>> = Vec::new();
    let mut i: usize = 0;
    while i < ls.len()
        invariant
            i <= ls@.len(),
            pat@.len() > 0,
            seqs_of(out@) == args_over_lines(seqs_of(ls@).take(i as int), pat@),
        decreases ls@.len() - i,
    {
        assert(seqs_of(ls@).take(i + 1).drop_last() =~= seqs_of(ls@).take(i as int));
        let l = strip_comment_chars(&ls[i]);
        let args = command_args(&l, pat);
        let mut j: usize = 0;
        let ghost base = seqs_of(out@);
        while j < args.len()
            invariant
                j <= args@.len(),
                seqs_of(out@) == base + seqs_of(args@).take(j as int),
            decreases args@.len() - j,
        {
            let ghost before = seqs_of(out@);
            let a = slice_of(&args[j], 0, args[j].len());
            assert(a@ =~= args@[j as int]@);
            let ghost av = a@;
            out.push(a);
            assert(seqs_of(out@) =~= before.push(av));
            j = j + 1;
            assert(seqs_of(out@) =~= base + seqs_of(args@).take(j as int));
        }
        assert(seqs_of(args@).take(j as int) =~= seqs_of(args@));
        i = i + 1;
    }
    assert(seqs_of(ls@).take(i as int) =~= seqs_of(ls@));
    out
}

/// The `\label` names of a file, in order.
pub fn collect_labels(content: &str) -> (r: Vec<String>)
    ensures
        strings_view(r@) == args_over_lines(lines(content@), "\\label"@),
{
    proof {
        reveal_strlit("\\label");
    }
    let c = chars_of(content);
    let args = args_over(&c, &chars_of("\\label"));
    crate::text::strings_of(&args)
}

/// The resolved `\input` paths of a file, in order.
pub open spec fn input_paths(content: Seq<char>) -> Seq<Seq<char>> {
    let args = args_over_lines(lines(content), "\\input"@);
    Seq::new(args.len(), |i: int| spec_resolve_tex(args[i]))
}

/// The paths whose existence the reference check of a file asks about: its
/// resolved `\input` paths, then its `\includegraphics` paths.
pub fn referenced_paths(content: &str) -> (r: Vec<String>)
    ensures
        strings_view(r@) == input_paths(content@) + args_over_lines(
            lines(content@),
            "\\includegraphics"@,
        ),
{
    proof {
        reveal_strlit("\\input");
        reveal_strlit("\\includegraphics");
    }
    let c = chars_of(content);
    let ins = args_over(&c, &chars_of("\\input"));
    let ims = args_over(&c, &chars_of("\\includegraphics"));
    let mut r: Vec<String> = Vec::new();
    let mut i: usize = 0;
    let ghost target = input_paths(content@);
    while i < ins.len()
        invariant
            i <= ins@.len(),
            target == input_paths(content@),
            target.len() == ins@.len(),
            forall|q: int| 0 <= q < ins@.len() ==> target[q] == spec_resolve_tex(ins@[q]@),
            strings_view(r@) == target.take(i as int),
        decreases ins@.len() - i,
    {
        let ghost before = strings_view(r@);
        let a = string_of(ins[i].as_slice());
        let p = resolve_tex_path(a.as_str());
        let ghost pv = p@;
        r.push(p);
        assert(strings_view(r@) =~= before.push(pv));
        i = i + 1;
        assert(strings_view(r@) =~= target.take(i as int));
    }
    assert(target.take(i as int) =~= target);
    let ghost mid = strings_view(r@);
    let mut j: usize = 0;
    while j < ims.len()
        invariant
            j <= ims@.len(),
            strings_view(r@) == mid + seqs_of(ims@).take(j as int),
        decreases ims@.len() - j,
    {
        let ghost before = strings_view(r@);
        let a = string_of(ims[j].as_slice());
        let ghost av = a@;
        r.push(a);
        assert(strings_view(r@) =~= before.push(av));
        assert(av == seqs_of(ims@)[j as int]);
        j = j + 1;
        assert(strings_view(r@) =~= mid + seqs_of(ims@).take(j as int));
    }
    assert(seqs_of(ims@).take(j as int) =~= seqs_of(ims@));
    r
}

/// The finding for an entry point that does not exist.
pub open spec fn missing_entry_error(entry: Seq<char>) -> LintErrorView {
    LintErrorView {
        file: entry,
        line: 0,
        message: "Entry point file does not exist"@,
        suggestion: Some("Create "@ + entry),
    }
}

/// The finding for an entry point that does not exist.
pub fn entry_missing(entry: &str) -> (e: LintError)
    ensures
        e@ == missing_entry_error(entry@),
{
    LintError {
        file: string_of(chars_of(entry).as_slice()),
        line: 0,
        message: string_of(chars_of("Entry point file does not exist").as_slice()),
        suggestion: Some(lit_plus("Create ", &chars_of(entry))),
    }
}

/// A file of the project, by its path relative to the root and its content.
pub struct SourceFile {
    pub rel: String,
    pub content: String,
}

/// The labels defined in all of `files`, in order.
pub open spec fn all_labels(files: Seq<SourceFile>) -> Seq<Seq<char>>
    decreases files.len(),
{
    if files.len() == 0 {
        seq![]
    } else {
        all_labels(files.drop_last()) + args_over_lines(lines(files.last().content@), "\\label"@)
    }
}

/// The findings for `files`: for each file in order, its reference findings and
/// then its environment findings.
pub open spec fn file_errors(
    root: Seq<char>,
    files: Seq<SourceFile>,
    bib_on: bool,
    keys: Seq<Seq<char>>,
    labels: Seq<Seq<char>>,
    existing: Seq<Seq<char>>,
) -> Seq<LintErrorView>
    decreases files.len(),
{
    if files.len() == 0 {
        seq![]
    } else {
        let f = files.last();
        file_errors(root, files.drop_last(), bib_on, keys, labels, existing) + ref_errors(
            root,
            f.rel@,
            lines(f.content@),
            bib_on,
            keys,
            labels,
            existing,
        ) + spec_check_environments(f.rel@, f.content@)
    }
}

/// Run the reference and environment checks over the files reachable from the
/// entry point; the findings are appended to `errors`. Labels are gathered from
/// all files first; the bibliography's keys come from `bib_content` when a
/// bibliography is configured and readable.
pub fn lint_files(
    root: &str,
    files: &Vec<SourceFile>,
    bib_file: Option<&str>,
    bib_content: Option<&str>,
    existing: &Vec<String>,
    errors: &mut Vec<LintError>,
)
    ensures
        errors_view(final(errors)@) == errors_view(old(errors)@) + file_errors(
            root@,
            files@,
            bib_file is Some,
            match (bib_file, bib_content) {
                (Some(_), Some(c)) => bib_keys_of(lines(c@)),
                _ => Seq::<Seq<char>>::empty(),
            },
            all_labels(files@),
            strings_view(existing@),
        ),
{
    let keys: Vec<String> = match (bib_file, bib_content) {
        (Some(_), Some(c)) => parse_bib_keys(c),
        _ => Vec::new(),
    };
    assert(strings_view(keys@) =~= match (bib_file, bib_content) {
        (Some(_), Some(c)) => bib_keys_of(lines(c@)),
        _ => Seq::<Seq<char>>::empty(),
    });
    let mut labels: Vec<String> = Vec::new();
    let mut i: usize = 0;
    assert(strings_view(labels@) =~= Seq::<Seq<char>>::empty());
    while i < files.len()
        invariant
            i <= files@.len(),
            strings_view(labels@) == all_labels(files@.take(i as int)),
        decreases files@.len() - i,
    {
        assert(files@.take(i + 1).drop_last() =~= files@.take(i as int));
        let found = collect_labels(files[i].content.as_str());
        let ghost base = strings_view(labels@);
        let mut j: usize = 0;
        while j < found.len()
            invariant
                j <= found@.len(),
                strings_view(labels@) == base + strings_view(found@).take(j as int),
            decreases found@.len() - j,
        {
            let ghost before = strings_view(labels@);
            let l = found[j].clone();
            let ghost lv = l@;
            labels.push(l);
            assert(strings_view(labels@) =~= before.push(lv));
            assert(lv == strings_view(found@)[j as int]);
            j = j + 1;
            assert(strings_view(labels@) =~= base + strings_view(found@).take(j as int));
        }
        assert(strings_view(found@).take(j as int) =~= strings_view(found@));
        i = i + 1;
    }
    assert(files@.take(i as int) =~= files@);
    let ghost base = errors_view(errors@);
    let mut k: usize = 0;
    while k < files.len()
        invariant
            k <= files@.len(),
            errors_view(errors@) == base + file_errors(
                root@,
                files@.take(k as int),
                bib_file is Some,
                strings_view(keys@),
                strings_view(labels@),
                strings_view(existing@),
            ),
        decreases files@.len() - k,
    {
        assert(files@.take(k + 1).drop_last() =~= files@.take(k as int));
        let f = &files[k];
        check_references(
            root,
            f.rel.as_str(),
            f.content.as_str(),
            bib_file,
            &keys,
            &labels,
            existing,
            errors,
        );
        check_environments(f.rel.as_str(), f.content.as_str(), errors);
        k = k + 1;
        assert(errors_view(errors@) =~= base + file_errors(
            root@,
            files@.take(k as int),
            bib_file is Some,
            strings_view(keys@),
            strings_view(labels@),
            strings_view(existing@),
        ));
    }
    assert(files@.take(k as int) =~= files@);
}

/// `out` with the path component `c` added: empty components and `.` add
/// nothing, and components are separated by `/`.
pub open spec fn add_component(out: Seq<char>, c: Seq<char>) -> Seq<char> {
    if c.len() == 0 || c == seq!['.'] {
        out
    } else if out.len() == 0 {
        c
    } else {
        out + seq!['/'] + c
    }
}

/// The components kept so far, and the component in progress, after reading
/// `p`.
pub open spec fn path_state(p: Seq<char>) -> (Seq<char>, Seq<char>)
    decreases p.len(),
{
    if p.len() == 0 {
        (seq![], seq![])
    } else {
        let (out, cur) = path_state(p.drop_last());
        if p.last() == '/' {
            (add_component(out, cur), seq![])
        } else {
            (out, cur.push(p.last()))
        }
    }
}

/// A path compared by its components, as `Path` compares paths: a leading
/// `/` is kept, repeated `/` and `.` components are dropped, and the
/// remaining components are separated by single `/`.
pub open spec fn normal_path(p: Seq<char>) -> Seq<char> {
    let (out, cur) = path_state(p);
    let rel = add_component(out, cur);
    if p.len() > 0 && p[0] == '/' {
        seq!['/'] + rel
    } else {
        rel
    }
}

fn add_component_chars(out: &mut Vec<char>, cur: &Vec<char>)
    ensures
        final(out)@ == add_component(old(out)@, cur@),
{
    if cur.len() == 0 || (cur.len() == 1 && cur[0] == '.') {
        assert(cur@.len() == 0 || cur@ =~= seq!['.']);
        return;
    }
    assert(cur@ != seq!['.']) by {
        if cur@ == seq!['.'] {
            assert(cur@[0] == '.');
        }
    }
    if out.len() > 0 {
        out.push('/');
    }
    append_chars(out, cur);
}

/// The path `p` compared by its components.
pub fn normalize_path(p: &str) -> (r: String)
    ensures
        r@ == normal_path(p@),
{
    let s = chars_of(p);
    let mut out: Vec<char> = Vec::new();
    let mut cur: Vec<char> = Vec::new();
    let mut i: usize = 0;
    while i < s.len()
        invariant
            i <= s@.len(),
            (out@, cur@) == path_state(s@.take(i as int)),
        decreases s@.len() - i,
    {
        assert(s@.take(i + 1).drop_last() =~= s@.take(i as int));
        assert(s@.take(i + 1).last() == s@[i as int]);
        if s[i] == '/' {
            add_component_chars(&mut out, &cur);
            cur = Vec::new();
            assert(cur@ =~= Seq::<char>::empty());
        } else {
            cur.push(s[i]);
        }
        i = i + 1;
    }
    assert(s@.take(i as int) =~= s@);
    add_component_chars(&mut out, &cur);
    if s.len() > 0 && s[0] == '/' {
        let mut r: Vec<char> = Vec::new();
        r.push('/');
        append_chars(&mut r, &out);
        assert(r@ =~= seq!['/'] + out@);
        string_of(r.as_slice())
    } else {
        string_of(out.as_slice())
    }
}

/// The finding for an `\input` met again while collecting files.
pub open spec fn circular_error(root: Seq<char>, input: Seq<char>) -> LintErrorView {
    LintErrorView {
        file: input,
        line: 0,
        message: "Circular \\input detected: "@ + spec_join_path(root, spec_resolve_tex(input)),
        suggestion: Some("Remove the circular reference"@),
    }
}

/// The collector's state: inputs still to visit (the next one last), the files
/// collected so far, and findings.
pub struct CollectState {
    pub pending: Seq<Seq<char>>,
    pub files: Seq<Seq<char>>,
    pub errs: Seq<LintErrorView>,
}

/// What the collector does with the answer for the next pending input: a
/// missing file is skipped; a file collected before is a finding; otherwise the
/// file is collected and, if it could be read, its `\input`s are visited next,
/// first one first.
pub open spec fn collect_step(
    root: Seq<char>,
    st: CollectState,
    exists: bool,
    content: Option<Seq<char>>,
) -> CollectState {
    let input = st.pending.last();
    let path = normal_path(spec_resolve_tex(input));
    let rest = st.pending.drop_last();
    if !exists {
        CollectState { pending: rest, files: st.files, errs: st.errs }
    } else if st.files.contains(path) {
        CollectState { pending: rest, files: st.files, errs: st.errs.push(circular_error(root, input)) }
    } else {
        CollectState {
            pending: match content {
                Some(c) => rest + args_over_lines(lines(c), "\\input"@).reverse(),
                None => rest,
            },
            files: st.files.push(path),
            errs: st.errs,
        }
    }
}

/// Collects the `.tex` files reachable from an entry point through `\input`,
/// depth first. The caller answers, for each input it names, whether the file
/// exists and what it holds.
pub struct TexCollector {
    pub root: String,
    pub pending: Vec<String>,
    pub files: Vec<String>,
    pub errors: Vec<LintError>,
}

impl TexCollector {
    /// The collector's state.
    pub open spec fn state(&self) -> CollectState {
        CollectState {
            pending: strings_view(self.pending@),
            files: strings_view(self.files@),
            errs: errors_view(self.errors@),
        }
    }

    /// A collector that starts at `entry`.
    pub fn new(root: &str, entry: &str) -> (c: Self)
        ensures
            c.root@ == root@,
            c.state() == (CollectState {
                pending: seq![entry@],
                files: seq![],
                errs: seq![],
            }),
    {
        let mut pending: Vec<String> = Vec::new();
        pending.push(string_of(chars_of(entry).as_slice()));
        let c = TexCollector {
            root: string_of(chars_of(root).as_slice()),
            pending,
            files: Vec::new(),
            errors: Vec::new(),
        };
        assert(c.state().pending =~= seq![entry@]);
        assert(c.state().files =~= Seq::<Seq<char>>::empty());
        assert(c.state().errs =~= Seq::<LintErrorView>::empty());
        c
    }

    /// The path of the next input to answer for, relative to the root; `None`
    /// when collection is done.
    pub fn next_path(&self) -> (r: Option<String>)
        ensures
            match r {
                Some(p) => self.state().pending.len() > 0 && p@ == spec_resolve_tex(
                    self.state().pending.last(),
                ),
                None => self.state().pending.len() == 0,
            },
    {
        let n = self.pending.len();
        if n == 0 {
            None
        } else {
            Some(resolve_tex_path(self.pending[n - 1].as_str()))
        }
    }

    /// Takes the answer for the next input.
    pub fn feed(&mut self, exists: bool, content: Option<&str>)
        requires
            old(self).state().pending.len() > 0,
        ensures
            final(self).root@ == old(self).root@,
            final(self).state() == collect_step(
                old(self).root@,
                old(self).state(),
                exists,
                match content {
                    Some(c) => Some(c@),
                    None => None,
                },
            ),
    {
        let ghost s0 = self.state();
        let input = self.pending.pop().unwrap();
        assert(strings_view(self.pending@) =~= s0.pending.drop_last());
        let path = resolve_tex_path(input.as_str());
        if !exists {
            return;
        }
        let np = normalize_path(path.as_str());
        let pc = chars_of(np.as_str());
        if contains_chars(&self.files, &pc) {
            let full = join_path(self.root.as_str(), path.as_str());
            let e = LintError {
                file: input,
                line: 0,
                message: lit_plus("Circular \\input detected: ", &chars_of(full.as_str())),
                suggestion: Some(string_of(chars_of("Remove the circular reference").as_slice())),
            };
            push_error(&mut self.errors, e);
            return;
        }
        let ghost f0 = strings_view(self.files@);
        self.files.push(np);
        assert(strings_view(self.files@) =~= f0.push(normal_path(spec_resolve_tex(input@))));
        if let Some(c) = content {
            proof {
                reveal_strlit("\\input");
            }
            let cc = chars_of(c);
            let ins = args_over(&cc, &chars_of("\\input"));
            let ghost base = strings_view(self.pending@);
            let ghost rev = seqs_of(ins@).reverse();
            let ghost r0 = self.root@;
            let ghost f1 = strings_view(self.files@);
            let ghost e1 = errors_view(self.errors@);
            let mut k = ins.len();
            while k > 0
                invariant
                    self.root@ == r0,
                    strings_view(self.files@) == f1,
                    errors_view(self.errors@) == e1,
                    k <= ins@.len(),
                    rev == seqs_of(ins@).reverse(),
                    strings_view(self.pending@) == base + rev.take(ins@.len() - k),
                decreases k,
            {
                let ghost before = strings_view(self.pending@);
                let sv = string_of(ins[k - 1].as_slice());
                let ghost svv = sv@;
                self.pending.push(sv);
                assert(strings_view(self.pending@) =~= before.push(svv));
                k = k - 1;
                assert(seqs_of(ins@)[k as int] == ins@[k as int]@);
                assert(rev[ins@.len() - k - 1] == ins@[k as int]@);
                assert(strings_view(self.pending@) =~= base + rev.take(ins@.len() - k));
            }
            assert(rev.take(ins@.len() as int) =~= rev);
        }
    }
}

/// Collecting keeps the collected files distinct: a file met again is
/// reported as a circular `\input` and not collected twice.
pub proof fn lemma_collect_keeps_files_distinct(
    root: Seq<char>,
    st: CollectState,
    exists: bool,
    content: Option<Seq<char>>,
)
    requires
        st.files.no_duplicates(),
        st.pending.len() > 0,
    ensures
        collect_step(root, st, exists, content).files.no_duplicates(),
        st.errs.is_prefix_of(collect_step(root, st, exists, content).errs),
        st.files.is_prefix_of(collect_step(root, st, exists, content).files),
{
    let next = collect_step(root, st, exists, content);
    assert(st.errs.is_prefix_of(st.errs.push(circular_error(root, st.pending.last()))));
    let path = normal_path(spec_resolve_tex(st.pending.last()));
    if exists && !st.files.contains(path) {
        assert(next.files == st.files.push(path));
        assert forall|i: int, j: int| 0 <= i < j < next.files.len() implies next.files[i]
            != next.files[j] by {
            if j == st.files.len() {
                assert(next.files[i] == st.files[i]);
            }
        }
    }
}

} // verus!
