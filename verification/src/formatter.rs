//! Opinionated LaTeX formatter: one canonical output regardless of input style.
use vstd::prelude::*;
use crate::text::{
    chars_of, chars_of_all, find, find_at, has_any_prefix, has_prefix, is_member, is_one_of,
    join, join_lines, lemma_find_from, lemma_find_skip, lines, seqs_of, slice_of, split_lines,
    starts_with, starts_with_any, string_of, trim, trim_chars, views_of, append_chars,
};

verus! {

/// `\begin{`
pub open spec fn begin_tag() -> Seq<char> {
    "\\begin{"@
}

/// `\end{`
pub open spec fn end_tag() -> Seq<char> {
    "\\end{"@
}

/// The indentation unit: two spaces.
pub open spec fn indent_unit() -> Seq<char> {
    seq![' ', ' ']
}

/// Commands that are never indented, even inside environments.
pub open spec fn structural_commands() -> Seq<Seq<char>> {
    views_of(
        seq![
            "\\begin{",
            "\\end{",
            "\\documentclass",
            "\\usepackage",
            "\\section",
            "\\subsection",
            "\\chapter",
            "\\title",
            "\\author",
            "\\date",
            "\\maketitle",
            "\\tableofcontents",
            "\\input",
            "\\bibliography",
            "\\bibliographystyle",
            "\\newcommand",
            "\\renewcommand",
            "\\pagestyle",
            "\\geometry",
            "\\hypersetup",
            "\\numberwithin",
            "\\titleformat",
            "\\titlespacing",
            "\\fancyhf",
            "\\cfoot",
        ],
    )
}

/// Environments whose content is passed through untouched.
pub open spec fn verbatim_envs() -> Seq<Seq<char>> {
    views_of(seq!["verbatim", "lstlisting", "minted", "Verbatim"])
}

/// The line starts with a structural command.
pub open spec fn spec_is_structural(line: Seq<char>) -> bool {
    starts_with_any(line, structural_commands())
}

/// The environment name in the first `\begin{name}` of `line`, if closed by `}`.
pub open spec fn spec_env_name(line: Seq<char>) -> Option<Seq<char>> {
    match find(line, begin_tag()) {
        None => None,
        Some(p) => {
            let start = p + begin_tag().len();
            match find(line.skip(start), seq!['}']) {
                None => None,
                Some(e) => Some(line.subrange(start, start + e)),
            }
        },
    }
}

fn structural_list() -> (r: Vec<Vec<char>>)
    ensures
        seqs_of(r@) == structural_commands(),
{
    let pats: [&str; 25] = [
        "\\begin{",
        "\\end{",
        "\\documentclass",
        "\\usepackage",
        "\\section",
        "\\subsection",
        "\\chapter",
        "\\title",
        "\\author",
        "\\date",
        "\\maketitle",
        "\\tableofcontents",
        "\\input",
        "\\bibliography",
        "\\bibliographystyle",
        "\\newcommand",
        "\\renewcommand",
        "\\pagestyle",
        "\\geometry",
        "\\hypersetup",
        "\\numberwithin",
        "\\titleformat",
        "\\titlespacing",
        "\\fancyhf",
        "\\cfoot",
    ];
    let r = chars_of_all(&pats);
    assert(views_of(pats@) =~= structural_commands());
    r
}

/// Commands that should not be indented even inside environments.
pub fn is_structural_command(line: &str) -> (r: bool)
    ensures
        r == spec_is_structural(line@),
{
    let l = chars_of(line);
    let pats = structural_list();
    has_any_prefix(&l, &pats)
}

fn env_name_chars(l: &Vec<char>, begin: &Vec<char>) -> (r: Option<Vec<char>>)
    requires
        begin@ == begin_tag(),
    ensures
        r matches Some(e) ==> spec_env_name(l@) == Some(e@),
        r is None ==> spec_env_name(l@) is None,
{
    proof {
        lemma_find_from(l@, begin_tag(), 0);
    }
    match find_at(l, begin, 0) {
        None => None,
        Some(p) => {
            assert(crate::text::occurs_at(l@, begin@, p as int));
            let n = l.len();
            assert(p + begin@.len() <= n);
            let start = p + begin.len();
            let mut close: Vec<char> = Vec::new();
            close.push('}');
            assert(close@ =~= seq!['}']);
            proof {
                lemma_find_skip(l@, seq!['}'], start as int, 0);
                lemma_find_from(l@, seq!['}'], start as int);
            }
            match find_at(l, &close, start) {
                None => None,
                Some(k) => {
                    assert(crate::text::occurs_at(l@, seq!['}'], k as int));
                    Some(slice_of(l, start, k))
                },
            }
        },
    }
}

fn begin_chars() -> (r: Vec<char>)
    ensures
        r@ == begin_tag(),
{
    chars_of("\\begin{")
}

fn end_chars() -> (r: Vec<char>)
    ensures
        r@ == end_tag(),
{
    chars_of("\\end{")
}

/// Extract environment name from `\begin{envname}`.
pub fn extract_env_name(line: &str) -> (r: Option<String>)
    ensures
        r matches Some(e) ==> spec_env_name(line@) == Some(e@),
        r is None ==> spec_env_name(line@) is None,
{
    let l = chars_of(line);
    let b = begin_chars();
    match env_name_chars(&l, &b) {
        None => None,
        Some(e) => Some(string_of(e.as_slice())),
    }
}

fn verbatim_list() -> (r: Vec<Vec<char>>)
    ensures
        seqs_of(r@) == verbatim_envs(),
{
    let envs: [&str; 4] = ["verbatim", "lstlisting", "minted", "Verbatim"];
    let r = chars_of_all(&envs);
    assert(views_of(envs@) =~= verbatim_envs());
    r
}

/// `n` copies of `u`.
pub open spec fn repeat(u: Seq<char>, n: nat) -> Seq<char>
    decreases n,
{
    if n == 0 {
        seq![]
    } else {
        repeat(u, (n - 1) as nat) + u
    }
}

/// `\end{env}`
pub open spec fn end_of(env: Seq<char>) -> Seq<char> {
    end_tag() + env + seq!['}']
}

/// The formatter's state between lines.
pub struct FmtState {
    pub out: Seq<Seq<char>>,
    pub depth: nat,
    pub prev_blank: bool,
    pub verbatim: Option<Seq<char>>,
}

/// The state before the first line.
pub open spec fn fmt_init() -> FmtState {
    FmtState { out: seq![], depth: 0, prev_blank: false, verbatim: None }
}

/// `d - 1`, but never below zero.
pub open spec fn sat_dec(d: nat) -> nat {
    if d > 0 {
        (d - 1) as nat
    } else {
        0
    }
}

/// How one input line changes the formatter's state.
pub open spec fn fmt_step(st: FmtState, line: Seq<char>) -> FmtState {
    let t = trim(line);
    match st.verbatim {
        Some(env) => if starts_with(t, end_of(env)) {
            FmtState {
                out: st.out.push(t),
                depth: sat_dec(st.depth),
                prev_blank: st.prev_blank,
                verbatim: None,
            }
        } else {
            FmtState {
                out: st.out.push(line),
                depth: st.depth,
                prev_blank: st.prev_blank,
                verbatim: st.verbatim,
            }
        },
        None => if t.len() == 0 {
            FmtState {
                out: if !st.prev_blank && st.out.len() > 0 {
                    st.out.push(seq![])
                } else {
                    st.out
                },
                depth: st.depth,
                prev_blank: true,
                verbatim: None,
            }
        } else {
            let is_begin = starts_with(t, begin_tag());
            let is_end = starts_with(t, end_tag());
            let d = if is_end {
                sat_dec(st.depth)
            } else {
                st.depth
            };
            let shown = if d > 0 && !is_begin && !is_end && !spec_is_structural(t) {
                repeat(indent_unit(), d) + t
            } else {
                t
            };
            let verb = if is_begin {
                match spec_env_name(t) {
                    Some(e) => if is_one_of(e, verbatim_envs()) {
                        Some(e)
                    } else {
                        None
                    },
                    None => None,
                }
            } else {
                None
            };
            FmtState {
                out: st.out.push(shown),
                depth: if is_begin {
                    d + 1
                } else {
                    d
                },
                prev_blank: false,
                verbatim: verb,
            }
        },
    }
}

/// The state after all of `ls`.
pub open spec fn fmt_run(ls: Seq<Seq<char>>) -> FmtState
    decreases ls.len(),
{
    if ls.len() == 0 {
        fmt_init()
    } else {
        fmt_step(fmt_run(ls.drop_last()), ls.last())
    }
}

/// `out` without its trailing empty lines.
pub open spec fn drop_trailing_blank(out: Seq<Seq<char>>) -> Seq<Seq<char>>
    decreases out.len(),
{
    if out.len() > 0 && out.last().len() == 0 {
        drop_trailing_blank(out.drop_last())
    } else {
        out
    }
}

/// The formatted text: the output lines without trailing blank lines, joined by
/// newlines, with one final newline.
pub open spec fn spec_format(source: Seq<char>) -> Seq<char> {
    join(drop_trailing_blank(fmt_run(lines(source)).out), seq!['\n']).push('\n')
}

struct Tables {
    begin: Vec<char>,
    end: Vec<char>,
    structural: Vec<Vec<char>>,
    verbatim: Vec<Vec<char>>,
}

impl Tables {
    spec fn ok(&self) -> bool {
        &&& self.begin@ == begin_tag()
        &&& self.end@ == end_tag()
        &&& seqs_of(self.structural@) == structural_commands()
        &&& seqs_of(self.verbatim@) == verbatim_envs()
    }
}

struct Fmt {
    out: Vec<Vec<char>>,
    depth: usize,
    prev_blank: bool,
    verbatim: Option<Vec<char>>,
}

impl Fmt {
    spec fn view_state(&self) -> FmtState {
        FmtState {
            out: seqs_of(self.out@),
            depth: self.depth as nat,
            prev_blank: self.prev_blank,
            verbatim: match self.verbatim {
                Some(e) => Some(e@),
                None => None,
            },
        }
    }
}

fn spaces(n: usize) -> (r: Vec<char>)
    ensures
        r@ == repeat(indent_unit(), n as nat),
{
    let mut r: Vec<char> = Vec::new();
    let mut i: usize = 0;
    while i < n
        invariant
            i <= n,
            r@ == repeat(indent_unit(), i as nat),
        decreases n - i,
    {
        r.push(' ');
        r.push(' ');
        i = i + 1;
        assert(r@ =~= repeat(indent_unit(), i as nat));
    }
    r
}

fn push_line(out: &mut Vec<Vec<char>>, l: Vec<char>)
    ensures
        seqs_of(final(out)@) == seqs_of(old(out)@).push(l@),
{
    let ghost before = seqs_of(out@);
    let ghost lv = l@;
    out.push(l);
    assert(seqs_of(out@) =~= before.push(lv));
}

fn step(st: &mut Fmt, line: &Vec<char>, k: &Tables)
    requires
        k.ok(),
        old(st).depth < usize::MAX,
    ensures
        final(st).view_state() == fmt_step(old(st).view_state(), line@),
        final(st).depth <= old(st).depth + 1,
{
    let t = trim_chars(line);
    match &st.verbatim {
        Some(env) => {
            let mut tag = slice_of(&k.end, 0, k.end.len());
            append_chars(&mut tag, env);
            tag.push('}');
            assert(tag@ =~= end_of(env@));
            if has_prefix(&t, &tag) {
                push_line(&mut st.out, t);
                if st.depth > 0 {
                    st.depth = st.depth - 1;
                }
                st.verbatim = None;
            } else {
                let copy = slice_of(line, 0, line.len());
                assert(copy@ =~= line@);
                push_line(&mut st.out, copy);
            }
        },
        None => {
            if t.len() == 0 {
                if !st.prev_blank && st.out.len() > 0 {
                    push_line(&mut st.out, Vec::new());
                }
                st.prev_blank = true;
            } else {
                let is_begin = has_prefix(&t, &k.begin);
                let is_end = has_prefix(&t, &k.end);
                if is_end && st.depth > 0 {
                    st.depth = st.depth - 1;
                }
                let verb = if is_begin {
                    match env_name_chars(&t, &k.begin) {
                        Some(e) => if is_member(&e, &k.verbatim) {
                            Some(e)
                        } else {
                            None
                        },
                        None => None,
                    }
                } else {
                    None
                };
                let shown = if st.depth > 0 && !is_begin && !is_end && !has_any_prefix(
                    &t,
                    &k.structural,
                ) {
                    let mut s = spaces(st.depth);
                    append_chars(&mut s, &t);
                    s
                } else {
                    t
                };
                push_line(&mut st.out, shown);
                if is_begin {
                    st.depth = st.depth + 1;
                }
                st.prev_blank = false;
                st.verbatim = verb;
            }
        },
    }
}

/// Format LaTeX source code with consistent style.
pub fn format(source: &str) -> (r: String)
    ensures
        r@ == spec_format(source@),
{
    let src = chars_of(source);
    let ls = split_lines(&src);
    let k = Tables {
        begin: begin_chars(),
        end: end_chars(),
        structural: structural_list(),
        verbatim: verbatim_list(),
    };
    let mut st = Fmt { out: Vec::new(), depth: 0, prev_blank: false, verbatim: None };
    let mut i: usize = 0;
    assert(seqs_of(st.out@) =~= Seq::<Seq<char>>::empty());
    assert(seqs_of(ls@).take(0) =~= Seq::<Seq<char>>::empty());
    while i < ls.len()
        invariant
            k.ok(),
            i <= ls@.len(),
            st.depth <= i,
            st.view_state() == fmt_run(seqs_of(ls@).take(i as int)),
        decreases ls@.len() - i,
    {
        assert(seqs_of(ls@).take(i + 1).drop_last() =~= seqs_of(ls@).take(i as int));
        step(&mut st, &ls[i], &k);
        i = i + 1;
    }
    assert(seqs_of(ls@).take(i as int) =~= seqs_of(ls@));
    let ghost full = seqs_of(st.out@);
    while st.out.len() > 0 && st.out[st.out.len() - 1].len() == 0
        invariant
            drop_trailing_blank(seqs_of(st.out@)) == drop_trailing_blank(full),
        decreases st.out@.len(),
    {
        let ghost before = seqs_of(st.out@);
        st.out.pop();
        assert(seqs_of(st.out@) =~= before.drop_last());
    }
    let mut r = join_lines(&st.out, '\n');
    r.push('\n');
    string_of(r.as_slice())
}

} // verus!
