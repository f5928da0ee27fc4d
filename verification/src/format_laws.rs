//! Laws of the formatter: formatting is canonical, and formatted text ends
//! with exactly one newline.
use vstd::prelude::*;
use crate::formatter::{
    fmt_run, fmt_step, FmtState, drop_trailing_blank, spec_format, repeat, indent_unit,
    fmt_init,
};
use crate::text::{
    clean_line, is_ws, join, lemma_lines_no_newline, lemma_lines_of_join, lemma_trim_after_ws,
    lemma_trim_clean, lemma_trim_fixed, lemma_trim_shape, lines, lines_state, no_newline,
    starts_with, trim, find, is_one_of, lemma_find_first_char, occurs_at,
};
use crate::formatter::{
    begin_tag, end_of, end_tag, spec_env_name, spec_is_structural, structural_commands,
    verbatim_envs,
};

verus! {

/// The second pass over the first pass's output mirrors the first pass.
spec fn mirrors(s: FmtState, t: FmtState) -> bool {
    &&& t.out == s.out
    &&& t.depth == s.depth
    &&& t.verbatim == s.verbatim
    &&& t.prev_blank == (s.out.len() > 0 && s.prev_blank)
    &&& s.out.len() == 0 ==> s.depth == 0 && s.verbatim is None
    &&& forall|k: int| 0 <= k < s.out.len() ==> clean_line(#[trigger] s.out[k])
}

proof fn lemma_repeat_ws(n: nat)
    ensures
        forall|k: int| 0 <= k < repeat(indent_unit(), n).len() ==> #[trigger] repeat(
            indent_unit(),
            n,
        )[k] == ' ',
        repeat(indent_unit(), n).len() == 2 * n,
    decreases n,
{
    if n > 0 {
        lemma_repeat_ws((n - 1) as nat);
        let r = repeat(indent_unit(), (n - 1) as nat);
        assert forall|k: int| 0 <= k < (r + indent_unit()).len() implies #[trigger] (r
            + indent_unit())[k] == ' ' by {
            if k < r.len() {
                assert((r + indent_unit())[k] == r[k]);
            }
        }
    }
}

proof fn lemma_run_push(m: Seq<Seq<char>>, x: Seq<char>)
    ensures
        fmt_run(m.push(x)) == fmt_step(fmt_run(m), x),
{
    assert(m.push(x).drop_last() =~= m);
}

proof fn lemma_step_out(st: FmtState, l: Seq<char>)
    ensures
        st.out.len() <= fmt_step(st, l).out.len() <= st.out.len() + 1,
        fmt_step(st, l).out.take(st.out.len() as int) == st.out,
{
    let o = fmt_step(st, l).out;
    if o.len() > st.out.len() {
        assert(o.take(st.out.len() as int) =~= st.out);
    } else {
        assert(o.take(st.out.len() as int) =~= st.out);
    }
}

proof fn lemma_run_len(n: Seq<Seq<char>>)
    ensures
        fmt_run(n).out.len() <= n.len(),
    decreases n.len(),
{
    if n.len() > 0 {
        lemma_run_len(n.drop_last());
        lemma_step_out(fmt_run(n.drop_last()), n.last());
    }
}

proof fn lemma_run_prefix(m: Seq<Seq<char>>, j: int)
    requires
        0 <= j <= m.len(),
    ensures
        ({
            let a = fmt_run(m.take(j)).out;
            let b = fmt_run(m).out;
            &&& a.len() <= b.len()
            &&& b.take(a.len() as int) == a
            &&& b.len() <= a.len() + (m.len() - j)
        }),
    decreases m.len(),
{
    if j == m.len() {
        assert(m.take(j) =~= m);
        assert(fmt_run(m).out.take(fmt_run(m).out.len() as int) =~= fmt_run(m).out);
    } else {
        let m0 = m.drop_last();
        assert(m0.take(j) =~= m.take(j));
        lemma_run_prefix(m0, j);
        lemma_step_out(fmt_run(m0), m.last());
        let a = fmt_run(m.take(j)).out;
        let b0 = fmt_run(m0).out;
        let b = fmt_run(m).out;
        assert(b.take(a.len() as int) =~= b.take(b0.len() as int).take(a.len() as int));
    }
}

/// Line `k` of `l` is copied through unchanged: it stands inside a verbatim
/// environment and does not end it.
pub open spec fn copied_verbatim(l: Seq<Seq<char>>, k: int) -> bool {
    fmt_run(l.take(k)).verbatim matches Some(env) && !starts_with(trim(l[k]), end_of(env))
}

#[verifier::rlimit(40)]
proof fn lemma_mirror(l: Seq<Seq<char>>)
    requires
        forall|k: int| 0 <= k < l.len() ==> no_newline(#[trigger] l[k]),
        forall|k: int| 0 <= k < l.len() && copied_verbatim(l, k) ==> clean_line(#[trigger] l[k]),
    ensures
        mirrors(fmt_run(l), fmt_run(fmt_run(l).out)),
    decreases l.len(),
{
    if l.len() == 0 {
        assert(fmt_run(l) == fmt_init());
    } else {
        let l0 = l.drop_last();
        assert forall|k: int| 0 <= k < l0.len() implies no_newline(#[trigger] l0[k]) by {
            assert(l0[k] == l[k]);
        }
        assert forall|k: int| 0 <= k < l0.len() && copied_verbatim(l0, k) implies clean_line(
            #[trigger] l0[k],
        ) by {
            assert(l0[k] == l[k]);
            assert(l0.take(k) =~= l.take(k));
        }
        lemma_mirror(l0);
        let s0 = fmt_run(l0);
        let t0 = fmt_run(s0.out);
        let n = l.len() - 1;
        let line = l.last();
        assert(line == l[n]);
        assert(l.take(n) =~= l0);
        let s1 = fmt_step(s0, line);
        assert(s1 == fmt_run(l));
        let t = trim(line);
        lemma_trim_shape(line);
        lemma_trim_fixed(t);
        lemma_trim_clean(line);
        if s1.out.len() > s0.out.len() {
            let x = s1.out.last();
            assert(s1.out =~= s0.out.push(x));
            lemma_run_push(s0.out, x);
            match s0.verbatim {
                Some(env) => {
                    if !starts_with(t, end_of(env)) {
                        assert(copied_verbatim(l, n));
                    }
                },
                None => {
                    if t.len() == 0 {
                        assert(x =~= Seq::<char>::empty());
                        assert(trim(x) =~= Seq::<char>::empty());
                    } else {
                        if x != t {
                            let dd = if starts_with(t, crate::formatter::end_tag()) {
                                crate::formatter::sat_dec(s0.depth)
                            } else {
                                s0.depth
                            };
                            lemma_repeat_ws(dd);
                            let r = repeat(indent_unit(), dd);
                            assert(x == r + t);
                            assert forall|k: int| 0 <= k < r.len() implies is_ws(#[trigger] r[k]) by {
                                assert(r[k] == ' ');
                            }
                            lemma_trim_after_ws(r, t);
                            assert forall|k: int| 0 <= k < x.len() implies #[trigger] x[k] != '\n' by {
                                if k < r.len() {
                                    assert(x[k] == r[k]);
                                } else {
                                    assert(x[k] == t[k - r.len()]);
                                }
                            }
                            assert(x.last() == t.last());
                        }
                    }
                },
            }
            assert(forall|k: int| 0 <= k < s0.out.len() ==> s1.out[k] == s0.out[k]);
        } else {
            assert(s1.out =~= s0.out);
        }
    }
}

/// Formatting is canonical: formatting already formatted text changes
/// nothing. This holds of every text but those with a line inside a verbatim
/// environment that ends in a carriage return: such a line is copied as it
/// is, and reading the output back as lines drops that carriage return.
pub proof fn lemma_format_idempotent(x: Seq<char>)
    requires
        forall|k: int|
            0 <= k < lines(x).len() && copied_verbatim(lines(x), k) ==> clean_line(
                #[trigger] lines(x)[k],
            ),
    ensures
        spec_format(spec_format(x)) == spec_format(x),
{
    let l = lines(x);
    lemma_lines_no_newline(x);
    lemma_mirror(l);
    let s = fmt_run(l).out;
    lemma_drop_trailing(s);
    let o = drop_trailing_blank(s);
    let y = spec_format(x);
    lemma_run_prefix(s, o.len() as int);
    lemma_run_len(s.take(o.len() as int));
    assert(fmt_run(o).out =~= o);
    if o.len() > 0 {
        assert forall|k: int| 0 <= k < o.len() implies clean_line(#[trigger] o[k]) by {
            assert(o[k] == s[k]);
        }
        lemma_lines_of_join(o);
    } else {
        assert(y =~= seq!['\n']);
        let e = Seq::<char>::empty();
        assert(y =~= e.push('\n'));
        assert(y.drop_last() =~= e);
        assert(y.last() == '\n');
        assert(lines_state(e) == (Seq::<Seq<char>>::empty(), e));
        assert(crate::text::strip_cr(e) == e);
        assert(lines_state(y) == (Seq::<Seq<char>>::empty().push(e), e));
        assert(lines(y) =~= seq![e]);
        assert(seq![e].drop_last() =~= Seq::<Seq<char>>::empty());
        assert(trim(e) =~= e);
    }
}

proof fn lemma_drop_trailing(s: Seq<Seq<char>>)
    ensures
        ({
            let o = drop_trailing_blank(s);
            &&& o.len() <= s.len()
            &&& o == s.take(o.len() as int)
            &&& drop_trailing_blank(o) == o
        }),
    decreases s.len(),
{
    if s.len() > 0 && s.last().len() == 0 {
        let s0 = s.drop_last();
        lemma_drop_trailing(s0);
        let o = drop_trailing_blank(s0);
        assert(s.take(o.len() as int) =~= s0.take(o.len() as int));
    } else {
        assert(s.take(s.len() as int) =~= s);
    }
}

/// A line ends in something other than a newline, if it is not empty.
spec fn ends_clean(s: Seq<char>) -> bool {
    s.len() > 0 ==> s.last() != '\n'
}

proof fn lemma_run_ends_clean(ls: Seq<Seq<char>>)
    requires
        forall|k: int| 0 <= k < ls.len() ==> no_newline(#[trigger] ls[k]),
    ensures
        forall|k: int| 0 <= k < fmt_run(ls).out.len() ==> ends_clean(#[trigger] fmt_run(ls).out[k]),
    decreases ls.len(),
{
    if ls.len() > 0 {
        let l0 = ls.drop_last();
        assert forall|k: int| 0 <= k < l0.len() implies no_newline(#[trigger] l0[k]) by {
            assert(l0[k] == ls[k]);
        }
        lemma_run_ends_clean(l0);
        let s0 = fmt_run(l0);
        let line = ls.last();
        assert(line == ls[ls.len() - 1]);
        let s1 = fmt_step(s0, line);
        assert(s1 == fmt_run(ls));
        lemma_step_out(s0, line);
        let t = trim(line);
        lemma_trim_shape(line);
        if s1.out.len() > s0.out.len() {
            let x = s1.out.last();
            assert(s1.out =~= s0.out.push(x));
            if x.len() > 0 {
                if x == line {
                    assert(x.last() == line[line.len() - 1]);
                } else if x == t {
                    assert(is_ws('\n'));
                } else {
                    let dd = if crate::text::starts_with(t, crate::formatter::end_tag()) {
                        crate::formatter::sat_dec(s0.depth)
                    } else {
                        s0.depth
                    };
                    let r = repeat(indent_unit(), dd);
                    assert(x == r + t);
                    assert(t.len() > 0);
                    assert(x.last() == t.last());
                    assert(is_ws('\n'));
                }
            }
            assert forall|k: int| 0 <= k < s1.out.len() implies ends_clean(#[trigger] s1.out[k]) by {
                if k < s0.out.len() {
                    assert(s1.out[k] == s0.out[k]);
                }
            }
        } else {
            assert(s1.out =~= s0.out);
        }
    }
}

proof fn lemma_drop_trailing_last(s: Seq<Seq<char>>)
    ensures
        drop_trailing_blank(s).len() > 0 ==> drop_trailing_blank(s).last().len() > 0,
    decreases s.len(),
{
    if s.len() > 0 && s.last().len() == 0 {
        lemma_drop_trailing_last(s.drop_last());
    }
}

/// Formatted text ends with exactly one newline: its last character is a
/// newline and the one before it, if there is one, is not.
pub proof fn lemma_format_final_newline(x: Seq<char>)
    ensures
        spec_format(x).len() >= 1,
        spec_format(x).last() == '\n',
        spec_format(x).len() >= 2 ==> spec_format(x)[spec_format(x).len() - 2] != '\n',
{
    let l = lines(x);
    lemma_lines_no_newline(x);
    lemma_run_ends_clean(l);
    let s = fmt_run(l).out;
    lemma_drop_trailing(s);
    lemma_drop_trailing_last(s);
    let o = drop_trailing_blank(s);
    let j = join(o, seq!['\n']);
    let y = spec_format(x);
    assert(y == j.push('\n'));
    if o.len() > 0 {
        let n = o.len() - 1;
        assert(o[n] == s[n]);
        assert(o.last() == o[n]);
        assert(ends_clean(s[n]));
        if o.len() == 1 {
            assert(j == o[0]);
        } else {
            assert(j == join(o.drop_last(), seq!['\n']) + seq!['\n'] + o.last());
        }
        assert(j.last() == o.last().last());
        assert(y[y.len() - 2] == j.last());
    } else {
        assert(j.len() == 0);
    }
}

/// For each output line of the formatter after `ls`, whether it is an input
/// line copied as it is from inside a verbatim environment.
pub open spec fn fmt_copied(ls: Seq<Seq<char>>) -> Seq<bool>
    decreases ls.len(),
{
    if ls.len() == 0 {
        seq![]
    } else {
        let prev = fmt_copied(ls.drop_last());
        let st = fmt_run(ls.drop_last());
        let line = ls.last();
        if fmt_step(st, line).out.len() > st.out.len() {
            prev.push(
                st.verbatim matches Some(env) && !starts_with(trim(line), end_of(env)),
            )
        } else {
            prev
        }
    }
}

/// The lines of the formatted text (which is these lines joined by newlines,
/// with a final newline).
pub open spec fn formatted_lines(x: Seq<char>) -> Seq<Seq<char>> {
    drop_trailing_blank(fmt_run(lines(x)).out)
}

/// What holds of the formatter's output after each line.
spec fn collapse_inv(st: FmtState, c: Seq<bool>) -> bool {
    &&& c.len() == st.out.len()
    &&& forall|k: int|
        0 <= k && k + 1 < st.out.len() && (#[trigger] st.out[k]).len() == 0 && st.out[k + 1].len()
            == 0 ==> c[k] && c[k + 1]
    &&& st.out.len() > 0 ==> st.out[0].len() > 0
    &&& st.verbatim is None && st.out.len() > 0 && st.out.last().len() == 0 ==> st.prev_blank
    &&& st.verbatim is Some ==> st.out.len() > 0 && (st.out.last().len() > 0 || c.last())
}

proof fn lemma_collapse_run(ls: Seq<Seq<char>>)
    ensures
        collapse_inv(fmt_run(ls), fmt_copied(ls)),
    decreases ls.len(),
{
    if ls.len() > 0 {
        let l0 = ls.drop_last();
        lemma_collapse_run(l0);
        let st = fmt_run(l0);
        let c0 = fmt_copied(l0);
        let line = ls.last();
        let s1 = fmt_step(st, line);
        let c1 = fmt_copied(ls);
        assert(s1 == fmt_run(ls));
        let t = trim(line);
        if s1.out.len() > st.out.len() {
            let x = s1.out.last();
            assert(s1.out =~= st.out.push(x));
            let cp = st.verbatim matches Some(env) && !starts_with(t, end_of(env));
            assert(c1 == c0.push(cp));
            if !cp {
                if st.verbatim is Some {
                    let env = st.verbatim->Some_0;
                    assert(starts_with(t, end_of(env)));
                    assert(x == t);
                    assert(t.len() >= end_of(env).len());
                } else if t.len() > 0 {
                    if x != t {
                        let dd = if starts_with(t, crate::formatter::end_tag()) {
                            crate::formatter::sat_dec(st.depth)
                        } else {
                            st.depth
                        };
                        assert(x == repeat(indent_unit(), dd) + t);
                    }
                    assert(x.len() >= t.len());
                }
            }
            assert forall|k: int|
                0 <= k && k + 1 < s1.out.len() && (#[trigger] s1.out[k]).len() == 0 && s1.out[k
                    + 1].len() == 0 implies c1[k] && c1[k + 1] by {
                if k + 1 < st.out.len() {
                    assert(s1.out[k] == st.out[k]);
                    assert(s1.out[k + 1] == st.out[k + 1]);
                } else {
                    assert(s1.out[k] == st.out.last());
                }
            }
        } else {
            assert(s1.out =~= st.out);
            assert(c1 == c0);
        }
    }
}

/// Blank lines are collapsed: the formatted text never starts with a blank
/// line, and has two blank lines in a row only where both are lines copied
/// as they are from inside a verbatim environment.
pub proof fn lemma_blank_lines_collapsed(x: Seq<char>)
    ensures
        spec_format(x) == join(formatted_lines(x), seq!['\n']).push('\n'),
        formatted_lines(x).len() <= fmt_copied(lines(x)).len(),
        formatted_lines(x).len() > 0 ==> formatted_lines(x)[0].len() > 0,
        forall|k: int|
            0 <= k && k + 1 < formatted_lines(x).len() && (#[trigger] formatted_lines(x)[k]).len()
                == 0 && formatted_lines(x)[k + 1].len() == 0 ==> fmt_copied(lines(x))[k]
                && fmt_copied(lines(x))[k + 1],
{
    let l = lines(x);
    lemma_collapse_run(l);
    let s = fmt_run(l).out;
    lemma_drop_trailing(s);
    let o = formatted_lines(x);
    assert forall|k: int|
        0 <= k && k + 1 < o.len() && (#[trigger] o[k]).len() == 0 && o[k + 1].len() == 0 implies fmt_copied(
        l,
    )[k] && fmt_copied(l)[k + 1] by {
        assert(o[k] == s[k]);
        assert(o[k + 1] == s[k + 1]);
    }
    if o.len() > 0 {
        assert(o[0] == s[0]);
    }
}

/// The state after each of `ls` in turn, starting from `st`.
pub open spec fn fmt_from(st: FmtState, ls: Seq<Seq<char>>) -> FmtState
    decreases ls.len(),
{
    if ls.len() == 0 {
        st
    } else {
        fmt_step(fmt_from(st, ls.drop_last()), ls.last())
    }
}

/// `\begin{x}` opens an environment and `\end{x}` closes one.
proof fn lemma_tags(x: Seq<char>)
    requires
        forall|k: int| 0 <= k < x.len() ==> x[k] != '}',
    ensures
        spec_env_name("\\begin{"@ + x + "}"@) == Some(x),
        forall|t: Seq<char>|
            starts_with(t, "\\begin{"@ + x + "}"@) ==> spec_env_name(t) == Some(x) && starts_with(
                t,
                begin_tag(),
            ) && !starts_with(t, end_tag()) && t.len() > 0,
        forall|t: Seq<char>|
            starts_with(t, "\\end{"@ + x + "}"@) ==> starts_with(t, end_of(x)) && starts_with(
                t,
                end_tag(),
            ) && !starts_with(t, begin_tag()) && t.len() > 0,
{
    reveal_strlit("\\begin{");
    reveal_strlit("\\end{");
    reveal_strlit("}");
    assert forall|t: Seq<char>| starts_with(t, "\\begin{"@ + x + "}"@) implies spec_env_name(t)
        == Some(x) && starts_with(t, begin_tag()) && !starts_with(t, end_tag()) && t.len() > 0 by {
        let p = "\\begin{"@ + x + "}"@;
        assert(t.subrange(0, p.len() as int) == p);
        assert(t.subrange(0, 7) =~= begin_tag()) by {
            assert forall|k: int| 0 <= k < 7 implies t.subrange(0, 7)[k] == begin_tag()[k] by {
                assert(t[k] == p[k]);
            }
        }
        assert(occurs_at(t, begin_tag(), 0));
        assert(find(t, begin_tag()) == Some(0int));
        let u = t.skip(7);
        assert forall|k: int| 0 <= k < x.len() implies u[k] != '}' by {
            assert(u[k] == t[7 + k]);
            assert(t[7 + k] == p[7 + k]);
        }
        assert(u[x.len() as int] == '}') by {
            assert(t[7 + x.len() as int] == p[7 + x.len() as int]);
        }
        lemma_find_first_char(u, '}', x.len() as int);
        assert(t.subrange(7, 7 + x.len() as int) =~= x) by {
            assert forall|k: int| 0 <= k < x.len() implies t.subrange(7, 7 + x.len() as int)[k] == x[k] by {
                assert(t[7 + k] == p[7 + k]);
            }
        }
        assert(t[1] == p[1]);
        assert(end_tag()[1] == 'e');
    }
    assert forall|t: Seq<char>| starts_with(t, "\\end{"@ + x + "}"@) implies starts_with(t, end_of(x))
        && starts_with(t, end_tag()) && !starts_with(t, begin_tag()) && t.len() > 0 by {
        let p = "\\end{"@ + x + "}"@;
        assert(t.subrange(0, p.len() as int) == p);
        assert(end_of(x) =~= p);
        assert(t.subrange(0, 5) =~= end_tag()) by {
            assert forall|k: int| 0 <= k < 5 implies t.subrange(0, 5)[k] == end_tag()[k] by {
                assert(t[k] == p[k]);
            }
        }
        assert(t[1] == p[1]);
        assert(begin_tag()[1] == 'b');
    }
    let q = "\\begin{"@ + x + "}"@;
    assert(starts_with(q, q)) by {
        assert(q.subrange(0, q.len() as int) =~= q);
    }
}

/// An environment closed on the line after the one that opens it leaves the
/// depth as it was and nothing open, whatever the environment, verbatim ones
/// included.
pub proof fn lemma_empty_block_keeps_depth(st: FmtState, b: Seq<char>, e: Seq<char>, x: Seq<char>)
    requires
        st.verbatim is None,
        forall|k: int| 0 <= k < x.len() ==> x[k] != '}',
        starts_with(trim(b), "\\begin{"@ + x + "}"@),
        starts_with(trim(e), "\\end{"@ + x + "}"@),
    ensures
        fmt_step(fmt_step(st, b), e).depth == st.depth,
        fmt_step(fmt_step(st, b), e).verbatim is None,
{
    lemma_tags(x);
}

/// A verbatim environment (`verbatim`, `lstlisting`, `minted`, `Verbatim`)
/// keeps its inner lines as they are, and once closed leaves the depth as it
/// was before it opened and nothing open.
pub proof fn lemma_verbatim_block(
    st: FmtState,
    b: Seq<char>,
    body: Seq<Seq<char>>,
    e: Seq<char>,
    x: Seq<char>,
)
    requires
        st.verbatim is None,
        x == "verbatim"@ || x == "lstlisting"@ || x == "minted"@ || x == "Verbatim"@,
        starts_with(trim(b), "\\begin{"@ + x + "}"@),
        forall|k: int| 0 <= k < body.len() ==> !starts_with(trim(#[trigger] body[k]), "\\end{"@ + x + "}"@),
        starts_with(trim(e), "\\end{"@ + x + "}"@),
    ensures
        fmt_from(st, seq![b] + body + seq![e]) == (FmtState {
            out: st.out + seq![trim(b)] + body + seq![trim(e)],
            depth: st.depth,
            prev_blank: false,
            verbatim: None,
        }),
{
    reveal_strlit("verbatim");
    reveal_strlit("lstlisting");
    reveal_strlit("minted");
    reveal_strlit("Verbatim");
    assert forall|k: int| 0 <= k < x.len() implies x[k] != '}' by {}
    lemma_tags(x);
    assert(verbatim_envs()[0] == "verbatim"@);
    assert(verbatim_envs()[1] == "lstlisting"@);
    assert(verbatim_envs()[2] == "minted"@);
    assert(verbatim_envs()[3] == "Verbatim"@);
    assert(is_one_of(x, verbatim_envs()));
    let s1 = fmt_step(st, b);
    assert(s1 == FmtState {
        out: st.out.push(trim(b)),
        depth: st.depth + 1,
        prev_blank: false,
        verbatim: Some(x),
    });
    lemma_verbatim_body(s1, body, x);
    let ls = seq![b] + body + seq![e];
    assert(ls.drop_last() =~= seq![b] + body);
    let s2 = fmt_from(st, seq![b] + body);
    assert(s2 == fmt_from(s1, body)) by {
        lemma_fmt_from_append(st, seq![b], body);
        assert(seq![b].drop_last() =~= Seq::<Seq<char>>::empty());
        assert(fmt_from(st, Seq::<Seq<char>>::empty()) == st);
        assert(seq![b].last() == b);
        assert(fmt_from(st, seq![b]) == fmt_step(fmt_from(st, seq![b].drop_last()), b));
        assert(fmt_from(st, seq![b]) == s1);
    }
    assert(st.out.push(trim(b)) + body =~= st.out + seq![trim(b)] + body);
    assert(st.out + seq![trim(b)] + body + seq![trim(e)] =~= (st.out + seq![trim(b)] + body).push(
        trim(e),
    ));
}

proof fn lemma_fmt_from_append(st: FmtState, a: Seq<Seq<char>>, c: Seq<Seq<char>>)
    ensures
        fmt_from(st, a + c) == fmt_from(fmt_from(st, a), c),
    decreases c.len(),
{
    if c.len() == 0 {
        assert(a + c =~= a);
    } else {
        lemma_fmt_from_append(st, a, c.drop_last());
        assert((a + c).drop_last() =~= a + c.drop_last());
        assert((a + c).last() == c.last());
    }
}

proof fn lemma_verbatim_body(s1: FmtState, body: Seq<Seq<char>>, x: Seq<char>)
    requires
        s1.verbatim == Some(x),
        forall|k: int| 0 <= k < body.len() ==> !starts_with(trim(#[trigger] body[k]), "\\end{"@ + x + "}"@),
    ensures
        fmt_from(s1, body) == (FmtState { out: s1.out + body, ..s1 }),
    decreases body.len(),
{
    if body.len() == 0 {
        assert(s1.out + body =~= s1.out);
    } else {
        let init = body.drop_last();
        assert forall|k: int| 0 <= k < init.len() implies !starts_with(trim(#[trigger] init[k]), "\\end{"@ + x + "}"@) by {
            assert(init[k] == body[k]);
        }
        lemma_verbatim_body(s1, init, x);
        assert(end_of(x) =~= "\\end{"@ + x + "}"@) by {
            reveal_strlit("\\end{");
            reveal_strlit("}");
        }
        assert(!starts_with(trim(body[body.len() - 1]), "\\end{"@ + x + "}"@));
        assert(s1.out + init + seq![body.last()] =~= s1.out + body);
        assert((s1.out + init).push(body.last()) =~= s1.out + body);
    }
}

proof fn lemma_spaces(n: nat)
    ensures
        repeat(indent_unit(), n).len() == 2 * n,
        forall|k: int| 0 <= k < 2 * n ==> #[trigger] repeat(indent_unit(), n)[k] == ' ',
    decreases n,
{
    if n > 0 {
        lemma_spaces((n - 1) as nat);
        let r = repeat(indent_unit(), (n - 1) as nat);
        assert forall|k: int| 0 <= k < 2 * n implies #[trigger] (r + indent_unit())[k] == ' ' by {
            if k < r.len() {
                assert((r + indent_unit())[k] == r[k]);
            }
        }
    }
}

/// Every structural command starts with a backslash.
proof fn lemma_structural_backslash(t: Seq<char>)
    requires
        t.len() > 0,
        t[0] != '\\',
    ensures
        !spec_is_structural(t),
        !starts_with(t, begin_tag()),
        !starts_with(t, end_tag()),
{
    reveal_strlit("\\begin{");
    reveal_strlit("\\end{");
    reveal_strlit("\\documentclass");
    reveal_strlit("\\usepackage");
    reveal_strlit("\\section");
    reveal_strlit("\\subsection");
    reveal_strlit("\\chapter");
    reveal_strlit("\\title");
    reveal_strlit("\\author");
    reveal_strlit("\\date");
    reveal_strlit("\\maketitle");
    reveal_strlit("\\tableofcontents");
    reveal_strlit("\\input");
    reveal_strlit("\\bibliography");
    reveal_strlit("\\bibliographystyle");
    reveal_strlit("\\newcommand");
    reveal_strlit("\\renewcommand");
    reveal_strlit("\\pagestyle");
    reveal_strlit("\\geometry");
    reveal_strlit("\\hypersetup");
    reveal_strlit("\\numberwithin");
    reveal_strlit("\\titleformat");
    reveal_strlit("\\titlespacing");
    reveal_strlit("\\fancyhf");
    reveal_strlit("\\cfoot");
    let cs = structural_commands();
    assert forall|i: int| 0 <= i < cs.len() implies !starts_with(t, #[trigger] cs[i]) by {
        assert(cs[i].len() > 0 && cs[i][0] == '\\');
        if starts_with(t, cs[i]) {
            assert(t.subrange(0, cs[i].len() as int)[0] == t[0]);
        }
    }
    if starts_with(t, begin_tag()) {
        assert(t.subrange(0, 7)[0] == t[0]);
    }
    if starts_with(t, end_tag()) {
        assert(t.subrange(0, 5)[0] == t[0]);
    }
}

/// Outside verbatim text, a line of text (one not starting with a command) is
/// trimmed and indented by two spaces for each environment open around it,
/// and leaves the depth as it was.
pub proof fn lemma_text_indented(st: FmtState, l: Seq<char>)
    requires
        st.verbatim is None,
        trim(l).len() > 0,
        trim(l)[0] != '\\',
    ensures
        fmt_step(st, l).depth == st.depth,
        fmt_step(st, l).verbatim is None,
        fmt_step(st, l).out.len() == st.out.len() + 1,
        fmt_step(st, l).out.take(st.out.len() as int) == st.out,
        fmt_step(st, l).out.last().len() == 2 * st.depth + trim(l).len(),
        forall|k: int| 0 <= k < 2 * st.depth ==> #[trigger] fmt_step(st, l).out.last()[k] == ' ',
        fmt_step(st, l).out.last().skip(2 * st.depth as int) == trim(l),
{
    let t = trim(l);
    lemma_structural_backslash(t);
    lemma_spaces(st.depth);
    let o = fmt_step(st, l).out;
    assert(o.take(st.out.len() as int) =~= st.out);
    let sh = o.last();
    if st.depth > 0 {
        assert(sh == repeat(indent_unit(), st.depth) + t);
        assert(sh.skip(2 * st.depth as int) =~= t);
        assert forall|k: int| 0 <= k < 2 * st.depth implies #[trigger] sh[k] == ' ' by {
            assert(sh[k] == repeat(indent_unit(), st.depth)[k]);
        }
    } else {
        assert(sh.skip(0) =~= t);
    }
}

/// Outside verbatim text, a line that opens an environment is shown trimmed
/// and unindented and opens one more level, a verbatim environment too; a
/// line that closes one is shown trimmed and unindented and closes a level
/// (none below the margin).
pub proof fn lemma_environment_lines(st: FmtState, l: Seq<char>)
    requires
        st.verbatim is None,
    ensures
        starts_with(trim(l), "\\begin{"@) ==> fmt_step(st, l).out == st.out.push(trim(l))
            && fmt_step(st, l).depth == st.depth + 1,
        starts_with(trim(l), "\\end{"@) ==> fmt_step(st, l).out == st.out.push(trim(l))
            && fmt_step(st, l).depth == (if st.depth > 0 {
            st.depth - 1
        } else {
            0
        }) && fmt_step(st, l).verbatim is None,
{
    reveal_strlit("\\begin{");
    reveal_strlit("\\end{");
    let t = trim(l);
    if starts_with(t, "\\begin{"@) {
        assert(t.subrange(0, 7)[1] == t[1]);
        assert(t.len() > 0);
        if starts_with(t, end_tag()) {
            assert(t.subrange(0, 5)[1] == t[1]);
        }
    }
    if starts_with(t, "\\end{"@) {
        assert(t.subrange(0, 5)[1] == t[1]);
        assert(t.len() > 0);
        if starts_with(t, begin_tag()) {
            assert(t.subrange(0, 7)[1] == t[1]);
        }
    }
}

/// Outside verbatim text, a line that starts with one of the structural
/// commands (`\documentclass`, `\section`, `\input`, ...) is shown trimmed and
/// never indented, however deep it stands.
pub proof fn lemma_structural_unindented(st: FmtState, l: Seq<char>, i: int)
    requires
        st.verbatim is None,
        0 <= i < structural_commands().len(),
        starts_with(trim(l), structural_commands()[i]),
    ensures
        fmt_step(st, l).out == st.out.push(trim(l)),
{
    assert(spec_is_structural(trim(l)));
    reveal_strlit("\\begin{");
    reveal_strlit("\\end{");
    reveal_strlit("\\documentclass");
    reveal_strlit("\\usepackage");
    reveal_strlit("\\section");
    reveal_strlit("\\subsection");
    reveal_strlit("\\chapter");
    reveal_strlit("\\title");
    reveal_strlit("\\author");
    reveal_strlit("\\date");
    reveal_strlit("\\maketitle");
    reveal_strlit("\\tableofcontents");
    reveal_strlit("\\input");
    reveal_strlit("\\bibliography");
    reveal_strlit("\\bibliographystyle");
    reveal_strlit("\\newcommand");
    reveal_strlit("\\renewcommand");
    reveal_strlit("\\pagestyle");
    reveal_strlit("\\geometry");
    reveal_strlit("\\hypersetup");
    reveal_strlit("\\numberwithin");
    reveal_strlit("\\titleformat");
    reveal_strlit("\\titlespacing");
    reveal_strlit("\\fancyhf");
    reveal_strlit("\\cfoot");
    assert(structural_commands()[i].len() > 0);
    assert(trim(l).len() > 0);
}

} // verus!
