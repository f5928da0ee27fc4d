//! Embedded Mermaid diagrams: each `\begin{mermaid}...\end{mermaid}` block is
//! rendered and replaced by an `\includegraphics` of the rendered image.
use vstd::prelude::*;
use crate::linter::{resolve_tex_path, spec_resolve_tex};
use crate::text::{
    append_chars, chars_of, find, find_at, lemma_find_from, lemma_find_skip, occurs_at,
    seqs_of, slice_of, string_of, strings_of, strings_view, trim, trim_chars,
};
use crate::version::{decimal, decimal_text};

verus! {

/// Why diagram processing failed.
#[derive(Clone, Debug)]
pub enum DiagramError {
    /// A `\begin{mermaid}` has no matching `\end{mermaid}`.
    Unclosed,
    /// The renderer rejected a diagram; holds its message.
    Render(String),
}

/// The meaning of a `DiagramError`.
pub enum DiagramFault {
    Unclosed,
    Render(Seq<char>),
}

impl View for DiagramError {
    type V = DiagramFault;

    open spec fn view(&self) -> DiagramFault {
        match self {
            DiagramError::Unclosed => DiagramFault::Unclosed,
            DiagramError::Render(m) => DiagramFault::Render(m@),
        }
    }
}

impl DiagramError {
    /// The error's message.
    pub fn message(&self) -> (r: String)
        ensures
            r@ == match self {
                DiagramError::Unclosed => "\\begin{mermaid} without matching \\end{mermaid}"@,
                DiagramError::Render(m) => "Mermaid render error: "@ + m@,
            },
    {
        match self {
            DiagramError::Unclosed => string_of(
                chars_of("\\begin{mermaid} without matching \\end{mermaid}").as_slice(),
            ),
            DiagramError::Render(m) => crate::text::concat_str("Mermaid render error: ", m.as_str()),
        }
    }
}

/// The arguments of the `\input{...}` commands of a line, trimmed.
pub open spec fn input_args(search: Seq<char>) -> Seq<Seq<char>>
    decreases search.len(),
{
    match find(search, "\\input{"@) {
        None => seq![],
        Some(pos) => {
            proof {
                reveal_strlit("\\input{");
                lemma_find_from(search, "\\input{"@, 0);
            }
            let after = search.skip(pos + 7);
            match find(after, seq!['}']) {
                Some(end) => {
                    proof {
                        lemma_find_from(after, seq!['}'], 0);
                    }
                    seq![trim(after.take(end))] + input_args(after.skip(end + 1))
                },
                None => seq![],
            }
        },
    }
}

/// Extract the arguments of `\input{...}` in a line.
pub fn extract_inputs(line: &str) -> (r: Vec<String>)
    ensures
        strings_view(r@) == input_args(line@),
{
    let l = chars_of(line);
    let pat = chars_of("\\input{");
    proof {
        reveal_strlit("\\input{");
    }
    let mut close: Vec<char> = Vec::new();
    close.push('}');
    assert(close@ =~= seq!['}']);
    let mut out: Vec<Vec<char>> = Vec::new();
    let mut off: usize = 0;
    let n = l.len();
    assert(l@.skip(0) =~= l@);
    loop
        invariant
            pat@ == "\\input{"@,
            pat@.len() == 7,
            l@ == line@,
            close@ == seq!['}'],
            n == l@.len(),
            off <= n,
            seqs_of(out@) + input_args(l@.skip(off as int)) == input_args(l@),
        decreases n - off,
    {
        let ghost search = l@.skip(off as int);
        proof {
            lemma_find_skip(l@, pat@, off as int, 0);
            lemma_find_from(l@, pat@, off as int);
        }
        match find_at(&l, &pat, off) {
            None => {
                assert(find(search, pat@) is None);
                assert(input_args(search) =~= Seq::<Seq<char>>::empty());
                assert(seqs_of(out@) + Seq::<Seq<char>>::empty() =~= seqs_of(out@));
                return strings_of(&out);
            },
            Some(p) => {
                assert(occurs_at(l@, pat@, p as int));
                let a = p + 7;
                assert(search.skip(p - off + 7) =~= l@.skip(a as int));
                proof {
                    lemma_find_skip(l@, seq!['}'], a as int, 0);
                    lemma_find_from(l@, seq!['}'], a as int);
                }
                match find_at(&l, &close, a) {
                    None => {
                        assert(find(search, pat@) == Some(p - off));
                        assert(find(l@.skip(a as int), seq!['}']) is None);
                        assert(input_args(search) =~= Seq::<Seq<char>>::empty());
                        assert(seqs_of(out@) + Seq::<Seq<char>>::empty() =~= seqs_of(out@));
                        return strings_of(&out);
                    },
                    Some(e) => {
                        assert(occurs_at(l@, seq!['}'], e as int));
                        let inner = slice_of(&l, a, e);
                        assert(inner@ =~= l@.skip(a as int).take(e - a));
                        assert(l@.skip(a as int).skip(e - a + 1) =~= l@.skip(e + 1));
                        let arg = trim_chars(&inner);
                        let ghost before = seqs_of(out@);
                        let ghost av = arg@;
                        out.push(arg);
                        assert(seqs_of(out@) =~= before.push(av));
                        assert(before.push(av) + input_args(l@.skip(e + 1)) =~= before + (seq![av]
                            + input_args(l@.skip(e + 1))));
                        off = e + 1;
                    },
                }
            },
        }
    }
}

/// The path of an `\input` (see `linter::resolve_tex_path`).
pub fn resolve_tex(input: &str) -> (r: String)
    ensures
        r@ == spec_resolve_tex(input@),
{
    resolve_tex_path(input)
}

/// `\includegraphics{build/diagrams/diagram-N.svg}` for the `n`-th diagram.
pub open spec fn diagram_include(n: nat) -> Seq<char> {
    "\\includegraphics{build/diagrams/diagram-"@ + decimal(n) + ".svg}"@
}

/// The trimmed sources of the Mermaid blocks from `rem` on, in order, up to
/// the first `\begin{mermaid}` without its `\end{mermaid}`.
pub open spec fn block_sources(rem: Seq<char>) -> Seq<Seq<char>>
    decreases rem.len(),
{
    match find(rem, "\\begin{mermaid}"@) {
        None => seq![],
        Some(start) => {
            proof {
                reveal_strlit("\\begin{mermaid}");
                lemma_find_from(rem, "\\begin{mermaid}"@, 0);
            }
            let after = rem.skip(start + 15);
            match find(after, "\\end{mermaid}"@) {
                None => seq![],
                Some(end) => {
                    proof {
                        reveal_strlit("\\end{mermaid}");
                        lemma_find_from(after, "\\end{mermaid}"@, 0);
                    }
                    seq![trim(after.take(end))] + block_sources(after.skip(end + 13))
                },
            }
        },
    }
}

/// The position of the next complete block at or after `off`: where its
/// `\begin{mermaid}` starts, where its source starts and ends, and where the
/// text after its `\end{mermaid}` starts; `None` when there is no further
/// block, and an error when the next one has no end.
fn next_block(c: &Vec<char>, begin: &Vec<char>, end: &Vec<char>, off: usize) -> (r: Result<
    Option<(usize, usize, usize)>,
    (),
>)
    requires
        begin@ == "\\begin{mermaid}"@,
        end@ == "\\end{mermaid}"@,
        begin@.len() == 15,
        end@.len() == 13,
        off <= c@.len(),
    ensures
        ({
            let rem = c@.skip(off as int);
            match r {
                Ok(None) => find(rem, begin@) is None,
                Err(_) => find(rem, begin@) is Some && find(
                    rem.skip(find(rem, begin@)->Some_0 + 15),
                    end@,
                ) is None,
                Ok(Some((s, e, n))) => {
                    &&& off <= s && s + 15 <= e && e + 13 == n && n <= c@.len()
                    &&& find(rem, begin@) == Some(s - off)
                    &&& find(rem.skip(s - off + 15), end@) == Some(e - (s + 15))
                },
            }
        }),
{
    proof {
        lemma_find_skip(c@, begin@, off as int, 0);
        lemma_find_from(c@, begin@, off as int);
    }
    let len = c.len();
    match find_at(c, begin, off) {
        None => Ok(None),
        Some(s) => {
            assert(occurs_at(c@, begin@, s as int));
            assert(s + 15 <= len);
            let a = s + 15;
            assert(c@.skip(off as int).skip(s - off + 15) =~= c@.skip(a as int));
            proof {
                lemma_find_skip(c@, end@, a as int, 0);
                lemma_find_from(c@, end@, a as int);
            }
            match find_at(c, end, a) {
                None => Err(()),
                Some(e) => {
                    assert(occurs_at(c@, end@, e as int));
                    assert(e + 13 <= len);
                    Ok(Some((s, e, e + 13)))
                },
            }
        },
    }
}

/// The trimmed sources of the complete Mermaid blocks of `content`, in order.
pub fn diagram_sources(content: &str) -> (r: Vec<String>)
    ensures
        strings_view(r@) == block_sources(content@),
{
    let c = chars_of(content);
    let begin = chars_of("\\begin{mermaid}");
    let end = chars_of("\\end{mermaid}");
    proof {
        reveal_strlit("\\begin{mermaid}");
        reveal_strlit("\\end{mermaid}");
    }
    let mut out: Vec<Vec<char>> = Vec::new();
    let mut off: usize = 0;
    assert(c@.skip(0) =~= c@);
    loop
        invariant
            begin@ == "\\begin{mermaid}"@,
            end@ == "\\end{mermaid}"@,
            begin@.len() == 15,
            end@.len() == 13,
            c@ == content@,
            off <= c@.len(),
            seqs_of(out@) + block_sources(c@.skip(off as int)) == block_sources(c@),
        decreases c@.len() - off,
    {
        let ghost rem = c@.skip(off as int);
        match next_block(&c, &begin, &end, off) {
            Ok(None) | Err(_) => {
                assert(block_sources(rem) =~= Seq::<Seq<char>>::empty());
                assert(seqs_of(out@) + Seq::<Seq<char>>::empty() =~= seqs_of(out@));
                return strings_of(&out);
            },
            Ok(Some((s, e, n))) => {
                let src = slice_of(&c, s + 15, e);
                let t = trim_chars(&src);
                let ghost after = rem.skip(s - off + 15);
                assert(after =~= c@.skip(s + 15));
                assert(src@ =~= after.take(e - (s + 15)));
                assert(after.skip(e - (s + 15) + 13) =~= c@.skip(n as int));
                assert(block_sources(rem) == seq![t@] + block_sources(c@.skip(n as int)));
                let ghost before = seqs_of(out@);
                let ghost tv = t@;
                out.push(t);
                assert(seqs_of(out@) =~= before.push(tv));
                assert(before.push(tv) + block_sources(c@.skip(n as int)) =~= before + (seq![tv]
                    + block_sources(c@.skip(n as int))));
                off = n;
            },
        }
    }
}

/// Renderer outcomes by what they hold.
pub open spec fn outcomes_view(rs: Seq<Result<String, String>>) -> Seq<Result<Seq<char>, Seq<char>>> {
    rs.map_values(
        |r: Result<String, String>|
            match r {
                Ok(s) => Ok::<Seq<char>, Seq<char>>(s@),
                Err(m) => Err::<Seq<char>, Seq<char>>(m@),
            },
    )
}

/// The content from `rem` on with each block replaced by an
/// `\includegraphics` of its image (numbered after `count`), given the
/// renderer's outcome for each block (`results[count]` for the next one), and
/// the rendered SVG texts; or the first failure: a block without its end, or
/// a block the renderer rejected. Blocks past the given outcomes are left as
/// they are.
pub open spec fn assemble_from(
    rem: Seq<char>,
    count: nat,
    results: Seq<Result<Seq<char>, Seq<char>>>,
) -> Result<(Seq<char>, Seq<Seq<char>>), DiagramFault>
    decreases rem.len(),
{
    match find(rem, "\\begin{mermaid}"@) {
        None => Ok((rem, seq![])),
        Some(start) => {
            proof {
                reveal_strlit("\\begin{mermaid}");
                lemma_find_from(rem, "\\begin{mermaid}"@, 0);
            }
            let after = rem.skip(start + 15);
            match find(after, "\\end{mermaid}"@) {
                None => Err(DiagramFault::Unclosed),
                Some(end) => {
                    proof {
                        reveal_strlit("\\end{mermaid}");
                        lemma_find_from(after, "\\end{mermaid}"@, 0);
                    }
                    if count >= results.len() {
                        Ok((rem, seq![]))
                    } else {
                        match results[count as int] {
                            Err(m) => Err(DiagramFault::Render(m)),
                            Ok(svg) => match assemble_from(after.skip(end + 13), count + 1, results) {
                                Err(e) => Err(e),
                                Ok((text, svgs)) => Ok(
                                    (
                                        rem.take(start) + diagram_include(count + 1) + text,
                                        seq![svg] + svgs,
                                    ),
                                ),
                            },
                        }
                    }
                },
            }
        },
    }
}

/// `r` with `o` and `s` put before its text and its SVG texts.
pub open spec fn after_prefix(
    o: Seq<char>,
    s: Seq<Seq<char>>,
    r: Result<(Seq<char>, Seq<Seq<char>>), DiagramFault>,
) -> Result<(Seq<char>, Seq<Seq<char>>), DiagramFault> {
    match r {
        Ok((t, ss)) => Ok((o + t, s + ss)),
        Err(e) => Err(e),
    }
}

/// Replace each Mermaid block of `content` by an `\includegraphics` of
/// `diagram-N.svg` (counting from 1), given the renderer's outcome for the
/// trimmed source of each block in order (see `diagram_sources`); returns the
/// new content and the SVG texts, one per block, or the first failure: a
/// block without its end, or a block the renderer rejected. Blocks past the
/// outcomes given are left as they are.
pub fn render_diagrams(content: &str, results: &[Result<String, String>]) -> (r: Result<
    (String, Vec<String>),
    DiagramError,
>)
    ensures
        match r {
            Ok((text, svgs)) => assemble_from(content@, 0, outcomes_view(results@)) == Ok::<
                (Seq<char>, Seq<Seq<char>>),
                DiagramFault,
            >((text@, strings_view(svgs@))),
            Err(e) => assemble_from(content@, 0, outcomes_view(results@)) == Err::<
                (Seq<char>, Seq<Seq<char>>),
                DiagramFault,
            >(e@),
        },
{
    let ghost rv = outcomes_view(results@);
    let c = chars_of(content);
    let begin = chars_of("\\begin{mermaid}");
    let end = chars_of("\\end{mermaid}");
    proof {
        reveal_strlit("\\begin{mermaid}");
        reveal_strlit("\\end{mermaid}");
    }
    let mut out: Vec<char> = Vec::new();
    let mut svgs: Vec<String> = Vec::new();
    let mut off: usize = 0;
    let mut count: usize = 0;
    assert(c@.skip(0) =~= c@);
    assert(after_prefix(out@, strings_view(svgs@), assemble_from(c@, 0, rv)) == assemble_from(
        c@,
        0,
        rv,
    )) by {
        assert(out@ =~= Seq::<char>::empty());
        assert(strings_view(svgs@) =~= Seq::<Seq<char>>::empty());
        if let Ok((t, ss)) = assemble_from(c@, 0, rv) {
            assert(out@ + t =~= t);
            assert(strings_view(svgs@) + ss =~= ss);
        }
    }
    loop
        invariant
            begin@ == "\\begin{mermaid}"@,
            end@ == "\\end{mermaid}"@,
            begin@.len() == 15,
            end@.len() == 13,
            c@ == content@,
            off <= c@.len(),
            count <= off,
            rv == outcomes_view(results@),
            after_prefix(out@, strings_view(svgs@), assemble_from(c@.skip(off as int), count as nat, rv))
                == assemble_from(c@, 0, rv),
        decreases c@.len() - off,
    {
        let ghost rem = c@.skip(off as int);
        let ghost o0 = out@;
        let ghost s0 = strings_view(svgs@);
        match next_block(&c, &begin, &end, off) {
            Ok(None) => {
                assert(assemble_from(rem, count as nat, rv) == Ok::<
                    (Seq<char>, Seq<Seq<char>>),
                    DiagramFault,
                >((rem, Seq::<Seq<char>>::empty())));
                let rest = slice_of(&c, off, c.len());
                assert(rest@ =~= rem);
                append_chars(&mut out, &rest);
                assert(s0 + Seq::<Seq<char>>::empty() =~= s0);
                return Ok((string_of(out.as_slice()), svgs));
            },
            Err(_) => {
                assert(assemble_from(rem, count as nat, rv) == Err::<
                    (Seq<char>, Seq<Seq<char>>),
                    DiagramFault,
                >(DiagramFault::Unclosed));
                return Err(DiagramError::Unclosed);
            },
            Ok(Some((s, e, n))) => {
                let ghost after = rem.skip(s - off + 15);
                assert(after =~= c@.skip(s + 15));
                assert(after.skip(e - (s + 15) + 13) =~= c@.skip(n as int));
                if count >= results.len() {
                    assert(assemble_from(rem, count as nat, rv) == Ok::<
                        (Seq<char>, Seq<Seq<char>>),
                        DiagramFault,
                    >((rem, Seq::<Seq<char>>::empty())));
                    let rest = slice_of(&c, off, c.len());
                    assert(rest@ =~= rem);
                    append_chars(&mut out, &rest);
                    assert(s0 + Seq::<Seq<char>>::empty() =~= s0);
                    return Ok((string_of(out.as_slice()), svgs));
                }
                assert(rv[count as int] == match results@[count as int] {
                    Ok(x) => Ok::<Seq<char>, Seq<char>>(x@),
                    Err(m) => Err::<Seq<char>, Seq<char>>(m@),
                });
                match &results[count] {
                    Err(m) => {
                        assert(assemble_from(rem, count as nat, rv) == Err::<
                            (Seq<char>, Seq<Seq<char>>),
                            DiagramFault,
                        >(DiagramFault::Render(m@)));
                        return Err(DiagramError::Render(m.clone()));
                    },
                    Ok(svg) => {
                        let before = slice_of(&c, off, s);
                        assert(before@ =~= rem.take(s - off));
                        append_chars(&mut out, &before);
                        let mut inc = chars_of("\\includegraphics{build/diagrams/diagram-");
                        append_chars(&mut inc, &decimal_text((count + 1) as u64));
                        append_chars(&mut inc, &chars_of(".svg}"));
                        assert(inc@ == diagram_include((count + 1) as nat));
                        append_chars(&mut out, &inc);
                        let ghost sv = svg@;
                        svgs.push(svg.clone());
                        assert(strings_view(svgs@) =~= s0.push(sv));
                        proof {
                            let nxt = assemble_from(c@.skip(n as int), (count + 1) as nat, rv);
                            match nxt {
                                Ok((t, ss)) => {
                                    assert(assemble_from(rem, count as nat, rv) == Ok::<
                                        (Seq<char>, Seq<Seq<char>>),
                                        DiagramFault,
                                    >((rem.take(s - off) + diagram_include((count + 1) as nat) + t, seq![sv] + ss)));
                                    assert(o0 + (rem.take(s - off) + diagram_include((count + 1) as nat) + t)
                                        =~= out@ + t);
                                    assert(s0 + (seq![sv] + ss) =~= strings_view(svgs@) + ss);
                                },
                                Err(x) => {
                                    assert(assemble_from(rem, count as nat, rv) == Err::<
                                        (Seq<char>, Seq<Seq<char>>),
                                        DiagramFault,
                                    >(x));
                                },
                            }
                        }
                        count = count + 1;
                        off = n;
                    },
                }
            },
        }
    }
}

/// What the outcomes hold: the SVG text of each success, the message of each
/// failure.
pub open spec fn outcome_texts(rs: Seq<Result<Seq<char>, Seq<char>>>) -> Seq<Seq<char>> {
    rs.map_values(
        |r: Result<Seq<char>, Seq<char>>|
            match r {
                Ok(s) => s,
                Err(m) => m,
            },
    )
}

proof fn lemma_first_rejection_from(
    rem: Seq<char>,
    count: nat,
    rs: Seq<Result<Seq<char>, Seq<char>>>,
    i: int,
)
    requires
        count <= i < rs.len(),
        i - count < block_sources(rem).len(),
        rs[i] is Err,
        forall|k: int| count <= k < i ==> rs[k] is Ok,
    ensures
        assemble_from(rem, count, rs) == Err::<(Seq<char>, Seq<Seq<char>>), DiagramFault>(
            DiagramFault::Render(rs[i]->Err_0),
        ),
    decreases rem.len(),
{
    reveal_strlit("\\begin{mermaid}");
    reveal_strlit("\\end{mermaid}");
    let start = find(rem, "\\begin{mermaid}"@)->Some_0;
    lemma_find_from(rem, "\\begin{mermaid}"@, 0);
    let after = rem.skip(start + 15);
    let end = find(after, "\\end{mermaid}"@)->Some_0;
    lemma_find_from(after, "\\end{mermaid}"@, 0);
    let rest = after.skip(end + 13);
    assert(block_sources(rem) == seq![trim(after.take(end))] + block_sources(rest));
    if i > count {
        lemma_first_rejection_from(rest, count + 1, rs, i);
    }
}

/// Whatever the renderer returned, the first block it rejected decides the
/// failure: its message is the error, as long as each block before it was
/// rendered.
pub proof fn lemma_first_rejection_reported(
    content: Seq<char>,
    rs: Seq<Result<Seq<char>, Seq<char>>>,
    i: int,
)
    requires
        0 <= i < rs.len(),
        i < block_sources(content).len(),
        rs[i] is Err,
        forall|k: int| 0 <= k < i ==> rs[k] is Ok,
    ensures
        assemble_from(content, 0, rs) == Err::<(Seq<char>, Seq<Seq<char>>), DiagramFault>(
            DiagramFault::Render(rs[i]->Err_0),
        ),
{
    lemma_first_rejection_from(content, 0, rs, i);
}

proof fn lemma_all_rendered_from(rem: Seq<char>, count: nat, rs: Seq<Result<Seq<char>, Seq<char>>>)
    requires
        rs.len() == count + block_sources(rem).len(),
        forall|k: int| count <= k < rs.len() ==> rs[k] is Ok,
    ensures
        match assemble_from(rem, count, rs) {
            Ok((_, svgs)) => svgs == outcome_texts(rs.skip(count as int)),
            Err(e) => e == DiagramFault::Unclosed,
        },
    decreases rem.len(),
{
    reveal_strlit("\\begin{mermaid}");
    reveal_strlit("\\end{mermaid}");
    match find(rem, "\\begin{mermaid}"@) {
        None => {
            assert(rs.skip(count as int) =~= Seq::<Result<Seq<char>, Seq<char>>>::empty());
            assert(outcome_texts(rs.skip(count as int)) =~= Seq::<Seq<char>>::empty());
        },
        Some(start) => {
            lemma_find_from(rem, "\\begin{mermaid}"@, 0);
            let after = rem.skip(start + 15);
            match find(after, "\\end{mermaid}"@) {
                None => {},
                Some(end) => {
                    lemma_find_from(after, "\\end{mermaid}"@, 0);
                    let rest = after.skip(end + 13);
                    assert(block_sources(rem) == seq![trim(after.take(end))] + block_sources(rest));
                    lemma_all_rendered_from(rest, count + 1, rs);
                    let tail = outcome_texts(rs.skip(count as int));
                    assert(tail =~= seq![rs[count as int]->Ok_0] + outcome_texts(
                        rs.skip(count + 1int),
                    ));
                },
            }
        },
    }
}

/// When the renderer rendered every block, the result is the SVG texts in
/// block order, unless a block has no end.
pub proof fn lemma_all_rendered(content: Seq<char>, rs: Seq<Result<Seq<char>, Seq<char>>>)
    requires
        rs.len() == block_sources(content).len(),
        forall|k: int| 0 <= k < rs.len() ==> rs[k] is Ok,
    ensures
        match assemble_from(content, 0, rs) {
            Ok((_, svgs)) => svgs == outcome_texts(rs),
            Err(e) => e == DiagramFault::Unclosed,
        },
{
    lemma_all_rendered_from(content, 0, rs);
    assert(rs.skip(0) =~= rs);
}

} // verus!
