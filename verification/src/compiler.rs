//! Reading the LaTeX engine's output: structured errors and the failure message.
use vstd::prelude::*;
use crate::text::{
    append_chars, chars_of, find, find_at, has_prefix, lemma_find_from, lines, occurs_at,
    seqs_of, slice_of, split_lines, starts_with, string_of, trim, trim_chars, is_trimmed, is_ws,
    lemma_trim_after_ws, lemma_trim_fixed,
};
use crate::version_laws::lemma_decimal;
use crate::version::{decimal, decimal_text, digits_value, is_digit};

verus! {

/// An error reported by the engine, with its location when known.
#[derive(Clone, Debug)]
pub struct CompileError {
    pub file: String,
    pub line: usize,
    pub message: String,
}

/// What a compile error holds.
pub struct CompileErrorView {
    pub file: Seq<char>,
    pub line: nat,
    pub message: Seq<char>,
}

impl View for CompileError {
    type V = CompileErrorView;

    open spec fn view(&self) -> CompileErrorView {
        CompileErrorView { file: self.file@, line: self.line as nat, message: self.message@ }
    }
}

/// The errors of a list, by what they hold.
pub open spec fn compile_errors_view(v: Seq<CompileError>) -> Seq<CompileErrorView> {
    Seq::new(v.len(), |i: int| v[i]@)
}

/// `usize::from_str`: an optional `+`, then one or more digits, of a value that
/// fits in `usize`.
pub open spec fn parse_usize(s: Seq<char>) -> Option<usize> {
    let d = unsigned_digits(s);
    if d.len() > 0 && (forall|k: int| 0 <= k < d.len() ==> is_digit(#[trigger] d[k]))
        && digits_value(d) <= usize::MAX {
        Some(digits_value(d) as usize)
    } else {
        None
    }
}

/// `s` without one leading `+`.
pub open spec fn unsigned_digits(s: Seq<char>) -> Seq<char> {
    if s.len() > 0 && s[0] == '+' {
        s.drop_first()
    } else {
        s
    }
}

/// The index of the last occurrence of `c` in `s`.
pub open spec fn last_index_of(s: Seq<char>, c: char) -> Option<int>
    decreases s.len(),
{
    if s.len() == 0 {
        None
    } else if s.last() == c {
        Some(s.len() - 1)
    } else {
        last_index_of(s.drop_last(), c)
    }
}

/// The structured error that an `error:` line denotes: `error: file:line: message`
/// with its location, or else the whole rest of the line as the message.
pub open spec fn error_line_entry(rest: Seq<char>) -> CompileErrorView {
    let r = trim(rest);
    let fallback = CompileErrorView { file: seq![], line: 0, message: r };
    match find(r, ": "@) {
        None => fallback,
        Some(i) => {
            let loc = r.take(i);
            let msg = r.skip(i + 2);
            match last_index_of(loc, ':') {
                None => fallback,
                Some(j) => match parse_usize(loc.skip(j + 1)) {
                    Some(n) => CompileErrorView {
                        file: trim(loc.take(j)),
                        line: n as nat,
                        message: trim(msg),
                    },
                    None => fallback,
                },
            }
        },
    }
}

/// The leading run of digits of `s`.
pub open spec fn leading_digits(s: Seq<char>) -> Seq<char>
    decreases s.len(),
{
    if s.len() > 0 && is_digit(s[0]) {
        seq![s[0]] + leading_digits(s.drop_first())
    } else {
        seq![]
    }
}

/// How one line of engine output changes the error list: `error:` lines and
/// `! ` lines add an error; an `l.<number>` line sets the last error's line.
pub open spec fn error_step(errs: Seq<CompileErrorView>, line: Seq<char>) -> Seq<CompileErrorView> {
    let t = trim(line);
    if starts_with(t, "error:"@) {
        errs.push(error_line_entry(t.skip(6)))
    } else if starts_with(t, "! "@) {
        errs.push(CompileErrorView { file: seq![], line: 0, message: t.skip(2) })
    } else if starts_with(t, "l."@) {
        match parse_usize(leading_digits(t.skip(2))) {
            Some(n) => if errs.len() > 0 {
                errs.update(
                    errs.len() - 1,
                    CompileErrorView { line: n as nat, ..errs.last() },
                )
            } else {
                errs
            },
            None => errs,
        }
    } else {
        errs
    }
}

/// The errors of the engine output lines `ls`.
pub open spec fn errors_of(ls: Seq<Seq<char>>) -> Seq<CompileErrorView>
    decreases ls.len(),
{
    if ls.len() == 0 {
        seq![]
    } else {
        error_step(errors_of(ls.drop_last()), ls.last())
    }
}

fn parse_usize_chars(s: &Vec<char>) -> (r: Option<usize>)
    ensures
        r == parse_usize(s@),
{
    let d = if s.len() > 0 && s[0] == '+' {
        let d = slice_of(s, 1, s.len());
        assert(d@ =~= s@.drop_first());
        d
    } else {
        slice_of(s, 0, s.len())
    };
    assert(d@ =~= unsigned_digits(s@));
    if d.len() == 0 {
        return None;
    }
    let mut v: usize = 0;
    let mut i: usize = 0;
    while i < d.len()
        invariant
            i <= d@.len(),
            d@.len() > 0,
            d@ == unsigned_digits(s@),
            forall|k: int| 0 <= k < i ==> is_digit(#[trigger] d@[k]),
            v == digits_value(d@.take(i as int)),
        decreases d@.len() - i,
    {
        let c = d[i];
        assert(d@.take(i + 1).drop_last() =~= d@.take(i as int));
        if !('0' <= c && c <= '9') {
            assert(!is_digit(d@[i as int]));
            assert(!(forall|k: int| 0 <= k < d@.len() ==> is_digit(#[trigger] d@[k])));
            assert(parse_usize(s@) is None);
            return None;
        }
        let x = (c as u32 - '0' as u32) as usize;
        if v > (usize::MAX - x) / 10 {
            proof {
                crate::version::lemma_digits_grow(d@, i as int + 1);
                assert(v * 10 + x > usize::MAX) by (nonlinear_arith)
                    requires
                        v > (usize::MAX - x) / 10,
                        x < 10,
                ;
            }
            return None;
        }
        assert(v * 10 + x <= usize::MAX) by (nonlinear_arith)
            requires
                v <= (usize::MAX - x) / 10,
                x < 10,
        ;
        v = v * 10 + x;
        i = i + 1;
    }
    assert(d@.take(i as int) =~= d@);
    Some(v)
}

pub(crate) fn last_index_chars(s: &Vec<char>, c: char) -> (r: Option<usize>)
    ensures
        match r {
            Some(j) => last_index_of(s@, c) == Some(j as int) && j < s@.len(),
            None => last_index_of(s@, c) is None,
        },
{
    let mut k = s.len();
    assert(s@.take(k as int) =~= s@);
    while k > 0
        invariant
            k <= s@.len(),
            last_index_of(s@, c) == last_index_of(s@.take(k as int), c),
        decreases k,
    {
        assert(s@.take(k as int).last() == s@[k - 1]);
        if s[k - 1] == c {
            return Some(k - 1);
        }
        assert(s@.take(k as int).drop_last() =~= s@.take(k - 1));
        k = k - 1;
    }
    None
}

fn leading_digits_chars(s: &Vec<char>) -> (r: Vec<char>)
    ensures
        r@ == leading_digits(s@),
{
    let mut i: usize = 0;
    while i < s.len() && '0' <= s[i] && s[i] <= '9'
        invariant
            i <= s@.len(),
            forall|k: int| 0 <= k < i ==> is_digit(#[trigger] s@[k]),
        decreases s@.len() - i,
    {
        i = i + 1;
    }
    proof {
        lemma_leading_digits(s@, i as int);
    }
    slice_of(s, 0, i)
}

proof fn lemma_leading_digits(s: Seq<char>, i: int)
    requires
        0 <= i <= s.len(),
        forall|k: int| 0 <= k < i ==> is_digit(#[trigger] s[k]),
        i == s.len() || !is_digit(s[i]),
    ensures
        leading_digits(s) == s.take(i),
    decreases i,
{
    if i == 0 {
        assert(s.take(0) =~= Seq::<char>::empty());
    } else {
        let t = s.drop_first();
        assert forall|k: int| 0 <= k < i - 1 implies is_digit(#[trigger] t[k]) by {
            assert(t[k] == s[k + 1]);
        }
        if i < s.len() {
            assert(t[i - 1] == s[i]);
        }
        lemma_leading_digits(t, i - 1);
        assert(seq![s[0]] + t.take(i - 1) =~= s.take(i));
    }
}

fn error_entry(rest: &Vec<char>) -> (e: CompileError)
    ensures
        e@ == error_line_entry(rest@),
{
    let r = trim_chars(rest);
    let sep = chars_of(": ");
    proof {
        reveal_strlit(": ");
        lemma_find_from(r@, ": "@, 0);
    }
    let fallback_msg = slice_of(&r, 0, r.len());
    assert(fallback_msg@ =~= r@);
    match find_at(&r, &sep, 0) {
        None => CompileError {
            file: String::new(),
            line: 0,
            message: string_of(fallback_msg.as_slice()),
        },
        Some(i) => {
            assert(occurs_at(r@, ": "@, i as int));
            let loc = slice_of(&r, 0, i);
            let n = r.len();
            let msg = slice_of(&r, i + 2, n);
            assert(loc@ =~= r@.take(i as int));
            assert(msg@ =~= r@.skip(i + 2));
            match last_index_chars(&loc, ':') {
                None => CompileError {
                    file: String::new(),
                    line: 0,
                    message: string_of(fallback_msg.as_slice()),
                },
                Some(j) => {
                    let num = slice_of(&loc, j + 1, loc.len());
                    assert(num@ =~= loc@.skip(j + 1));
                    match parse_usize_chars(&num) {
                        Some(line) => {
                            let f = slice_of(&loc, 0, j);
                            assert(f@ =~= loc@.take(j as int));
                            CompileError {
                                file: string_of(trim_chars(&f).as_slice()),
                                line,
                                message: string_of(trim_chars(&msg).as_slice()),
                            }
                        },
                        None => CompileError {
                            file: String::new(),
                            line: 0,
                            message: string_of(fallback_msg.as_slice()),
                        },
                    }
                },
            }
        },
    }
}

fn push_compile_error(errors: &mut Vec<CompileError>, e: CompileError)
    ensures
        compile_errors_view(final(errors)@) == compile_errors_view(old(errors)@).push(e@),
{
    let ghost before = compile_errors_view(errors@);
    let ghost ev = e@;
    errors.push(e);
    assert(compile_errors_view(errors@) =~= before.push(ev));
}

fn error_step_exec(errors: &mut Vec<CompileError>, line: &Vec<char>)
    ensures
        compile_errors_view(final(errors)@) == error_step(compile_errors_view(old(errors)@), line@),
{
    let t = trim_chars(line);
    proof {
        reveal_strlit("error:");
        reveal_strlit("! ");
        reveal_strlit("l.");
    }
    if has_prefix(&t, &chars_of("error:")) {
        let rest = slice_of(&t, 6, t.len());
        assert(rest@ =~= t@.skip(6));
        let e = error_entry(&rest);
        push_compile_error(errors, e);
    } else if has_prefix(&t, &chars_of("! ")) {
        let msg = slice_of(&t, 2, t.len());
        assert(msg@ =~= t@.skip(2));
        push_compile_error(
            errors,
            CompileError { file: String::new(), line: 0, message: string_of(msg.as_slice()) },
        );
    } else if has_prefix(&t, &chars_of("l.")) {
        let rest = slice_of(&t, 2, t.len());
        assert(rest@ =~= t@.skip(2));
        let digits = leading_digits_chars(&rest);
        match parse_usize_chars(&digits) {
            Some(n) => {
                let len = errors.len();
                if len > 0 {
                    let ghost before = compile_errors_view(errors@);
                    let last = errors.pop().unwrap();
                    let updated = CompileError { file: last.file, line: n, message: last.message };
                    errors.push(updated);
                    assert(compile_errors_view(errors@) =~= before.update(
                        before.len() - 1,
                        CompileErrorView { line: n as nat, ..before.last() },
                    ));
                }
            },
            None => {},
        }
    }
}

/// Parse engine output into structured errors.
pub fn parse_errors(raw: &str) -> (r: Vec<CompileError>)
    ensures
        compile_errors_view(r@) == errors_of(lines(raw@)),
{
    let c = chars_of(raw);
    let ls = split_lines(&c);
    let mut errors: Vec<CompileError> = Vec::new();
    assert(compile_errors_view(errors@) =~= Seq::<CompileErrorView>::empty());
    let mut i: usize = 0;
    while i < ls.len()
        invariant
            i <= ls@.len(),
            compile_errors_view(errors@) == errors_of(seqs_of(ls@).take(i as int)),
        decreases ls@.len() - i,
    {
        assert(seqs_of(ls@).take(i + 1).drop_last() =~= seqs_of(ls@).take(i as int));
        error_step_exec(&mut errors, &ls[i]);
        i = i + 1;
    }
    assert(seqs_of(ls@).take(i as int) =~= seqs_of(ls@));
    errors
}

/// The report lines of the errors `es`: `ERROR [file:line]`, the message
/// indented by two spaces, and a blank line, for each.
pub open spec fn error_report(es: Seq<CompileErrorView>) -> Seq<char>
    decreases es.len(),
{
    if es.len() == 0 {
        seq![]
    } else {
        let e = es.last();
        error_report(es.drop_last()) + "ERROR ["@ + e.file + ":"@ + decimal(e.line) + "]\n  "@
            + e.message + "\n\n"@
    }
}

/// The message of a failed compilation: the raw output when no error could be
/// read from it, else the report of the errors.
pub open spec fn failure_message(raw: Seq<char>) -> Seq<char> {
    let es = errors_of(lines(raw));
    if es.len() == 0 {
        "Compilation failed:\n"@ + trim(raw)
    } else {
        trim("Compilation failed:\n\n"@ + error_report(es))
    }
}

/// The message to report for a failed compilation, given the engine's output.
pub fn compile_failure_message(raw: &str) -> (r: String)
    ensures
        r@ == failure_message(raw@),
{
    let errors = parse_errors(raw);
    if errors.len() == 0 {
        let t = trim_chars(&chars_of(raw));
        let mut m = chars_of("Compilation failed:\n");
        append_chars(&mut m, &t);
        return string_of(m.as_slice());
    }
    let mut m = chars_of("Compilation failed:\n\n");
    let ghost head = m@;
    let mut i: usize = 0;
    while i < errors.len()
        invariant
            i <= errors@.len(),
            m@ == head + error_report(compile_errors_view(errors@).take(i as int)),
        decreases errors@.len() - i,
    {
        let ghost es = compile_errors_view(errors@).take(i + 1);
        assert(es.drop_last() =~= compile_errors_view(errors@).take(i as int));
        let e = &errors[i];
        append_chars(&mut m, &chars_of("ERROR ["));
        append_chars(&mut m, &chars_of(e.file.as_str()));
        append_chars(&mut m, &chars_of(":"));
        append_chars(&mut m, &decimal_text(e.line as u64));
        append_chars(&mut m, &chars_of("]\n  "));
        append_chars(&mut m, &chars_of(e.message.as_str()));
        append_chars(&mut m, &chars_of("\n\n"));
        i = i + 1;
        assert(m@ =~= head + error_report(compile_errors_view(errors@).take(i as int)));
    }
    assert(compile_errors_view(errors@).take(i as int) =~= compile_errors_view(errors@));
    let t = trim_chars(&m);
    string_of(t.as_slice())
}

/// The last `c` of `a`, then `c`, then `b` is the one after `a` when `b`
/// holds none.
proof fn lemma_last_index_at(a: Seq<char>, c: char, b: Seq<char>)
    requires
        forall|k: int| 0 <= k < b.len() ==> b[k] != c,
    ensures
        last_index_of(a + seq![c] + b, c) == Some(a.len() as int),
    decreases b.len(),
{
    let s = a + seq![c] + b;
    if b.len() == 0 {
        assert(s.last() == c);
    } else {
        assert(s.last() == b.last());
        assert(s.drop_last() =~= a + seq![c] + b.drop_last());
        lemma_last_index_at(a, c, b.drop_last());
    }
}

/// An `error:` line that names a file (with no `:` in its name), a line
/// number and a message gives an error with that file, that line and that
/// message, whatever the message holds, colons included.
pub proof fn lemma_located_error(
    errs: Seq<CompileErrorView>,
    f: Seq<char>,
    n: usize,
    m: Seq<char>,
)
    requires
        forall|k: int| 0 <= k < f.len() ==> f[k] != ':',
        is_trimmed(f),
        m.len() > 0,
        is_trimmed(m),
    ensures
        error_step(errs, "error: "@ + f + ":"@ + decimal(n as nat) + ": "@ + m) == errs.push(
            CompileErrorView { file: f, line: n as nat, message: m },
        ),
{
    reveal_strlit("error: ");
    reveal_strlit("error:");
    reveal_strlit(":");
    reveal_strlit(": ");
    let dec = decimal(n as nat);
    lemma_decimal(n as nat);
    let x = f + ":"@ + dec + ": "@ + m;
    let line = "error: "@ + f + ":"@ + dec + ": "@ + m;
    assert(line =~= "error:"@ + (seq![' '] + x));
    // The line is already trimmed.
    assert(x[0] != ' ' && !is_ws(x[0])) by {
        if f.len() > 0 {
            assert(x[0] == f[0]);
        } else {
            assert(x[0] == ':');
        }
    }
    assert(x.last() == m.last());
    assert(is_trimmed(x));
    assert(line.last() == m.last());
    assert(line[0] == 'e');
    assert(is_trimmed(line));
    lemma_trim_fixed(line);
    assert(starts_with(line, "error:"@)) by {
        assert(line.subrange(0, 6) =~= "error:"@);
    }
    assert(line.skip(6) =~= seq![' '] + x);
    assert(is_ws(' '));
    lemma_trim_after_ws(seq![' '], x);
    assert(trim(line.skip(6)) == x);
    // The first ": " is the one after the line number.
    let i: int = f.len() + 1int + dec.len();
    assert(occurs_at(x, ": "@, i)) by {
        assert(x.subrange(i, i + 2) =~= ": "@);
    }
    lemma_find_from(x, ": "@, 0);
    let k = find(x, ": "@)->Some_0;
    assert(k == i) by {
        if k < i {
            assert(x.subrange(k, k + 2)[0] == x[k]);
            assert(x.subrange(k, k + 2)[1] == x[k + 1]);
            if k < f.len() {
                assert(x[k] == f[k]);
            } else if k == f.len() {
                assert(x[k + 1] == dec[0]);
            } else {
                assert(x[k] == dec[k - f.len() - 1]);
            }
        }
    }
    let loc = x.take(i);
    assert(loc =~= f + seq![':'] + dec);
    lemma_last_index_at(f, ':', dec);
    assert(loc.skip(f.len() + 1int) =~= dec);
    assert(unsigned_digits(dec) == dec) by {
        assert(is_digit(dec[0]));
    }
    assert(parse_usize(dec) == Some(n));
    assert(loc.take(f.len() as int) =~= f);
    lemma_trim_fixed(f);
    assert(x.skip(i + 2) =~= m);
    lemma_trim_fixed(m);
}

/// A line `! message` gives an error with that message and no location.
pub proof fn lemma_bang_error(errs: Seq<CompileErrorView>, m: Seq<char>)
    requires
        m.len() > 0,
        is_trimmed(m),
    ensures
        error_step(errs, "! "@ + m) == errs.push(CompileErrorView { file: seq![], line: 0, message: m }),
{
    reveal_strlit("! ");
    reveal_strlit("error:");
    let line = "! "@ + m;
    assert(line[0] == '!');
    assert(line.last() == m.last());
    lemma_trim_fixed(line);
    assert(starts_with(line, "! "@)) by {
        assert(line.subrange(0, 2) =~= "! "@);
    }
    assert(!starts_with(line, "error:"@)) by {
        if starts_with(line, "error:"@) {
            assert(line.subrange(0, 6)[0] == line[0]);
        }
    }
    assert(line.skip(2) =~= m);
}

/// An `error:` line whose message holds no `:` gives an error with that
/// message and no location.
pub proof fn lemma_unlocated_error(errs: Seq<CompileErrorView>, m: Seq<char>)
    requires
        m.len() > 0,
        is_trimmed(m),
        forall|k: int| 0 <= k < m.len() ==> m[k] != ':',
    ensures
        error_step(errs, "error: "@ + m) == errs.push(CompileErrorView { file: seq![], line: 0, message: m }),
{
    reveal_strlit("error: ");
    reveal_strlit("error:");
    reveal_strlit(": ");
    let line = "error: "@ + m;
    assert(line[0] == 'e');
    assert(line.last() == m.last());
    lemma_trim_fixed(line);
    assert(starts_with(line, "error:"@)) by {
        assert(line.subrange(0, 6) =~= "error:"@);
    }
    assert(line.skip(6) =~= seq![' '] + m);
    assert(is_ws(' '));
    lemma_trim_after_ws(seq![' '], m);
    lemma_find_from(m, ": "@, 0);
    if let Some(k) = find(m, ": "@) {
        assert(m.subrange(k, k + 2)[0] == m[k]);
    }
}

/// A line `l.<number>` after an error sets that error's line number and
/// changes nothing else; before any error it changes nothing.
pub proof fn lemma_line_marker(errs: Seq<CompileErrorView>, n: usize, rest: Seq<char>)
    requires
        rest.len() > 0 ==> !is_digit(rest[0]) && !is_ws(rest.last()),
    ensures
        error_step(errs, "l."@ + decimal(n as nat) + rest) == if errs.len() > 0 {
            errs.update(errs.len() - 1, CompileErrorView { line: n as nat, ..errs.last() })
        } else {
            errs
        },
{
    reveal_strlit("l.");
    reveal_strlit("error:");
    reveal_strlit("! ");
    let dec = decimal(n as nat);
    lemma_decimal(n as nat);
    let line = "l."@ + dec + rest;
    assert(line[0] == 'l');
    assert(!is_ws(line.last())) by {
        if rest.len() > 0 {
            assert(line.last() == rest.last());
        } else {
            assert(line.last() == dec.last());
            assert(is_digit(dec[dec.len() - 1]));
        }
    }
    lemma_trim_fixed(line);
    assert(starts_with(line, "l."@)) by {
        assert(line.subrange(0, 2) =~= "l."@);
    }
    assert(!starts_with(line, "error:"@)) by {
        if starts_with(line, "error:"@) {
            assert(line.subrange(0, 6)[0] == line[0]);
        }
    }
    assert(!starts_with(line, "! "@)) by {
        if starts_with(line, "! "@) {
            assert(line.subrange(0, 2)[0] == line[0]);
        }
    }
    assert(line.skip(2) =~= dec + rest);
    lemma_leading_digits_of(dec, rest);
    assert(unsigned_digits(dec) == dec) by {
        assert(is_digit(dec[0]));
    }
}

/// The leading digits of a run of digits followed by a non-digit are the run.
proof fn lemma_leading_digits_of(d: Seq<char>, rest: Seq<char>)
    requires
        forall|k: int| 0 <= k < d.len() ==> is_digit(#[trigger] d[k]),
        rest.len() > 0 ==> !is_digit(rest[0]),
    ensures
        leading_digits(d + rest) == d,
    decreases d.len(),
{
    if d.len() == 0 {
        assert(d + rest =~= rest);
    } else {
        assert((d + rest).drop_first() =~= d.drop_first() + rest);
        assert((d + rest)[0] == d[0]);
        lemma_leading_digits_of(d.drop_first(), rest);
        assert(seq![d[0]] + d.drop_first() =~= d);
    }
}

} // verus!
