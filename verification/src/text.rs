//! Character-sequence utilities used across the library.
use vstd::prelude::*;
use vstd::std_specs::iter::IteratorSpec;

verus! {

broadcast use vstd::string::group_string_axioms;

/// Calls std's `String::push`; the contract claims that the text afterwards
/// is the text before followed by `c`, as its documentation says.
#[verifier::external_body]
fn push_char(s: &mut String, c: char)
    ensures
        final(s)@ == old(s)@.push(c),
{
    s.push(c);
}

/// The characters of a string slice, in order.
pub fn chars_of(s: &str) -> (v: Vec<char>)
    ensures
        v@ == s@,
{
    let mut v: Vec<char> = Vec::new();
    for c in it: s.chars()
        invariant
            v@ == it.seq().take(it.index() as int),
    {
        v.push(c);
    }
    assert(v@ == s@);
    v
}

/// A `String` holding exactly the given characters.
pub fn string_of(v: &[char]) -> (s: String)
    ensures
        s@ == v@,
{
    let mut s = String::new();
    let mut i: usize = 0;
    while i < v.len()
        invariant
            i <= v@.len(),
            s@ == v@.subrange(0, i as int),
        decreases v@.len() - i,
    {
        push_char(&mut s, v[i]);
        i = i + 1;
        assert(s@ == v@.subrange(0, i as int));
    }
    s
}

/// Unicode `White_Space`, the set that `char::is_whitespace` tests.
pub open spec fn is_ws(c: char) -> bool {
    let u = c as u32;
    ||| 0x9 <= u <= 0xd
    ||| u == 0x20
    ||| u == 0x85
    ||| u == 0xa0
    ||| u == 0x1680
    ||| 0x2000 <= u <= 0x200a
    ||| u == 0x2028
    ||| u == 0x2029
    ||| u == 0x202f
    ||| u == 0x205f
    ||| u == 0x3000
}

/// Tests whether `c` is Unicode whitespace.
pub fn is_whitespace(c: char) -> (r: bool)
    ensures
        r == is_ws(c),
{
    let u = c as u32;
    (0x9 <= u && u <= 0xd) || u == 0x20 || u == 0x85 || u == 0xa0 || u == 0x1680 || (0x2000 <= u
        && u <= 0x200a) || u == 0x2028 || u == 0x2029 || u == 0x202f || u == 0x205f || u == 0x3000
}

/// `s` with its leading whitespace removed.
pub open spec fn trim_start(s: Seq<char>) -> Seq<char>
    decreases s.len(),
{
    if s.len() > 0 && is_ws(s[0]) {
        trim_start(s.drop_first())
    } else {
        s
    }
}

/// `s` with its trailing whitespace removed.
pub open spec fn trim_end(s: Seq<char>) -> Seq<char>
    decreases s.len(),
{
    if s.len() > 0 && is_ws(s.last()) {
        trim_end(s.drop_last())
    } else {
        s
    }
}

/// `s` with leading and trailing whitespace removed (`str::trim`).
pub open spec fn trim(s: Seq<char>) -> Seq<char> {
    trim_end(trim_start(s))
}

/// `p` is a prefix of `s`.
pub open spec fn starts_with(s: Seq<char>, p: Seq<char>) -> bool {
    p.len() <= s.len() && s.subrange(0, p.len() as int) == p
}

/// `p` occurs in `s` at index `i`.
pub open spec fn occurs_at(s: Seq<char>, p: Seq<char>, i: int) -> bool {
    0 <= i && i + p.len() <= s.len() && s.subrange(i, i + p.len()) == p
}

/// The first index at or after `i` where `p` occurs in `s`.
pub open spec fn find_from(s: Seq<char>, p: Seq<char>, i: int) -> Option<int>
    decreases s.len() + 1 - i,
{
    if i < 0 || i + p.len() > s.len() {
        None
    } else if occurs_at(s, p, i) {
        Some(i)
    } else {
        find_from(s, p, i + 1)
    }
}

/// The first index where `p` occurs in `s` (`str::find`).
pub open spec fn find(s: Seq<char>, p: Seq<char>) -> Option<int> {
    find_from(s, p, 0)
}

/// `p` occurs somewhere in `s` (`str::contains`).
pub open spec fn contains(s: Seq<char>, p: Seq<char>) -> bool {
    find(s, p) is Some
}

/// What `find_from` returns: the least occurrence at or after `i`.
pub proof fn lemma_find_from(s: Seq<char>, p: Seq<char>, i: int)
    requires
        0 <= i,
    ensures
        find_from(s, p, i) matches Some(k) ==> i <= k && occurs_at(s, p, k) && forall|j: int|
            i <= j < k ==> !occurs_at(s, p, j),
        find_from(s, p, i) is None ==> forall|j: int| i <= j ==> !occurs_at(s, p, j),
    decreases s.len() + 1 - i,
{
    if i + p.len() > s.len() {
    } else if occurs_at(s, p, i) {
    } else {
        lemma_find_from(s, p, i + 1);
    }
}

/// The first occurrence of the character `c` in `t` is at `j`.
pub proof fn lemma_find_first_char(t: Seq<char>, c: char, j: int)
    requires
        0 <= j < t.len(),
        t[j] == c,
        forall|i: int| 0 <= i < j ==> t[i] != c,
    ensures
        find(t, seq![c]) == Some(j),
{
    lemma_find_from(t, seq![c], 0);
    assert(t.subrange(j, j + 1) =~= seq![c]);
    assert(occurs_at(t, seq![c], j));
    if let Some(k) = find_from(t, seq![c], 0) {
        if k < j {
            assert(t.subrange(k, k + 1)[0] == t[k]);
        }
    }
}

/// A character that `t` does not hold is not found.
pub proof fn lemma_find_no_char(t: Seq<char>, c: char)
    requires
        forall|i: int| 0 <= i < t.len() ==> t[i] != c,
    ensures
        find(t, seq![c]) is None,
{
    lemma_find_from(t, seq![c], 0);
    if let Some(k) = find_from(t, seq![c], 0) {
        assert(t.subrange(k, k + 1)[0] == t[k]);
    }
}

/// Exec `starts_with` at an offset: `p` occurs in `s` at `i`.
pub fn matches_at(s: &Vec<char>, p: &Vec<char>, i: usize) -> (r: bool)
    ensures
        r == occurs_at(s@, p@, i as int),
{
    if i > s.len() || p.len() > s.len() - i {
        return false;
    }
    let mut j: usize = 0;
    while j < p.len()
        invariant
            i + p@.len() <= s@.len(),
            s@.len() == s.len(),
            p@.len() == p.len(),
            j <= p@.len(),
            forall|k: int| 0 <= k < j ==> s@[i + k] == p@[k],
        decreases p@.len() - j,
    {
        if s[i + j] != p[j] {
            assert(s@.subrange(i as int, i + p@.len())[j as int] != p@[j as int]);
            return false;
        }
        j = j + 1;
    }
    assert(s@.subrange(i as int, i + p@.len()) =~= p@);
    true
}

/// Exec `starts_with`.
pub fn has_prefix(s: &Vec<char>, p: &Vec<char>) -> (r: bool)
    ensures
        r == starts_with(s@, p@),
{
    matches_at(s, p, 0)
}

/// Exec `find_from`.
pub fn find_at(s: &Vec<char>, p: &Vec<char>, from: usize) -> (r: Option<usize>)
    ensures
        r matches Some(k) ==> find_from(s@, p@, from as int) == Some(k as int),
        r is None ==> find_from(s@, p@, from as int) is None,
{
    let mut i = from;
    if i > s.len() || p.len() > s.len() - i {
        return None;
    }
    while p.len() <= s.len() - i
        invariant
            from <= i <= s@.len(),
            p@.len() <= s@.len(),
            find_from(s@, p@, from as int) == find_from(s@, p@, i as int),
        decreases s@.len() - i,
    {
        if matches_at(s, p, i) {
            return Some(i);
        }
        if i == s.len() {
            assert(s@.subrange(i as int, i as int) =~= p@);
        }
        assert(find_from(s@, p@, i as int) == find_from(s@, p@, i + 1));
        i = i + 1;
    }
    assert(i + p@.len() > s@.len());
    None
}

/// The characters of `s` from `a` up to `b`.
pub fn slice_of(s: &Vec<char>, a: usize, b: usize) -> (r: Vec<char>)
    requires
        a <= b <= s@.len(),
    ensures
        r@ == s@.subrange(a as int, b as int),
{
    let mut r: Vec<char> = Vec::new();
    let mut i = a;
    while i < b
        invariant
            a <= i <= b <= s@.len(),
            r@ == s@.subrange(a as int, i as int),
        decreases b - i,
    {
        r.push(s[i]);
        i = i + 1;
        assert(r@ =~= s@.subrange(a as int, i as int));
    }
    r
}

proof fn lemma_trim_start(s: Seq<char>, a: int)
    requires
        0 <= a <= s.len(),
        forall|k: int| 0 <= k < a ==> is_ws(#[trigger] s[k]),
        a == s.len() || !is_ws(s[a]),
    ensures
        trim_start(s) == s.skip(a),
    decreases a,
{
    if a == 0 {
        assert(s.skip(0) =~= s);
    } else {
        assert(is_ws(s[0]));
        let t = s.drop_first();
        assert forall|k: int| 0 <= k < a - 1 implies is_ws(#[trigger] t[k]) by {
            assert(t[k] == s[k + 1]);
        }
        lemma_trim_start(t, a - 1);
        assert(t.skip(a - 1) =~= s.skip(a));
    }
}

proof fn lemma_trim_end(s: Seq<char>, b: int)
    requires
        0 <= b <= s.len(),
        forall|k: int| b <= k < s.len() ==> is_ws(#[trigger] s[k]),
        b == 0 || !is_ws(s[b - 1]),
    ensures
        trim_end(s) == s.take(b),
    decreases s.len() - b,
{
    if b == s.len() {
        assert(s.take(b) =~= s);
    } else {
        assert(is_ws(s.last()));
        let t = s.drop_last();
        assert forall|k: int| b <= k < t.len() implies is_ws(#[trigger] t[k]) by {
            assert(t[k] == s[k]);
        }
        lemma_trim_end(t, b);
        assert(t.take(b) =~= s.take(b));
    }
}

/// Exec `trim`: a copy of `s` without leading and trailing whitespace.
pub fn trim_chars(s: &Vec<char>) -> (r: Vec<char>)
    ensures
        r@ == trim(s@),
{
    let mut a: usize = 0;
    while a < s.len() && is_whitespace(s[a])
        invariant
            a <= s@.len(),
            forall|k: int| 0 <= k < a ==> is_ws(#[trigger] s@[k]),
        decreases s@.len() - a,
    {
        a = a + 1;
    }
    proof {
        lemma_trim_start(s@, a as int);
    }
    let ghost t = s@.skip(a as int);
    let mut b: usize = s.len();
    while b > a && is_whitespace(s[b - 1])
        invariant
            a <= b <= s@.len(),
            t == s@.skip(a as int),
            forall|k: int| b <= k < s@.len() ==> is_ws(#[trigger] s@[k]),
        decreases b,
    {
        b = b - 1;
    }
    proof {
        assert forall|k: int| b - a <= k < t.len() implies is_ws(#[trigger] t[k]) by {
            assert(t[k] == s@[k + a]);
        }
        if b > a {
            assert(t[b - a - 1] == s@[b - 1]);
        }
        lemma_trim_end(t, b - a);
        assert(t.take(b - a) =~= s@.subrange(a as int, b as int));
    }
    slice_of(s, a, b)
}

/// `cur` without one trailing carriage return.
pub open spec fn strip_cr(cur: Seq<char>) -> Seq<char> {
    if cur.len() > 0 && cur.last() == '\r' {
        cur.drop_last()
    } else {
        cur
    }
}

/// The character sequences held by a sequence of character vectors.
pub open spec fn seqs_of(v: Seq<Vec<char>>) -> Seq<Seq<char>> {
    Seq::new(v.len(), |i: int| v[i]@)
}

/// The lines completed so far and the line in progress after reading `s`.
pub open spec fn lines_state(s: Seq<char>) -> (Seq<Seq<char>>, Seq<char>)
    decreases s.len(),
{
    if s.len() == 0 {
        (seq![], seq![])
    } else {
        let (done, cur) = lines_state(s.drop_last());
        if s.last() == '\n' {
            (done.push(strip_cr(cur)), seq![])
        } else {
            (done, cur.push(s.last()))
        }
    }
}

/// The lines of `s` as `str::lines` yields them: split at `\n`, a `\r` just
/// before a `\n` dropped, and no empty last line after a final `\n`.
pub open spec fn lines(s: Seq<char>) -> Seq<Seq<char>> {
    let (done, cur) = lines_state(s);
    if cur.len() > 0 {
        done.push(cur)
    } else {
        done
    }
}

/// Exec `lines`.
pub fn split_lines(s: &Vec<char>) -> (r: Vec<Vec<char>>)
    ensures
        seqs_of(r@) == lines(s@),
{
    let mut done: Vec<Vec<char>> = Vec::new();
    let mut cur: Vec<char> = Vec::new();
    let mut i: usize = 0;
    while i < s.len()
        invariant
            i <= s@.len(),
            (seqs_of(done@), cur@) == lines_state(s@.take(i as int)),
        decreases s@.len() - i,
    {
        let c = s[i];
        assert(s@.take(i + 1).drop_last() =~= s@.take(i as int));
        if c == '\n' {
            if cur.len() > 0 && cur[cur.len() - 1] == '\r' {
                cur.pop();
            }
            let ghost before = seqs_of(done@);
            let ghost cv = cur@;
            done.push(cur);
            assert(seqs_of(done@)[before.len() as int] == cv);
            assert(seqs_of(done@) =~= before.push(cv));
            cur = Vec::new();
        } else {
            cur.push(c);
        }
        i = i + 1;
    }
    assert(s@.take(i as int) =~= s@);
    if cur.len() > 0 {
        let ghost before = seqs_of(done@);
        let ghost cv = cur@;
        done.push(cur);
        assert(seqs_of(done@)[before.len() as int] == cv);
        assert(seqs_of(done@) =~= before.push(cv));
    }
    done
}

/// The lines `ls` joined with `sep` between consecutive lines.
pub open spec fn join(ls: Seq<Seq<char>>, sep: Seq<char>) -> Seq<char>
    decreases ls.len(),
{
    if ls.len() == 0 {
        seq![]
    } else if ls.len() == 1 {
        ls[0]
    } else {
        join(ls.drop_last(), sep) + sep + ls.last()
    }
}

/// Appends all of `t` to `r`.
pub fn append_chars(r: &mut Vec<char>, t: &Vec<char>)
    ensures
        final(r)@ == old(r)@ + t@,
{
    let mut i: usize = 0;
    while i < t.len()
        invariant
            i <= t@.len(),
            r@ == old(r)@ + t@.take(i as int),
        decreases t@.len() - i,
    {
        r.push(t[i]);
        i = i + 1;
        assert(r@ =~= old(r)@ + t@.take(i as int));
    }
    assert(t@.take(i as int) =~= t@);
}

/// Exec `join` with a one-character separator.
pub fn join_lines(ls: &Vec<Vec<char>>, sep: char) -> (r: Vec<char>)
    ensures
        r@ == join(seqs_of(ls@), seq![sep]),
{
    let mut r: Vec<char> = Vec::new();
    let mut i: usize = 0;
    while i < ls.len()
        invariant
            i <= ls@.len(),
            r@ == join(seqs_of(ls@).take(i as int), seq![sep]),
        decreases ls@.len() - i,
    {
        let ghost prev = seqs_of(ls@).take(i as int);
        let ghost next = seqs_of(ls@).take(i + 1);
        assert(next.drop_last() =~= prev);
        assert(next.last() == ls@[i as int]@);
        if i > 0 {
            r.push(sep);
        } else {
            assert(prev.len() == 0);
        }
        append_chars(&mut r, &ls[i]);
        i = i + 1;
    }
    assert(seqs_of(ls@).take(i as int) =~= seqs_of(ls@));
    r
}

/// Every occurrence of `f` in `s`, left to right and not overlapping,
/// replaced by `t` (`str::replace` for a non-empty pattern).
pub open spec fn replace(s: Seq<char>, f: Seq<char>, t: Seq<char>) -> Seq<char>
    decreases s.len(),
{
    if f.len() == 0 {
        s
    } else {
        match find(s, f) {
            None => s,
            Some(k) => {
                proof {
                    lemma_find_from(s, f, 0);
                }
                s.take(k) + t + replace(s.skip(k + f.len()), f, t)
            },
        }
    }
}

/// Searching a suffix of `s` is searching `s` from the suffix's start.
pub proof fn lemma_find_skip(s: Seq<char>, f: Seq<char>, pos: int, i: int)
    requires
        0 <= pos <= s.len(),
        0 <= i,
    ensures
        match find_from(s, f, pos + i) {
            Some(k) => find_from(s.skip(pos), f, i) == Some(k - pos),
            None => find_from(s.skip(pos), f, i) is None,
        },
    decreases s.len() + 1 - (pos + i),
{
    let u = s.skip(pos);
    if i + f.len() > u.len() {
    } else {
        assert(u.subrange(i, i + f.len()) =~= s.subrange(pos + i, pos + i + f.len()));
        if !occurs_at(s, f, pos + i) {
            lemma_find_skip(s, f, pos, i + 1);
        }
    }
}

/// Exec `replace` for a non-empty pattern.
pub fn replace_chars(s: &Vec<char>, f: &Vec<char>, t: &Vec<char>) -> (r: Vec<char>)
    requires
        f@.len() > 0,
    ensures
        r@ == replace(s@, f@, t@),
{
    let mut r: Vec<char> = Vec::new();
    let mut pos: usize = 0;
    assert(s@.skip(0) =~= s@);
    loop
        invariant
            f@.len() > 0,
            pos <= s@.len(),
            r@ + replace(s@.skip(pos as int), f@, t@) == replace(s@, f@, t@),
        decreases s@.len() - pos,
    {
        let ghost u = s@.skip(pos as int);
        proof {
            lemma_find_skip(s@, f@, pos as int, 0);
            lemma_find_from(s@, f@, pos as int);
        }
        match find_at(s, f, pos) {
            None => {
                let rest = slice_of(s, pos, s.len());
                assert(rest@ =~= u);
                append_chars(&mut r, &rest);
                return r;
            },
            Some(k) => {
                assert(occurs_at(s@, f@, k as int));
                let n = s.len();
                assert(k + f@.len() <= n);
                let before = slice_of(s, pos, k);
                assert(before@ =~= u.take(k - pos));
                assert(u.skip(k - pos + f@.len()) =~= s@.skip(k + f@.len()));
                let ghost r0 = r@;
                append_chars(&mut r, &before);
                append_chars(&mut r, t);
                pos = k + f.len();
                assert(r0 + replace(u, f@, t@) =~= r@ + replace(s@.skip(pos as int), f@, t@));
            },
        }
    }
}

/// The characters of each string in `ss`.
pub open spec fn views_of(ss: Seq<&str>) -> Seq<Seq<char>> {
    Seq::new(ss.len(), |i: int| ss[i]@)
}

/// Exec `views_of`: the characters of each string slice, in order.
pub fn chars_of_all(ss: &[&str]) -> (r: Vec<Vec<char>>)
    ensures
        seqs_of(r@) == views_of(ss@),
{
    let mut r: Vec<Vec<char>> = Vec::new();
    let mut i: usize = 0;
    while i < ss.len()
        invariant
            i <= ss@.len(),
            r@.len() == i,
            seqs_of(r@) == views_of(ss@.take(i as int)),
        decreases ss@.len() - i,
    {
        let si: &str = ss[i];
        let v = chars_of(si);
        assert(v@ == ss@[i as int]@);
        let ghost before = seqs_of(r@);
        let ghost cv = v@;
        r.push(v);
        i = i + 1;
        assert(seqs_of(r@)[i - 1] == ss@[i - 1]@);
        assert forall|j: int| 0 <= j < i implies seqs_of(r@)[j] == views_of(
            ss@.take(i as int),
        )[j] by {
            if j < i - 1 {
                assert(seqs_of(r@)[j] == before[j]);
            }
        }
        assert(seqs_of(r@) =~= views_of(ss@.take(i as int)));
    }
    assert(ss@.take(i as int) =~= ss@);
    r
}

/// `x` is one of the sequences in `ps`.
pub open spec fn is_one_of(x: Seq<char>, ps: Seq<Seq<char>>) -> bool {
    exists|i: int| 0 <= i < ps.len() && ps[i] == x
}

/// Some sequence in `ps` is a prefix of `x`.
pub open spec fn starts_with_any(x: Seq<char>, ps: Seq<Seq<char>>) -> bool {
    exists|i: int| 0 <= i < ps.len() && starts_with(x, #[trigger] ps[i])
}

/// Exec `starts_with_any`.
pub fn has_any_prefix(x: &Vec<char>, ps: &Vec<Vec<char>>) -> (r: bool)
    ensures
        r == starts_with_any(x@, seqs_of(ps@)),
{
    let mut i: usize = 0;
    while i < ps.len()
        invariant
            i <= ps@.len(),
            forall|j: int| 0 <= j < i ==> !starts_with(x@, #[trigger] seqs_of(ps@)[j]),
        decreases ps@.len() - i,
    {
        if has_prefix(x, &ps[i]) {
            assert(starts_with(x@, seqs_of(ps@)[i as int]));
            return true;
        }
        i = i + 1;
    }
    false
}

/// Exec `is_one_of`.
pub fn is_member(x: &Vec<char>, ps: &Vec<Vec<char>>) -> (r: bool)
    ensures
        r == is_one_of(x@, seqs_of(ps@)),
{
    let mut i: usize = 0;
    while i < ps.len()
        invariant
            i <= ps@.len(),
            forall|j: int| 0 <= j < i ==> seqs_of(ps@)[j] != x@,
        decreases ps@.len() - i,
    {
        if same_chars(x, &ps[i]) {
            assert(seqs_of(ps@)[i as int] == x@);
            return true;
        }
        i = i + 1;
    }
    false
}

/// Exec equality of character sequences.
pub fn same_chars(a: &Vec<char>, b: &Vec<char>) -> (r: bool)
    ensures
        r == (a@ == b@),
{
    if a.len() != b.len() {
        return false;
    }
    let r = matches_at(a, b, 0);
    assert(a@.subrange(0, b@.len() as int) =~= a@);
    r
}

/// The characters of an optional string.
pub open spec fn opt_view(o: Option<String>) -> Option<Seq<char>> {
    match o {
        Some(s) => Some(s@),
        None => None,
    }
}

/// The characters held by a sequence of strings.
pub open spec fn strings_view(v: Seq<String>) -> Seq<Seq<char>> {
    Seq::new(v.len(), |i: int| v[i]@)
}

/// Exec test that `a` holds exactly the characters of `lit`.
pub fn eq_lit(a: &Vec<char>, lit: &str) -> (r: bool)
    ensures
        r == (a@ == lit@),
{
    let b = chars_of(lit);
    same_chars(a, &b)
}

/// Exec equality of two string slices.
pub fn str_eq(a: &str, b: &str) -> (r: bool)
    ensures
        r == (a@ == b@),
{
    let x = chars_of(a);
    let y = chars_of(b);
    same_chars(&x, &y)
}

/// The text `a` followed by the text `b`.
pub fn concat_str(a: &str, b: &str) -> (r: String)
    ensures
        r@ == a@ + b@,
{
    let mut x = chars_of(a);
    let y = chars_of(b);
    append_chars(&mut x, &y);
    string_of(x.as_slice())
}

/// A `String` for each character vector, in order.
pub fn strings_of(v: &Vec<Vec<char>>) -> (r: Vec<String>)
    ensures
        strings_view(r@) == seqs_of(v@),
{
    let mut r: Vec<String> = Vec::new();
    let mut i: usize = 0;
    while i < v.len()
        invariant
            i <= v@.len(),
            strings_view(r@) == seqs_of(v@).take(i as int),
        decreases v@.len() - i,
    {
        let ghost before = strings_view(r@);
        let s = string_of(v[i].as_slice());
        assert(s@ == seqs_of(v@)[i as int]);
        r.push(s);
        assert(strings_view(r@) =~= before.push(s@));
        i = i + 1;
        assert(strings_view(r@) =~= seqs_of(v@).take(i as int));
    }
    assert(seqs_of(v@).take(i as int) =~= seqs_of(v@));
    r
}

/// `s` holds no newline.
pub open spec fn no_newline(s: Seq<char>) -> bool {
    forall|k: int| 0 <= k < s.len() ==> #[trigger] s[k] != '\n'
}

/// `s` holds no newline and does not end with a carriage return: a line that
/// reads back as itself when a newline follows it.
pub open spec fn clean_line(s: Seq<char>) -> bool {
    no_newline(s) && (s.len() > 0 ==> s.last() != '\r')
}

/// Trimming a text without newlines gives a clean line.
pub proof fn lemma_trim_clean(s: Seq<char>)
    requires
        no_newline(s),
    ensures
        clean_line(trim(s)),
{
    lemma_trim_start_no_newline(s);
    lemma_trim_end_no_newline(trim_start(s));
    lemma_trim_shape(s);
    assert(is_ws('\r'));
}

proof fn lemma_trim_start_no_newline(s: Seq<char>)
    requires
        no_newline(s),
    ensures
        no_newline(trim_start(s)),
    decreases s.len(),
{
    if s.len() > 0 && is_ws(s[0]) {
        let t = s.drop_first();
        assert forall|k: int| 0 <= k < t.len() implies #[trigger] t[k] != '\n' by {
            assert(t[k] == s[k + 1]);
        }
        lemma_trim_start_no_newline(t);
    }
}

proof fn lemma_trim_end_no_newline(s: Seq<char>)
    requires
        no_newline(s),
    ensures
        no_newline(trim_end(s)),
    decreases s.len(),
{
    if s.len() > 0 && is_ws(s.last()) {
        let t = s.drop_last();
        assert forall|k: int| 0 <= k < t.len() implies #[trigger] t[k] != '\n' by {
            assert(t[k] == s[k]);
        }
        lemma_trim_end_no_newline(t);
    }
}

/// `t` neither starts nor ends with whitespace.
pub open spec fn is_trimmed(t: Seq<char>) -> bool {
    t.len() == 0 || (!is_ws(t[0]) && !is_ws(t.last()))
}

proof fn lemma_trim_start_shape(s: Seq<char>)
    ensures
        trim_start(s).len() == 0 || !is_ws(trim_start(s)[0]),
    decreases s.len(),
{
    if s.len() > 0 && is_ws(s[0]) {
        lemma_trim_start_shape(s.drop_first());
    }
}

proof fn lemma_trim_end_shape(s: Seq<char>)
    ensures
        trim_end(s).len() == 0 || (!is_ws(trim_end(s).last()) && trim_end(s)[0] == s[0]),
    decreases s.len(),
{
    if s.len() > 0 && is_ws(s.last()) {
        lemma_trim_end_shape(s.drop_last());
        if trim_end(s).len() > 0 {
            assert(s.drop_last()[0] == s[0]);
        }
    }
}

/// What `trim` returns neither starts nor ends with whitespace.
pub proof fn lemma_trim_shape(s: Seq<char>)
    ensures
        is_trimmed(trim(s)),
{
    lemma_trim_start_shape(s);
    lemma_trim_end_shape(trim_start(s));
}

/// Trimming a trimmed text changes nothing.
pub proof fn lemma_trim_fixed(t: Seq<char>)
    requires
        is_trimmed(t),
    ensures
        trim(t) == t,
{
}

/// Trimming removes leading whitespace put in front of a trimmed text.
pub proof fn lemma_trim_after_ws(p: Seq<char>, t: Seq<char>)
    requires
        forall|k: int| 0 <= k < p.len() ==> is_ws(#[trigger] p[k]),
        t.len() > 0,
        is_trimmed(t),
    ensures
        trim(p + t) == t,
    decreases p.len(),
{
    if p.len() == 0 {
        assert(p + t =~= t);
    } else {
        let q = p.drop_first();
        assert((p + t)[0] == p[0]);
        assert((p + t).drop_first() =~= q + t);
        assert forall|k: int| 0 <= k < q.len() implies is_ws(#[trigger] q[k]) by {
            assert(q[k] == p[k + 1]);
        }
        lemma_trim_after_ws(q, t);
    }
}

/// The lines of a text hold no newline.
pub proof fn lemma_lines_no_newline(x: Seq<char>)
    ensures
        forall|k: int| 0 <= k < lines(x).len() ==> no_newline(#[trigger] lines(x)[k]),
{
    lemma_lines_state_no_newline(x);
}

proof fn lemma_lines_state_no_newline(x: Seq<char>)
    ensures
        forall|k: int|
            0 <= k < lines_state(x).0.len() ==> no_newline(#[trigger] lines_state(x).0[k]),
        no_newline(lines_state(x).1),
    decreases x.len(),
{
    if x.len() > 0 {
        let y = x.drop_last();
        lemma_lines_state_no_newline(y);
        let (done, cur) = lines_state(y);
        if x.last() == '\n' {
            let c = strip_cr(cur);
            assert forall|k: int| 0 <= k < c.len() implies #[trigger] c[k] != '\n' by {
                assert(c[k] == cur[k]);
            }
            assert(lines_state(x).0 == done.push(c));
        } else {
            let c = cur.push(x.last());
            assert forall|k: int| 0 <= k < c.len() implies #[trigger] c[k] != '\n' by {
                if k < cur.len() {
                    assert(c[k] == cur[k]);
                }
            }
        }
    }
}

proof fn lemma_lines_state_append(p: Seq<char>, w: Seq<char>)
    requires
        no_newline(w),
    ensures
        lines_state(p + w) == (lines_state(p).0, lines_state(p).1 + w),
    decreases w.len(),
{
    if w.len() == 0 {
        assert(p + w =~= p);
        assert(lines_state(p).1 + w =~= lines_state(p).1);
    } else {
        let v = w.drop_last();
        assert forall|k: int| 0 <= k < v.len() implies #[trigger] v[k] != '\n' by {
            assert(v[k] == w[k]);
        }
        lemma_lines_state_append(p, v);
        assert((p + w).drop_last() =~= p + v);
        assert((p + w).last() == w.last());
        assert(w.last() == w[w.len() - 1]);
        assert(lines_state(p).1 + v.push(w.last()) =~= lines_state(p).1 + w);
    }
}

proof fn lemma_lines_state_line(p: Seq<char>, w: Seq<char>)
    requires
        clean_line(w),
        lines_state(p).1.len() == 0,
    ensures
        lines_state(p + w.push('\n')) == (lines_state(p).0.push(w), Seq::<char>::empty()),
{
    lemma_lines_state_append(p, w);
    assert((p + w.push('\n')).drop_last() =~= p + w);
    assert(lines_state(p).1 + w =~= w);
    if w.len() > 0 {
        assert(w.last() == w[w.len() - 1]);
    }
    assert(strip_cr(w) == w);
}

/// Joining clean lines with newlines, plus a final newline, gives back the
/// same lines.
pub proof fn lemma_lines_of_join(o: Seq<Seq<char>>)
    requires
        o.len() > 0,
        forall|k: int| 0 <= k < o.len() ==> clean_line(#[trigger] o[k]),
    ensures
        lines(join(o, seq!['\n']).push('\n')) == o,
{
    lemma_lines_state_of_join(o);
}

proof fn lemma_lines_state_of_join(o: Seq<Seq<char>>)
    requires
        o.len() > 0,
        forall|k: int| 0 <= k < o.len() ==> clean_line(#[trigger] o[k]),
    ensures
        lines_state(join(o, seq!['\n']).push('\n')) == (o, Seq::<char>::empty()),
    decreases o.len(),
{
    if o.len() == 1 {
        assert(lines_state(Seq::<char>::empty()).0 =~= Seq::<Seq<char>>::empty());
        assert(Seq::<char>::empty() + o[0].push('\n') =~= join(o, seq!['\n']).push('\n'));
        lemma_lines_state_line(Seq::<char>::empty(), o[0]);
        assert(Seq::<Seq<char>>::empty().push(o[0]) =~= o);
    } else {
        let q = o.drop_last();
        assert forall|k: int| 0 <= k < q.len() implies clean_line(#[trigger] q[k]) by {
            assert(q[k] == o[k]);
        }
        lemma_lines_state_of_join(q);
        let p = join(q, seq!['\n']).push('\n');
        assert(o.last() == o[o.len() - 1]);
        assert(p + o.last().push('\n') =~= join(o, seq!['\n']).push('\n'));
        lemma_lines_state_line(p, o.last());
        assert(q.push(o.last()) =~= o);
    }
}

} // verus!
