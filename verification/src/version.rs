//! Semantic versions: parsing, ordering and text.
use vstd::prelude::*;
use crate::text::{
    append_chars, chars_of, find, find_at, lemma_find_from, lemma_find_skip, occurs_at,
    opt_view, slice_of, string_of,
};

verus! {

/// A semantic version `major.minor.patch`, optionally with a pre-release tag.
#[derive(Clone, Debug)]
pub struct SemVer {
    pub major: u64,
    pub minor: u64,
    pub patch: u64,
    pub pre: Option<String>,
}

/// What a version holds.
pub struct SemVerView {
    pub major: u64,
    pub minor: u64,
    pub patch: u64,
    pub pre: Option<Seq<char>>,
}

impl View for SemVer {
    type V = SemVerView;

    open spec fn view(&self) -> SemVerView {
        SemVerView { major: self.major, minor: self.minor, patch: self.patch, pre: opt_view(self.pre) }
    }
}

/// `c` is an ASCII digit.
pub open spec fn is_digit(c: char) -> bool {
    '0' <= c <= '9'
}

/// The value of a digit.
pub open spec fn digit_value(c: char) -> nat {
    (c as u32 - '0' as u32) as nat
}

/// The number that a string of decimal digits denotes.
pub open spec fn digits_value(s: Seq<char>) -> nat
    decreases s.len(),
{
    if s.len() == 0 {
        0
    } else {
        digits_value(s.drop_last()) * 10 + digit_value(s.last())
    }
}

/// A non-empty run of decimal digits whose value fits in `u64`.
pub open spec fn parse_number(s: Seq<char>) -> Option<u64> {
    if s.len() > 0 && (forall|k: int| 0 <= k < s.len() ==> is_digit(#[trigger] s[k]))
        && digits_value(s) <= u64::MAX {
        Some(digits_value(s) as u64)
    } else {
        None
    }
}

/// `s` without one leading `v`.
pub open spec fn strip_v(s: Seq<char>) -> Seq<char> {
    if s.len() > 0 && s[0] == 'v' {
        s.drop_first()
    } else {
        s
    }
}

/// The text before the first `sep`, and the text after it if there is one.
pub open spec fn split_once(s: Seq<char>, sep: char) -> (Seq<char>, Option<Seq<char>>) {
    match find(s, seq![sep]) {
        None => (s, None),
        Some(i) => (s.take(i), Some(s.skip(i + 1))),
    }
}

/// The version that `s` denotes: an optional leading `v`, three dot-separated
/// numbers, and optionally `-` followed by a non-empty pre-release tag.
pub open spec fn parse_semver(s: Seq<char>) -> Option<SemVerView> {
    let t = strip_v(s);
    let (core, pre) = split_once(t, '-');
    let (a, r1) = split_once(core, '.');
    match r1 {
        None => None,
        Some(r) => {
            let (b, r2) = split_once(r, '.');
            match r2 {
                None => None,
                Some(c) => match (parse_number(a), parse_number(b), parse_number(c)) {
                    (Some(x), Some(y), Some(z)) => match pre {
                        Some(p) => if p.len() > 0 {
                            Some(SemVerView { major: x, minor: y, patch: z, pre: Some(p) })
                        } else {
                            None
                        },
                        None => Some(SemVerView { major: x, minor: y, patch: z, pre: None }),
                    },
                    _ => None,
                },
            }
        },
    }
}

/// `a` comes before `b` in the lexicographic order of characters.
pub open spec fn text_less(a: Seq<char>, b: Seq<char>) -> bool
    decreases a.len(),
{
    if b.len() == 0 {
        false
    } else if a.len() == 0 {
        true
    } else if a[0] != b[0] {
        (a[0] as u32) < (b[0] as u32)
    } else {
        text_less(a.drop_first(), b.drop_first())
    }
}

/// `a` is a newer version than `b`: by major, minor and patch number, then a
/// release is newer than a pre-release, and pre-release tags compare as text.
pub open spec fn newer(a: SemVerView, b: SemVerView) -> bool {
    if a.major != b.major {
        a.major > b.major
    } else if a.minor != b.minor {
        a.minor > b.minor
    } else if a.patch != b.patch {
        a.patch > b.patch
    } else {
        match (a.pre, b.pre) {
            (None, None) => false,
            (None, Some(_)) => true,
            (Some(_), None) => false,
            (Some(x), Some(y)) => text_less(y, x),
        }
    }
}

/// The decimal digit for `d < 10`.
pub open spec fn digit_char(d: nat) -> char {
    ((d + '0' as nat) as u32) as char
}

/// The decimal text of `n`.
pub open spec fn decimal(n: nat) -> Seq<char>
    decreases n,
{
    if n < 10 {
        seq![digit_char(n)]
    } else {
        decimal(n / 10).push(digit_char(n % 10))
    }
}

/// The text of a version: `major.minor.patch`, then `-pre` if present.
pub open spec fn semver_text(v: SemVerView) -> Seq<char> {
    let core = decimal(v.major as nat) + seq!['.'] + decimal(v.minor as nat) + seq!['.']
        + decimal(v.patch as nat);
    match v.pre {
        Some(p) => core + seq!['-'] + p,
        None => core,
    }
}

/// The decimal digits of `n`.
pub fn decimal_text(n: u64) -> (r: Vec<char>)
    ensures
        r@ == decimal(n as nat),
    decreases n,
{
    if n < 10 {
        let mut r: Vec<char> = Vec::new();
        r.push(char_of_digit(n));
        assert(r@ =~= decimal(n as nat));
        r
    } else {
        let mut r = decimal_text(n / 10);
        r.push(char_of_digit(n % 10));
        r
    }
}

fn char_of_digit(d: u64) -> (c: char)
    requires
        d < 10,
    ensures
        c == digit_char(d as nat),
{
    if d == 0 { '0' }
    else if d == 1 { '1' }
    else if d == 2 { '2' }
    else if d == 3 { '3' }
    else if d == 4 { '4' }
    else if d == 5 { '5' }
    else if d == 6 { '6' }
    else if d == 7 { '7' }
    else if d == 8 { '8' }
    else { '9' }
}

fn number_of(s: &Vec<char>) -> (r: Option<u64>)
    ensures
        r == parse_number(s@),
{
    if s.len() == 0 {
        return None;
    }
    let mut v: u64 = 0;
    let mut i: usize = 0;
    while i < s.len()
        invariant
            i <= s@.len(),
            s@.len() > 0,
            forall|k: int| 0 <= k < i ==> is_digit(#[trigger] s@[k]),
            v == digits_value(s@.take(i as int)),
        decreases s@.len() - i,
    {
        let c = s[i];
        assert(s@.take(i + 1).drop_last() =~= s@.take(i as int));
        if !('0' <= c && c <= '9') {
            return None;
        }
        let d = (c as u32 - '0' as u32) as u64;
        assert(d == digit_value(c));
        if v > (u64::MAX - d) / 10 {
            proof {
                lemma_digits_grow(s@, i as int + 1);
                assert(v * 10 + d > u64::MAX) by (nonlinear_arith)
                    requires
                        v > (u64::MAX - d) / 10,
                        d < 10,
                ;
            }
            return None;
        }
        assert(v * 10 + d <= u64::MAX) by (nonlinear_arith)
            requires
                v <= (u64::MAX - d) / 10,
                d < 10,
        ;
        v = v * 10 + d;
        i = i + 1;
    }
    assert(s@.take(i as int) =~= s@);
    Some(v)
}

/// The value of a digit string is at least the value of any of its prefixes.
pub proof fn lemma_digits_grow(s: Seq<char>, i: int)
    requires
        0 <= i <= s.len(),
    ensures
        digits_value(s.take(i)) <= digits_value(s),
    decreases s.len() - i,
{
    if i < s.len() {
        lemma_digits_grow(s, i + 1);
        assert(s.take(i + 1).drop_last() =~= s.take(i));
        let a = digits_value(s.take(i));
        assert(a <= a * 10) by (nonlinear_arith);
    } else {
        assert(s.take(i) =~= s);
    }
}

fn split_at_char(s: &Vec<char>, sep: char) -> (r: (Vec<char>, Option<Vec<char>>))
    ensures
        r.0@ == split_once(s@, sep).0,
        opt_chars(r.1) == split_once(s@, sep).1,
{
    let mut p: Vec<char> = Vec::new();
    p.push(sep);
    assert(p@ =~= seq![sep]);
    proof {
        lemma_find_from(s@, seq![sep], 0);
    }
    match find_at(s, &p, 0) {
        None => (slice_of(s, 0, s.len()), None),
        Some(i) => {
            assert(occurs_at(s@, seq![sep], i as int));
            let n = s.len();
            assert(i + 1 <= n);
            let a = slice_of(s, 0, i);
            let b = slice_of(s, i + 1, n);
            assert(a@ =~= s@.take(i as int));
            assert(b@ =~= s@.skip(i + 1));
            (a, Some(b))
        },
    }
}

/// The characters of an optional character vector.
pub open spec fn opt_chars(o: Option<Vec<char>>) -> Option<Seq<char>> {
    match o {
        Some(v) => Some(v@),
        None => None,
    }
}

impl SemVer {
    /// Parse a version string such as `1.2.3`, `v1.2.3` or `1.2.3-alpha`.
    pub fn parse(s: &str) -> (r: Option<SemVer>)
        ensures
            match r {
                Some(v) => parse_semver(s@) == Some(v@),
                None => parse_semver(s@) is None,
            },
    {
        let all = chars_of(s);
        let t = if all.len() > 0 && all[0] == 'v' {
            let t = slice_of(&all, 1, all.len());
            assert(t@ =~= all@.drop_first());
            t
        } else {
            all
        };
        let (core, pre) = split_at_char(&t, '-');
        let (a, r1) = split_at_char(&core, '.');
        let r = match r1 {
            None => {
                return None;
            },
            Some(r) => r,
        };
        let (b, r2) = split_at_char(&r, '.');
        let c = match r2 {
            None => {
                return None;
            },
            Some(c) => c,
        };
        let x = match number_of(&a) {
            Some(x) => x,
            None => {
                return None;
            },
        };
        let y = match number_of(&b) {
            Some(y) => y,
            None => {
                return None;
            },
        };
        let z = match number_of(&c) {
            Some(z) => z,
            None => {
                return None;
            },
        };
        match pre {
            Some(p) => {
                if p.len() == 0 {
                    return None;
                }
                Some(SemVer { major: x, minor: y, patch: z, pre: Some(string_of(p.as_slice())) })
            },
            None => Some(SemVer { major: x, minor: y, patch: z, pre: None }),
        }
    }

    /// Whether this version is a release (has no pre-release tag).
    pub fn is_stable(&self) -> (r: bool)
        ensures
            r == (self.pre is None),
    {
        self.pre.is_none()
    }

    /// Whether this version is newer than `other`.
    pub fn is_newer_than(&self, other: &SemVer) -> (r: bool)
        ensures
            r == newer(self@, other@),
    {
        if self.major != other.major {
            return self.major > other.major;
        }
        if self.minor != other.minor {
            return self.minor > other.minor;
        }
        if self.patch != other.patch {
            return self.patch > other.patch;
        }
        match (&self.pre, &other.pre) {
            (None, None) => false,
            (None, Some(_)) => true,
            (Some(_), None) => false,
            (Some(x), Some(y)) => {
                let a = chars_of(y.as_str());
                let b = chars_of(x.as_str());
                less_chars(&a, &b)
            },
        }
    }

    /// The version's text.
    pub fn to_text(&self) -> (r: String)
        ensures
            r@ == semver_text(self@),
    {
        let mut s = decimal_text(self.major);
        s.push('.');
        let m = decimal_text(self.minor);
        append_chars(&mut s, &m);
        s.push('.');
        let p = decimal_text(self.patch);
        append_chars(&mut s, &p);
        match &self.pre {
            Some(pre) => {
                s.push('-');
                let q = chars_of(pre.as_str());
                append_chars(&mut s, &q);
            },
            None => {},
        }
        string_of(s.as_slice())
    }
}

fn less_chars(a: &Vec<char>, b: &Vec<char>) -> (r: bool)
    ensures
        r == text_less(a@, b@),
{
    let mut i: usize = 0;
    assert(a@.skip(0) =~= a@);
    assert(b@.skip(0) =~= b@);
    while i < a.len() && i < b.len()
        invariant
            i <= a@.len(),
            i <= b@.len(),
            text_less(a@, b@) == text_less(a@.skip(i as int), b@.skip(i as int)),
        decreases a@.len() - i,
    {
        assert(a@.skip(i as int)[0] == a@[i as int]);
        assert(b@.skip(i as int)[0] == b@[i as int]);
        if a[i] != b[i] {
            return (a[i] as u32) < (b[i] as u32);
        }
        assert(a@.skip(i as int).drop_first() =~= a@.skip(i + 1));
        assert(b@.skip(i as int).drop_first() =~= b@.skip(i + 1));
        i = i + 1;
    }
    if i >= b.len() {
        assert(b@.skip(i as int).len() == 0);
    } else {
        assert(a@.skip(i as int).len() == 0);
    }
    i < b.len()
}

} // verus!
