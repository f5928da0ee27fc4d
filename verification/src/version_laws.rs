//! What holds of versions as a whole: the order is a strict order in which a
//! release beats its pre-releases, and parsing reads back the text of a
//! version.
use vstd::prelude::*;
use crate::text::{lemma_find_first_char, lemma_find_no_char};
use crate::version::{
    decimal, digit_char, digit_value, digits_value, is_digit, newer, parse_number, parse_semver,
    semver_text, split_once, strip_v, text_less, SemVerView,
};

verus! {

/// No text comes before itself.
pub proof fn lemma_text_less_irreflexive(a: Seq<char>)
    ensures
        !text_less(a, a),
    decreases a.len(),
{
    if a.len() > 0 {
        lemma_text_less_irreflexive(a.drop_first());
    }
}

/// Of two texts, at most one comes before the other.
pub proof fn lemma_text_less_asymmetric(a: Seq<char>, b: Seq<char>)
    ensures
        text_less(a, b) ==> !text_less(b, a),
    decreases a.len(),
{
    if a.len() > 0 && b.len() > 0 && a[0] == b[0] {
        lemma_text_less_asymmetric(a.drop_first(), b.drop_first());
    }
}

/// The text order is transitive.
pub proof fn lemma_text_less_transitive(a: Seq<char>, b: Seq<char>, c: Seq<char>)
    ensures
        text_less(a, b) && text_less(b, c) ==> text_less(a, c),
    decreases a.len(),
{
    if a.len() > 0 && b.len() > 0 && c.len() > 0 && a[0] == b[0] && b[0] == c[0] {
        lemma_text_less_transitive(a.drop_first(), b.drop_first(), c.drop_first());
    }
}

/// "Newer than" is a strict order on versions: no version is newer than
/// itself, of two versions at most one is newer than the other, and a
/// version newer than one newer than a third is newer than the third.
pub proof fn lemma_newer_strict_order(a: SemVerView, b: SemVerView, c: SemVerView)
    ensures
        !newer(a, a),
        newer(a, b) ==> !newer(b, a),
        newer(a, b) && newer(b, c) ==> newer(a, c),
{
    if let Some(x) = a.pre {
        lemma_text_less_irreflexive(x);
    }
    if let (Some(x), Some(y)) = (a.pre, b.pre) {
        lemma_text_less_asymmetric(x, y);
        lemma_text_less_asymmetric(y, x);
    }
    if let (Some(x), Some(y), Some(z)) = (a.pre, b.pre, c.pre) {
        lemma_text_less_transitive(z, y, x);
    }
}

/// A character's code is its value.
proof fn lemma_char_code(c: char)
    ensures
        (c as u32) as int == c as int,
{
}

/// Of two different texts, one comes before the other.
pub proof fn lemma_text_less_total(a: Seq<char>, b: Seq<char>)
    requires
        a != b,
    ensures
        text_less(a, b) || text_less(b, a),
    decreases a.len(),
{
    if a.len() > 0 && b.len() > 0 {
        if a[0] == b[0] {
            assert(a.drop_first() != b.drop_first()) by {
                if a.drop_first() == b.drop_first() {
                    assert(a =~= seq![a[0]] + a.drop_first());
                    assert(b =~= seq![b[0]] + b.drop_first());
                }
            }
            lemma_text_less_total(a.drop_first(), b.drop_first());
        } else {
            lemma_char_code(a[0]);
            lemma_char_code(b[0]);
        }
    } else if a.len() == 0 && b.len() == 0 {
        assert(a =~= b);
    }
}

/// Versions are ordered by their numbers first: at the first of major, minor
/// and patch number where two versions differ, the larger number makes the
/// newer version, whatever their pre-release tags.
pub proof fn lemma_newer_by_numbers(a: SemVerView, b: SemVerView)
    ensures
        a.major > b.major ==> newer(a, b),
        a.major == b.major && a.minor > b.minor ==> newer(a, b),
        a.major == b.major && a.minor == b.minor && a.patch > b.patch ==> newer(a, b),
{
}

/// Of two different versions, one is newer than the other: the order is
/// total.
pub proof fn lemma_newer_total(a: SemVerView, b: SemVerView)
    requires
        a != b,
    ensures
        newer(a, b) || newer(b, a),
{
    if a.major == b.major && a.minor == b.minor && a.patch == b.patch {
        match (a.pre, b.pre) {
            (Some(x), Some(y)) => {
                lemma_text_less_total(x, y);
            },
            (None, None) => {
                assert(a == b);
            },
            _ => {},
        }
    }
}

/// A release is newer than every pre-release of the same numbers.
pub proof fn lemma_release_beats_prerelease(a: SemVerView, b: SemVerView)
    requires
        a.major == b.major,
        a.minor == b.minor,
        a.patch == b.patch,
        a.pre is None,
        b.pre is Some,
    ensures
        newer(a, b),
        !newer(b, a),
{
}

proof fn lemma_digit(d: nat)
    requires
        d < 10,
    ensures
        is_digit(digit_char(d)),
        digit_value(digit_char(d)) == d,
{
    if d == 0 {
    } else if d == 1 {
    } else if d == 2 {
    } else if d == 3 {
    } else if d == 4 {
    } else if d == 5 {
    } else if d == 6 {
    } else if d == 7 {
    } else if d == 8 {
    } else {
    }
}

/// The decimal text of `n` is a non-empty run of digits whose value is `n`.
pub proof fn lemma_decimal(n: nat)
    ensures
        decimal(n).len() > 0,
        forall|k: int| 0 <= k < decimal(n).len() ==> is_digit(#[trigger] decimal(n)[k]),
        digits_value(decimal(n)) == n,
    decreases n,
{
    if n < 10 {
        lemma_digit(n);
        let s = decimal(n);
        assert(s.drop_last() =~= Seq::<char>::empty());
        assert(s.last() == digit_char(n));
        assert(digits_value(s) == digits_value(s.drop_last()) * 10 + digit_value(s.last()));
    } else {
        lemma_decimal(n / 10);
        lemma_digit(n % 10);
        let s = decimal(n);
        assert(s.drop_last() =~= decimal(n / 10));
        assert(s.last() == digit_char(n % 10));
        assert(digits_value(s) == digits_value(s.drop_last()) * 10 + digit_value(s.last()));
        assert(n == (n / 10) * 10 + n % 10);
    }
}

/// `a`, then `c`, then `b` splits at that `c` when `a` holds none.
proof fn lemma_split_once_at(a: Seq<char>, c: char, b: Seq<char>)
    requires
        forall|i: int| 0 <= i < a.len() ==> a[i] != c,
    ensures
        split_once(a + seq![c] + b, c) == (a, Some(b)),
{
    let t = a + seq![c] + b;
    lemma_find_first_char(t, c, a.len() as int);
    assert(t.take(a.len() as int) =~= a);
    assert(t.skip(a.len() as int + 1) =~= b);
}

proof fn lemma_parse_decimal(n: u64)
    ensures
        parse_number(decimal(n as nat)) == Some(n),
        forall|k: int| 0 <= k < decimal(n as nat).len() ==> {
            let ch = #[trigger] decimal(n as nat)[k];
            ch != '.' && ch != '-' && ch != 'v'
        },
        decimal(n as nat).len() > 0,
{
    lemma_decimal(n as nat);
}

/// Parsing the text of a version gives the version back, for every version
/// whose pre-release tag, if any, is not empty (an empty tag does not parse).
pub proof fn lemma_parse_text(v: SemVerView)
    requires
        v.pre matches Some(p) ==> p.len() > 0,
    ensures
        parse_semver(semver_text(v)) == Some(v),
{
    let d1 = decimal(v.major as nat);
    let d2 = decimal(v.minor as nat);
    let d3 = decimal(v.patch as nat);
    lemma_parse_decimal(v.major);
    lemma_parse_decimal(v.minor);
    lemma_parse_decimal(v.patch);
    let core = d1 + seq!['.'] + d2 + seq!['.'] + d3;
    let rest = d2 + seq!['.'] + d3;
    assert(core =~= d1 + seq!['.'] + rest);
    assert forall|i: int| 0 <= i < core.len() implies core[i] != '-' by {
        if i < d1.len() {
            assert(core[i] == d1[i]);
        } else if i == d1.len() {
        } else if i < d1.len() + 1 + d2.len() {
            assert(core[i] == d2[i - d1.len() - 1]);
        } else if i == d1.len() + 1 + d2.len() {
        } else {
            assert(core[i] == d3[i - d1.len() - 2 - d2.len()]);
        }
    }
    lemma_split_once_at(d1, '.', rest);
    lemma_split_once_at(d2, '.', d3);
    let t = semver_text(v);
    assert(t[0] == d1[0]);
    assert(strip_v(t) == t);
    match v.pre {
        Some(p) => {
            assert(t =~= core + seq!['-'] + p);
            lemma_split_once_at(core, '-', p);
        },
        None => {
            assert(t =~= core);
            lemma_find_no_char(core, '-');
        },
    }
}

} // verus!
