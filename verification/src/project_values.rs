//! The project's placeholder values: a TOML table flattened into dotted keys.
use vstd::prelude::*;
use crate::config::{bool_text, bool_to_string};
use crate::strmap::{assoc_insert, StrMap};
use crate::text::concat_str;

verus! {

/// A TOML table: its entries in order.
#[derive(Debug)]
pub struct TomlTable {
    pub entries: Vec<TomlEntry>,
}

/// One `key = value` entry of a table.
#[derive(Debug)]
pub struct TomlEntry {
    pub key: String,
    pub value: TomlValue,
}

/// A TOML value, as far as placeholders read it: text, a boolean, a nested
/// table, or anything else (numbers, dates, arrays).
#[derive(Debug)]
pub enum TomlValue {
    Text(String),
    Flag(bool),
    Table(TomlTable),
    Other,
}

/// The dotted key of `key` under `prefix`.
pub open spec fn full_key(prefix: Seq<char>, key: Seq<char>) -> Seq<char> {
    if prefix.len() == 0 {
        key
    } else {
        prefix + seq!['.'] + key
    }
}

/// The dotted keys and values of `es` under `prefix`, in order: text as it
/// is, booleans as `true`/`false`, nested tables flattened in place, and
/// other values left out.
pub open spec fn flatten_pairs(es: Seq<TomlEntry>, prefix: Seq<char>) -> Seq<(Seq<char>, Seq<char>)>
    decreases es,
{
    if es.len() == 0 {
        seq![]
    } else {
        let e = es[es.len() - 1];
        let full = full_key(prefix, e.key@);
        flatten_pairs(es.subrange(0, es.len() - 1), prefix) + match e.value {
            TomlValue::Text(s) => seq![(full, s@)],
            TomlValue::Flag(b) => seq![(full, bool_text(b))],
            TomlValue::Table(t) => flatten_pairs(t.entries@, full),
            TomlValue::Other => seq![],
        }
    }
}

/// `m` with each of `ps` inserted in turn.
pub open spec fn insert_all(
    m: Seq<(Seq<char>, Seq<char>)>,
    ps: Seq<(Seq<char>, Seq<char>)>,
) -> Seq<(Seq<char>, Seq<char>)>
    decreases ps.len(),
{
    if ps.len() == 0 {
        m
    } else {
        assoc_insert(insert_all(m, ps.drop_last()), ps.last().0, ps.last().1)
    }
}

/// Inserting two lists in turn is inserting their concatenation.
pub proof fn lemma_insert_all_append(
    m: Seq<(Seq<char>, Seq<char>)>,
    a: Seq<(Seq<char>, Seq<char>)>,
    b: Seq<(Seq<char>, Seq<char>)>,
)
    ensures
        insert_all(m, a + b) == insert_all(insert_all(m, a), b),
    decreases b.len(),
{
    if b.len() == 0 {
        assert(a + b =~= a);
    } else {
        lemma_insert_all_append(m, a, b.drop_last());
        assert((a + b).drop_last() =~= a + b.drop_last());
        assert((a + b).last() == b.last());
    }
}

/// Insert the entries of `table` into `result` under dotted keys.
pub fn flatten_toml(table: &TomlTable, prefix: &str, result: &mut StrMap)
    ensures
        final(result)@ == insert_all(old(result)@, flatten_pairs(table.entries@, prefix@)),
    decreases table,
{
    let ghost es = table.entries@;
    let ghost start = result@;
    let mut i: usize = 0;
    assert(es.subrange(0, 0) =~= Seq::<TomlEntry>::empty());
    while i < table.entries.len()
        invariant
            i <= es.len(),
            es == table.entries@,
            result@ == insert_all(start, flatten_pairs(es.subrange(0, i as int), prefix@)),
        decreases es.len() - i,
    {
        let e = &table.entries[i];
        proof {
            reveal_strlit(".");
        }
        let full = if prefix.is_empty() {
            e.key.clone()
        } else {
            let a = concat_str(prefix, ".");
            concat_str(a.as_str(), e.key.as_str())
        };
        assert(full@ == full_key(prefix@, e.key@));
        let ghost before = result@;
        let ghost head = flatten_pairs(es.subrange(0, i as int), prefix@);
        assert(es.subrange(0, i + 1).subrange(0, i as int) =~= es.subrange(0, i as int));
        assert(es.subrange(0, i + 1)[i as int] == es[i as int]);
        match &e.value {
            TomlValue::Text(s) => {
                result.insert(full, s.clone());
                proof {
                    let part = seq![(full_key(prefix@, e.key@), s@)];
                    lemma_insert_all_append(start, head, part);
                    assert(part.drop_last() =~= Seq::<(Seq<char>, Seq<char>)>::empty());
                    assert(insert_all(before, part.drop_last()) == before);
                    assert(part.last() == part[0]);
                }
            },
            TomlValue::Flag(b) => {
                result.insert(full, bool_to_string(*b));
                proof {
                    let part = seq![(full_key(prefix@, e.key@), bool_text(*b))];
                    lemma_insert_all_append(start, head, part);
                    assert(part.drop_last() =~= Seq::<(Seq<char>, Seq<char>)>::empty());
                    assert(insert_all(before, part.drop_last()) == before);
                    assert(part.last() == part[0]);
                }
            },
            TomlValue::Table(t) => {
                proof {
                    assert(decreases_to!(table => table.entries));
                    assert(decreases_to!(table.entries => table.entries@));
                    assert(decreases_to!(table.entries@ => table.entries@[i as int]));
                    assert(decreases_to!(table.entries@[i as int] => table.entries@[i as int].value));
                }
                flatten_toml(t, full.as_str(), result);
                proof {
                    lemma_insert_all_append(start, head, flatten_pairs(t.entries@, full@));
                }
            },
            TomlValue::Other => {
                proof {
                    assert(head + Seq::<(Seq<char>, Seq<char>)>::empty() =~= head);
                }
            },
        }
        i = i + 1;
    }
    assert(es.subrange(0, i as int) =~= es);
}

/// The project's values, flattened from its table.
pub fn project_values(table: &TomlTable) -> (r: StrMap)
    ensures
        r@ == insert_all(seq![], flatten_pairs(table.entries@, seq![])),
{
    let mut m = StrMap::new();
    proof {
        reveal_strlit("");
    }
    flatten_toml(table, "", &mut m);
    assert(m@ == insert_all(seq![], flatten_pairs(table.entries@, ""@)));
    assert(""@ =~= Seq::<char>::empty());
    m
}

} // verus!
