//! Tables kept as vectors of pairs of strings: the first pair with a given key is the
//! one that counts.
use crate::text::same_text;
use vstd::prelude::*;

verus! {

/// Whether some pair of the table has the key.
pub open spec fn has_key(table: Seq<(Seq<char>, Seq<char>)>, key: Seq<char>) -> bool {
    exists|i: int| 0 <= i < table.len() && #[trigger] table[i].0 == key
}

/// The value of the first pair with the key.
pub open spec fn value_of(table: Seq<(Seq<char>, Seq<char>)>, key: Seq<char>) -> Option<Seq<char>>
    decreases table.len(),
{
    if table.len() == 0 {
        None
    } else if table.first().0 == key {
        Some(table.first().1)
    } else {
        value_of(table.drop_first(), key)
    }
}

/// A key has a value exactly where some pair has the key.
pub proof fn lemma_value_of_has_key(table: Seq<(Seq<char>, Seq<char>)>, key: Seq<char>)
    ensures
        value_of(table, key) is Some <==> has_key(table, key),
    decreases table.len(),
{
    if table.len() > 0 {
        let rest = table.drop_first();
        lemma_value_of_has_key(rest, key);
        if table.first().0 == key {
            assert(table[0].0 == key);
        } else {
            if has_key(table, key) {
                let i = choose|i: int| 0 <= i < table.len() && #[trigger] table[i].0 == key;
                assert(rest[i - 1].0 == key);
            }
            if has_key(rest, key) {
                let i = choose|i: int| 0 <= i < rest.len() && #[trigger] rest[i].0 == key;
                assert(table[i + 1].0 == key);
            }
        }
    }
}

/// What stands behind a pair with the key does not change the key's value.
pub proof fn lemma_value_of_prefix(
    table: Seq<(Seq<char>, Seq<char>)>,
    more: Seq<(Seq<char>, Seq<char>)>,
    key: Seq<char>,
)
    requires
        has_key(table, key),
    ensures
        value_of(table + more, key) == value_of(table, key),
    decreases table.len(),
{
    let i = choose|i: int| 0 <= i < table.len() && #[trigger] table[i].0 == key;
    assert((table + more).first() == table.first());
    if table.first().0 != key {
        let rest = table.drop_first();
        assert(rest[i - 1].0 == key);
        assert((table + more).drop_first() =~= rest + more);
        lemma_value_of_prefix(rest, more, key);
    }
}

/// A pair added at the end counts only for a key that had no value.
pub proof fn lemma_value_of_push(
    table: Seq<(Seq<char>, Seq<char>)>,
    pair: (Seq<char>, Seq<char>),
    key: Seq<char>,
)
    ensures
        value_of(table.push(pair), key) == match value_of(table, key) {
            Some(v) => Some(v),
            None => if pair.0 == key {
                Some(pair.1)
            } else {
                None
            },
        },
    decreases table.len(),
{
    let longer = table.push(pair);
    if table.len() == 0 {
        assert(longer.first() == pair);
        assert(longer.drop_first() =~= table);
    } else {
        assert(longer.first() == table.first());
        if table.first().0 != key {
            assert(longer.drop_first() =~= table.drop_first().push(pair));
            lemma_value_of_push(table.drop_first(), pair, key);
        }
    }
}

/// Looks the key up in the table.
pub fn find_value(table: &Vec<(String, String)>, key: &str) -> (r: Option<String>)
    ensures
        match r {
            Some(v) => value_of(table.deep_view(), key@) == Some(v@),
            None => value_of(table.deep_view(), key@) is None,
        },
        r is Some <==> has_key(table.deep_view(), key@),
{
    let mut i: usize = 0;
    assert(table.deep_view().skip(0) =~= table.deep_view());
    proof {
        lemma_value_of_has_key(table.deep_view(), key@);
    }
    while i < table.len()
        invariant
            i <= table.len(),
            value_of(table.deep_view(), key@) == value_of(table.deep_view().skip(i as int), key@),
        decreases table.len() - i,
    {
        let ghost rest = table.deep_view().skip(i as int);
        assert(rest.first() == table.deep_view()[i as int]);
        if same_text(table[i].0.as_str(), key) {
            return Some(table[i].1.clone());
        }
        assert(rest.drop_first() =~= table.deep_view().skip(i + 1));
        i += 1;
    }
    None
}

/// Tests whether some pair of the table has the key.
pub fn contains_key(table: &Vec<(String, String)>, key: &str) -> (r: bool)
    ensures
        r == has_key(table.deep_view(), key@),
{
    let mut i: usize = 0;
    while i < table.len()
        invariant
            i <= table.len(),
            forall|j: int| 0 <= j < i ==> table.deep_view()[j].0 != key@,
        decreases table.len() - i,
    {
        if same_text(table[i].0.as_str(), key) {
            assert(table.deep_view()[i as int].0 == key@);
            return true;
        }
        i += 1;
    }
    false
}

/// No two pairs of the table have the same key: the table is a map.
pub open spec fn keys_distinct(table: Seq<(Seq<char>, Seq<char>)>) -> bool {
    forall|i: int, j: int|
        0 <= i < j < table.len() ==> (#[trigger] table[i]).0 != (#[trigger] table[j]).0
}

/// Tests whether no two pairs of the table have the same key.
pub fn has_distinct_keys(table: &Vec<(String, String)>) -> (r: bool)
    ensures
        r == keys_distinct(table.deep_view()),
{
    let mut j: usize = 0;
    while j < table.len()
        invariant
            j <= table.len(),
            forall|a: int, b: int|
                0 <= a < b < j ==> (#[trigger] table.deep_view()[a]).0 != (
                #[trigger] table.deep_view()[b]).0,
        decreases table.len() - j,
    {
        let mut i: usize = 0;
        while i < j
            invariant
                i <= j < table.len(),
                forall|a: int| 0 <= a < i ==> (#[trigger] table.deep_view()[a]).0
                    != table.deep_view()[j as int].0,
            decreases j - i,
        {
            if table[i].0 == table[j].0 {
                assert(table.deep_view()[i as int].0 == table.deep_view()[j as int].0);
                return false;
            }
            i += 1;
        }
        j += 1;
    }
    true
}

} // verus!
