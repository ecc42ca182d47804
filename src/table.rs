//! A small string-keyed table held as a vector of entries with distinct
//! keys, seen as a map from key text to value text.

use vstd::prelude::*;

verus! {

pub open spec fn entry_at(e: Seq<(String, String)>, k: Seq<char>, i: int) -> bool {
    0 <= i < e.len() && e[i].0@ == k
}

pub open spec fn table_has(e: Seq<(String, String)>, k: Seq<char>) -> bool {
    exists|i: int| entry_at(e, k, i)
}

/// No two entries share a key.
pub open spec fn keys_unique(e: Seq<(String, String)>) -> bool {
    forall|i: int, j: int|
        0 <= i < e.len() && 0 <= j < e.len() && #[trigger] e[i].0@ == #[trigger] e[j].0@ ==> i == j
}

/// The map that the entries stand for.
pub open spec fn table_map(e: Seq<(String, String)>) -> Map<Seq<char>, Seq<char>> {
    Map::new(|k: Seq<char>| table_has(e, k), |k: Seq<char>| e[choose|i: int| entry_at(e, k, i)].1@)
}

pub proof fn lemma_table_value(e: Seq<(String, String)>, k: Seq<char>, i: int)
    requires
        keys_unique(e),
        entry_at(e, k, i),
    ensures
        table_map(e).contains_key(k),
        table_map(e)[k] == e[i].1@,
{
    let j = choose|j: int| entry_at(e, k, j);
    assert(e[i].0@ == e[j].0@);
}

/// Appending an entry under a new key inserts it into the map.
pub proof fn lemma_table_push(e: Seq<(String, String)>, k: String, v: String)
    requires
        keys_unique(e),
        !table_has(e, k@),
    ensures
        keys_unique(e.push((k, v))),
        table_map(e.push((k, v))) == table_map(e).insert(k@, v@),
{
    let e2 = e.push((k, v));
    assert forall|i: int, j: int|
        0 <= i < e2.len() && 0 <= j < e2.len() && #[trigger] e2[i].0@ == #[trigger] e2[j].0@ implies i
        == j by {
        if i < e.len() && j == e.len() {
            assert(entry_at(e, k@, i));
        } else if j < e.len() && i == e.len() {
            assert(entry_at(e, k@, j));
        } else if i < e.len() && j < e.len() {
            assert(e[i].0@ == e[j].0@);
        }
    }
    let m2 = table_map(e2);
    let m1 = table_map(e).insert(k@, v@);
    assert forall|q: Seq<char>| m2.contains_key(q) <==> m1.contains_key(q) by {
        if m2.contains_key(q) && q != k@ {
            let i = choose|i: int| entry_at(e2, q, i);
            assert(entry_at(e, q, i));
        }
        if m1.contains_key(q) && q != k@ {
            let i = choose|i: int| entry_at(e, q, i);
            assert(entry_at(e2, q, i));
        }
        if q == k@ {
            assert(entry_at(e2, q, e.len() as int));
        }
    }
    assert forall|q: Seq<char>| #[trigger] m2.contains_key(q) implies m2[q] == m1[q] by {
        if q == k@ {
            lemma_table_value(e2, q, e.len() as int);
        } else {
            let i = choose|i: int| entry_at(e2, q, i);
            assert(entry_at(e, q, i));
            lemma_table_value(e2, q, i);
            lemma_table_value(e, q, i);
        }
    }
    assert(m2 =~= m1);
}

/// Replacing the entry that holds a key changes only that key's value.
pub proof fn lemma_table_update(e: Seq<(String, String)>, i: int, k: String, v: String)
    requires
        keys_unique(e),
        entry_at(e, k@, i),
    ensures
        keys_unique(e.update(i, (k, v))),
        table_map(e.update(i, (k, v))) == table_map(e).insert(k@, v@),
{
    let e2 = e.update(i, (k, v));
    assert forall|a: int, b: int|
        0 <= a < e2.len() && 0 <= b < e2.len() && #[trigger] e2[a].0@ == #[trigger] e2[b].0@ implies a
        == b by {
        assert(e2[a].0@ == e[a].0@);
        assert(e2[b].0@ == e[b].0@);
        assert(e[a].0@ == e[b].0@);
    }
    let m2 = table_map(e2);
    let m1 = table_map(e).insert(k@, v@);
    assert forall|q: Seq<char>| m2.contains_key(q) <==> m1.contains_key(q) by {
        if m2.contains_key(q) && q != k@ {
            let j = choose|j: int| entry_at(e2, q, j);
            assert(entry_at(e, q, j));
        }
        if m1.contains_key(q) && q != k@ {
            let j = choose|j: int| entry_at(e, q, j);
            assert(entry_at(e2, q, j));
        }
        if q == k@ {
            assert(entry_at(e2, q, i));
        }
    }
    assert forall|q: Seq<char>| #[trigger] m2.contains_key(q) implies m2[q] == m1[q] by {
        if q == k@ {
            lemma_table_value(e2, q, i);
        } else {
            let j = choose|j: int| entry_at(e2, q, j);
            assert(entry_at(e, q, j));
            lemma_table_value(e2, q, j);
            lemma_table_value(e, q, j);
        }
    }
    assert(m2 =~= m1);
}

/// The position of the entry whose key is `k`, if there is one.
pub fn find_key(e: &Vec<(String, String)>, k: &String) -> (r: Option<usize>)
    ensures
        match r {
            Some(i) => entry_at(e@, k@, i as int),
            None => !table_has(e@, k@),
        },
{
    let mut i: usize = 0;
    while i < e.len()
        invariant
            i <= e@.len(),
            forall|j: int| 0 <= j < i ==> e@[j].0@ != k@,
        decreases e@.len() - i,
    {
        if e[i].0 == *k {
            return Some(i);
        }
        i = i + 1;
    }
    None
}

/// Sets the value under `k`, replacing any earlier one.
pub fn table_put(e: &mut Vec<(String, String)>, k: String, v: String)
    requires
        keys_unique(old(e)@),
    ensures
        keys_unique(final(e)@),
        table_map(final(e)@) == table_map(old(e)@).insert(k@, v@),
{
    match find_key(e, &k) {
        Some(i) => {
            proof {
                lemma_table_update(e@, i as int, k, v);
            }
            e.set(i, (k, v));
        },
        None => {
            proof {
                lemma_table_push(e@, k, v);
            }
            e.push((k, v));
        },
    }
}

} // verus!
