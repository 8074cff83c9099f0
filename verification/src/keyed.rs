//! Keyed entries: map semantics over a sequence of (key, value) pairs, where a
//! key's entry is its first occurrence and insertion replaces it in place.
use vstd::prelude::*;

verus! {

/// Index of the first entry with key `k`, or -1.
pub open spec fn key_position<V>(es: Seq<(Seq<char>, V)>, k: Seq<char>) -> int
    decreases es.len(),
{
    if es.len() == 0 {
        -1
    } else if es[0].0 == k {
        0
    } else {
        let r = key_position(es.drop_first(), k);
        if r < 0 {
            -1
        } else {
            r + 1
        }
    }
}

/// Map insertion: replaces the value of the entry with key `k`, or appends one.
pub open spec fn set_entry<V>(es: Seq<(Seq<char>, V)>, k: Seq<char>, v: V) -> Seq<(Seq<char>, V)> {
    let i = key_position(es, k);
    if i < 0 {
        es.push((k, v))
    } else {
        es.update(i, (k, v))
    }
}

/// `key_position` is the first index holding `k`.
pub proof fn lemma_key_position<V>(es: Seq<(Seq<char>, V)>, k: Seq<char>, i: int)
    requires
        0 <= i <= es.len(),
        forall|j: int| 0 <= j < i ==> es[j].0 != k,
    ensures
        i < es.len() && es[i].0 == k ==> key_position(es, k) == i,
        i == es.len() ==> key_position(es, k) == -1,
    decreases es.len(),
{
    if i > 0 && es.len() > 0 {
        lemma_key_position(es.drop_first(), k, i - 1);
    }
}

/// `key_position` is -1 or an index holding the key.
pub proof fn lemma_key_position_range<V>(es: Seq<(Seq<char>, V)>, k: Seq<char>)
    ensures
        -1 <= key_position(es, k) < es.len(),
        key_position(es, k) >= 0 ==> es[key_position(es, k)].0 == k,
    decreases es.len(),
{
    if es.len() > 0 {
        lemma_key_position_range(es.drop_first(), k);
    }
}

} // verus!

verus! {

/// Entries of a list of pairs, by key text.
pub open spec fn raw_entries<V>(ps: Seq<(String, V)>) -> Seq<(Seq<char>, V)> {
    ps.map_values(|e: (String, V)| (e.0@, e.1))
}

/// The keys of a list of entries.
pub open spec fn entry_keys<V>(es: Seq<(Seq<char>, V)>) -> Seq<Seq<char>> {
    es.map_values(|e: (Seq<char>, V)| e.0)
}

/// Map insertion into a list of pairs (`set_entry`).
pub fn set_keyed<V>(ps: &mut Vec<(String, V)>, k: String, v: V)
    ensures
        raw_entries(final(ps)@) == set_entry(raw_entries(old(ps)@), k@, v),
{
    let ghost es = raw_entries(ps@);
    let mut i: usize = 0;
    while i < ps.len()
        invariant
            i <= ps@.len(),
            es == raw_entries(ps@),
            es == raw_entries(old(ps)@),
            forall|j: int| 0 <= j < i ==> es[j].0 != k@,
        decreases ps@.len() - i,
    {
        if crate::text::str_eq(ps[i].0.as_str(), k.as_str()) {
            proof {
                lemma_key_position(es, k@, i as int);
            }
            ps.set(i, (k, v));
            proof {
                assert(raw_entries(ps@) =~= set_entry(es, k@, v));
            }
            return;
        }
        i = i + 1;
    }
    proof {
        lemma_key_position(es, k@, i as int);
    }
    ps.push((k, v));
    proof {
        assert(raw_entries(ps@) =~= set_entry(es, k@, v));
    }
}

/// Insertion keeps keys distinct and adds `k` to them.
pub proof fn lemma_set_entry_keys<V>(es: Seq<(Seq<char>, V)>, k: Seq<char>, v: V)
    requires
        entry_keys(es).no_duplicates(),
    ensures
        entry_keys(set_entry(es, k, v)).no_duplicates(),
        entry_keys(set_entry(es, k, v)).to_set() == entry_keys(es).to_set().insert(k),
{
    lemma_key_position_range(es, k);
    let i = key_position(es, k);
    let r = set_entry(es, k, v);
    if i < 0 {
        assert forall|j: int| 0 <= j < es.len() implies es[j].0 != k by {
            if es[j].0 == k {
                lemma_key_position_first(es, k, j);
            }
        }
        assert(entry_keys(r) =~= entry_keys(es).push(k));
        assert(entry_keys(r).to_set() =~= entry_keys(es).to_set().insert(k)) by {
            assert forall|y: Seq<char>| entry_keys(r).to_set().contains(y) implies entry_keys(es).to_set().insert(k).contains(y) by {
                let q = choose|q: int| 0 <= q < entry_keys(r).len() && entry_keys(r)[q] == y;
                if q < es.len() {
                    assert(entry_keys(es)[q] == y);
                }
            }
            assert forall|y: Seq<char>| entry_keys(es).to_set().insert(k).contains(y) implies entry_keys(r).to_set().contains(y) by {
                if y == k {
                    assert(entry_keys(r)[es.len() as int] == y);
                } else {
                    let q = choose|q: int| 0 <= q < entry_keys(es).len() && entry_keys(es)[q] == y;
                    assert(entry_keys(r)[q] == y);
                }
            }
        }
    } else {
        assert(entry_keys(r) =~= entry_keys(es));
        assert(entry_keys(es).to_set().contains(k)) by {
            assert(entry_keys(es)[i] == k);
        }
        assert(entry_keys(es).to_set().insert(k) =~= entry_keys(es).to_set());
    }
}

/// An index holding the key is at or after `key_position`, which is not -1.
pub proof fn lemma_key_position_first<V>(es: Seq<(Seq<char>, V)>, k: Seq<char>, j: int)
    requires
        0 <= j < es.len(),
        es[j].0 == k,
    ensures
        0 <= key_position(es, k) <= j,
    decreases es.len(),
{
    if j > 0 && es[0].0 != k {
        lemma_key_position_first(es.drop_first(), k, j - 1);
    }
}

/// With distinct keys, the entry at `j` is where its key is found.
pub proof fn lemma_key_position_distinct<V>(es: Seq<(Seq<char>, V)>, j: int)
    requires
        entry_keys(es).no_duplicates(),
        0 <= j < es.len(),
    ensures
        key_position(es, es[j].0) == j,
{
    let k = es[j].0;
    lemma_key_position_first(es, k, j);
    lemma_key_position_range(es, k);
    let i = key_position(es, k);
    if i != j {
        assert(entry_keys(es)[i] == entry_keys(es)[j]);
    }
}

} // verus!

verus! {

/// Position of the entry with key `k` (`key_position`), if any.
pub fn find_keyed<V>(ps: &Vec<(String, V)>, k: &str) -> (r: Option<usize>)
    ensures
        match r {
            Some(i) => i as int == key_position(raw_entries(ps@), k@) && i < ps@.len(),
            None => key_position(raw_entries(ps@), k@) == -1,
        },
{
    let ghost es = raw_entries(ps@);
    let mut i: usize = 0;
    while i < ps.len()
        invariant
            i <= ps@.len(),
            es == raw_entries(ps@),
            forall|j: int| 0 <= j < i ==> es[j].0 != k@,
        decreases ps@.len() - i,
    {
        if crate::text::str_eq(ps[i].0.as_str(), k) {
            proof {
                lemma_key_position(es, k@, i as int);
            }
            return Some(i);
        }
        i = i + 1;
    }
    proof {
        lemma_key_position(es, k@, i as int);
    }
    None
}

} // verus!

verus! {

/// Entries with the same keys find a key at the same position.
pub proof fn lemma_key_position_same_keys<A, B>(a: Seq<(Seq<char>, A)>, b: Seq<(Seq<char>, B)>, k: Seq<char>)
    requires
        a.len() == b.len(),
        forall|i: int| 0 <= i < a.len() ==> #[trigger] a[i].0 == b[i].0,
    ensures
        key_position(a, k) == key_position(b, k),
    decreases a.len(),
{
    if a.len() > 0 {
        lemma_key_position_same_keys(a.drop_first(), b.drop_first(), k);
    }
}

} // verus!
