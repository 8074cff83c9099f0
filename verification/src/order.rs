//! Lexicographic order of texts by character code, and sorted string lists.
use vstd::prelude::*;

verus! {

/// `a` comes before `b` in lexicographic order by character code (the order of
/// `String`'s `Ord`, which compares the UTF-8 bytes).
pub open spec fn lex_lt(a: Seq<char>, b: Seq<char>) -> bool
    decreases a.len(),
{
    if a.len() == 0 {
        b.len() > 0
    } else if b.len() == 0 {
        false
    } else if (a[0] as int) < (b[0] as int) {
        true
    } else if (a[0] as int) > (b[0] as int) {
        false
    } else {
        lex_lt(a.drop_first(), b.drop_first())
    }
}

/// No text comes before itself.
pub proof fn lemma_lex_irreflexive(a: Seq<char>)
    ensures
        !lex_lt(a, a),
    decreases a.len(),
{
    if a.len() > 0 {
        lemma_lex_irreflexive(a.drop_first());
    }
}

/// The order is transitive.
pub proof fn lemma_lex_transitive(a: Seq<char>, b: Seq<char>, c: Seq<char>)
    requires
        lex_lt(a, b),
        lex_lt(b, c),
    ensures
        lex_lt(a, c),
    decreases a.len(),
{
    if a.len() > 0 && b.len() > 0 && c.len() > 0 {
        if a[0] == b[0] && b[0] == c[0] {
            lemma_lex_transitive(a.drop_first(), b.drop_first(), c.drop_first());
        }
    }
}

/// Two different texts are ordered one way or the other.
pub proof fn lemma_lex_total(a: Seq<char>, b: Seq<char>)
    requires
        a != b,
    ensures
        lex_lt(a, b) || lex_lt(b, a),
    decreases a.len(),
{
    if a.len() > 0 && b.len() > 0 && a[0] == b[0] {
        if a.drop_first() == b.drop_first() {
            assert(a =~= seq![a[0]] + a.drop_first());
            assert(b =~= seq![b[0]] + b.drop_first());
        }
        lemma_lex_total(a.drop_first(), b.drop_first());
    } else if a.len() > 0 && b.len() > 0 {
        assert((a[0] as int) != (b[0] as int));
    } else if a.len() == 0 && b.len() == 0 {
        assert(a =~= b);
    }
}

/// The order is asymmetric.
pub proof fn lemma_lex_asymmetric(a: Seq<char>, b: Seq<char>)
    requires
        lex_lt(a, b),
    ensures
        !lex_lt(b, a),
{
    if lex_lt(b, a) {
        lemma_lex_transitive(a, b, a);
        lemma_lex_irreflexive(a);
    }
}

/// Whether `a` comes before `b` (`<` on `str`).
pub fn str_lt(a: &str, b: &str) -> (r: bool)
    ensures
        r == lex_lt(a@, b@),
{
    let n = a.unicode_len();
    let m = b.unicode_len();
    let mut i: usize = 0;
    assert(a@.skip(0) =~= a@);
    assert(b@.skip(0) =~= b@);
    while i < n && i < m
        invariant
            n == a@.len(),
            m == b@.len(),
            i <= n,
            i <= m,
            lex_lt(a@, b@) == lex_lt(a@.skip(i as int), b@.skip(i as int)),
        decreases n - i,
    {
        let ca = a.get_char(i);
        let cb = b.get_char(i);
        assert(a@.skip(i as int)[0] == ca);
        assert(b@.skip(i as int)[0] == cb);
        if (ca as u32) < (cb as u32) {
            return true;
        }
        if (ca as u32) > (cb as u32) {
            return false;
        }
        assert(a@.skip(i as int).drop_first() =~= a@.skip(i + 1));
        assert(b@.skip(i as int).drop_first() =~= b@.skip(i + 1));
        i = i + 1;
    }
    i == n && i < m
}

/// The texts are in strictly increasing order.
pub open spec fn strictly_sorted(s: Seq<Seq<char>>) -> bool {
    forall|i: int, j: int| 0 <= i < j < s.len() ==> lex_lt(#[trigger] s[i], #[trigger] s[j])
}

/// Texts of a list of strings.
pub open spec fn string_views(v: Seq<String>) -> Seq<Seq<char>> {
    v.map_values(|s: String| s@)
}

/// A strictly sorted list has no repeated text.
pub proof fn lemma_sorted_distinct(s: Seq<Seq<char>>)
    requires
        strictly_sorted(s),
    ensures
        s.no_duplicates(),
{
    assert forall|i: int, j: int| 0 <= i < s.len() && 0 <= j < s.len() && i != j implies s[i]
        != s[j] by {
        if i < j {
            assert(lex_lt(s[i], s[j]));
            lemma_lex_irreflexive(s[i]);
        } else {
            assert(lex_lt(s[j], s[i]));
            lemma_lex_irreflexive(s[j]);
        }
    }
}

/// Inserts `x` into a strictly sorted list, unless it is already there.
pub fn insert_sorted(v: &mut Vec<String>, x: String)
    requires
        strictly_sorted(string_views(old(v)@)),
    ensures
        strictly_sorted(string_views(final(v)@)),
        string_views(final(v)@).to_set() == string_views(old(v)@).to_set().insert(x@),
{
    let ghost s = string_views(v@);
    let mut p: usize = 0;
    while p < v.len()
        invariant
            p <= v@.len(),
            s == string_views(v@),
            s == string_views(old(v)@),
            strictly_sorted(s),
            forall|j: int| 0 <= j < p ==> lex_lt(#[trigger] s[j], x@),
        ensures
            p <= v@.len(),
            s == string_views(v@),
            s == string_views(old(v)@),
            forall|j: int| 0 <= j < p ==> lex_lt(#[trigger] s[j], x@),
            p < v@.len() ==> lex_lt(x@, s[p as int]),
        decreases v@.len() - p,
    {
        if crate::text::str_eq(v[p].as_str(), x.as_str()) {
            proof {
                assert(s[p as int] == x@);
                assert(s.to_set().insert(x@) =~= s.to_set());
            }
            return;
        }
        if str_lt(x.as_str(), v[p].as_str()) {
            break;
        }
        proof {
            lemma_lex_total(s[p as int], x@);
        }
        p = p + 1;
    }
    let ghost xs = x@;
    v.insert(p, x);
    proof {
        let t = string_views(v@);
        assert(t =~= s.insert(p as int, xs));
        assert forall|i: int, j: int| 0 <= i < j < t.len() implies lex_lt(#[trigger] t[i], #[trigger] t[j]) by {
            if j < p {
            } else if j == p {
                assert(lex_lt(s[i], xs));
            } else if i < p {
                assert(lex_lt(s[i], xs));
                assert(lex_lt(xs, s[p as int]));
                if j - 1 > p {
                    assert(lex_lt(s[p as int], s[j - 1]));
                    lemma_lex_transitive(xs, s[p as int], s[j - 1]);
                }
                lemma_lex_transitive(s[i], xs, s[j - 1]);
            } else if i == p {
                assert(lex_lt(xs, s[p as int]));
                if j - 1 > p {
                    assert(lex_lt(s[p as int], s[j - 1]));
                    lemma_lex_transitive(xs, s[p as int], s[j - 1]);
                }
            } else {
                assert(t[i] == s[i - 1]);
                assert(t[j] == s[j - 1]);
            }
        }
        assert(t.to_set() =~= s.to_set().insert(xs)) by {
            assert forall|y: Seq<char>| t.to_set().contains(y) implies s.to_set().insert(xs).contains(y) by {
                let k = choose|k: int| 0 <= k < t.len() && t[k] == y;
                if k < p {
                    assert(s[k] == y);
                } else if k > p {
                    assert(s[k - 1] == y);
                }
            }
            assert forall|y: Seq<char>| s.to_set().insert(xs).contains(y) implies t.to_set().contains(y) by {
                if y == xs {
                    assert(t[p as int] == y);
                } else {
                    let k = choose|k: int| 0 <= k < s.len() && s[k] == y;
                    if k < p {
                        assert(t[k] == y);
                    } else {
                        assert(t[k + 1] == y);
                    }
                }
            }
        }
    }
}

/// Two strictly sorted lists with the same texts are equal.
pub proof fn lemma_sorted_unique(a: Seq<Seq<char>>, b: Seq<Seq<char>>)
    requires
        strictly_sorted(a),
        strictly_sorted(b),
        a.to_set() == b.to_set(),
    ensures
        a == b,
    decreases a.len() + b.len(),
{
    lemma_sorted_distinct(a);
    lemma_sorted_distinct(b);
    a.unique_seq_to_set();
    b.unique_seq_to_set();
    if a.len() > 0 && b.len() > 0 {
        // the smallest elements agree
        assert(b.to_set().contains(a[0]));
        let j = choose|j: int| 0 <= j < b.len() && b[j] == a[0];
        assert(a.to_set().contains(b[0]));
        let i = choose|i: int| 0 <= i < a.len() && a[i] == b[0];
        if j > 0 {
            assert(lex_lt(b[0], b[j]));
            if i > 0 {
                assert(lex_lt(a[0], a[i]));
                lemma_lex_asymmetric(a[0], a[i]);
            } else {
                lemma_lex_irreflexive(a[0]);
            }
        }
        assert(a[0] == b[0]);
        let a2 = a.drop_first();
        let b2 = b.drop_first();
        assert forall|y: Seq<char>| a2.to_set().contains(y) implies b2.to_set().contains(y) by {
            let k = choose|k: int| 0 <= k < a2.len() && a2[k] == y;
            assert(a[k + 1] == y);
            assert(b.to_set().contains(y));
            let l = choose|l: int| 0 <= l < b.len() && b[l] == y;
            if l == 0 {
                assert(lex_lt(a[0], a[k + 1]));
                lemma_lex_irreflexive(a[0]);
            }
            assert(b2[l - 1] == y);
        }
        assert forall|y: Seq<char>| b2.to_set().contains(y) implies a2.to_set().contains(y) by {
            let k = choose|k: int| 0 <= k < b2.len() && b2[k] == y;
            assert(b[k + 1] == y);
            assert(a.to_set().contains(y));
            let l = choose|l: int| 0 <= l < a.len() && a[l] == y;
            if l == 0 {
                assert(lex_lt(b[0], b[k + 1]));
                lemma_lex_irreflexive(b[0]);
            }
            assert(a2[l - 1] == y);
        }
        assert(a2.to_set() =~= b2.to_set());
        lemma_sorted_unique(a2, b2);
        assert(a =~= seq![a[0]] + a2);
        assert(b =~= seq![b[0]] + b2);
    } else if a.len() > 0 {
        assert(b.to_set().contains(a[0]));
    } else if b.len() > 0 {
        assert(a.to_set().contains(b[0]));
    } else {
        assert(a =~= b);
    }
}

} // verus!

verus! {

/// The texts of the first `j + 1` elements are those of the first `j` and the `j`-th.
pub proof fn lemma_take_to_set(s: Seq<Seq<char>>, j: int)
    requires
        0 <= j < s.len(),
    ensures
        s.take(j + 1).to_set() == s.take(j).to_set().insert(s[j]),
{
    let a = s.take(j + 1);
    let b = s.take(j);
    assert forall|y: Seq<char>| a.to_set().contains(y) implies b.to_set().insert(s[j]).contains(y) by {
        let k = choose|k: int| 0 <= k < a.len() && a[k] == y;
        if k < j {
            assert(b[k] == y);
        }
    }
    assert forall|y: Seq<char>| b.to_set().insert(s[j]).contains(y) implies a.to_set().contains(y) by {
        if y == s[j] {
            assert(a[j] == y);
        } else {
            let k = choose|k: int| 0 <= k < b.len() && b[k] == y;
            assert(a[k] == y);
        }
    }
    assert(a.to_set() =~= b.to_set().insert(s[j]));
}

} // verus!

verus! {

/// Whether `xs` holds the text `x`.
pub fn contains_string(xs: &Vec<String>, x: &str) -> (r: bool)
    ensures
        r == string_views(xs@).contains(x@),
{
    let ghost v = string_views(xs@);
    let mut i: usize = 0;
    while i < xs.len()
        invariant
            i <= xs@.len(),
            v == string_views(xs@),
            forall|j: int| 0 <= j < i ==> v[j] != x@,
        decreases xs@.len() - i,
    {
        if crate::text::str_eq(xs[i].as_str(), x) {
            assert(v[i as int] == x@);
            return true;
        }
        i = i + 1;
    }
    false
}

} // verus!
