//! Structural comparison of two manifests: which sources, transforms and sinks
//! were added or removed.
use vstd::prelude::*;
use crate::manifest::{Manifest, sink_names, source_names, transform_names};
use crate::order::string_views;

verus! {

/// One line `prefix + x` for each `x` of `xs` (in order) that `others` lacks.
pub open spec fn marked(prefix: Seq<char>, xs: Seq<Seq<char>>, others: Seq<Seq<char>>) -> Seq<Seq<char>>
    decreases xs.len(),
{
    if xs.len() == 0 {
        Seq::empty()
    } else {
        let acc = marked(prefix, xs.drop_last(), others);
        if others.contains(xs.last()) {
            acc
        } else {
            acc.push(prefix + xs.last())
        }
    }
}

/// The report lines comparing manifest `new` against `old`: added then removed
/// sources, transforms and sinks, and a closing line when no name list changed.
pub open spec fn diff_lines(new: Manifest, old: Manifest) -> Seq<Seq<char>> {
    let (ns, os) = (source_names(new.source@), source_names(old.source@));
    let (nt, ot) = (transform_names(new.transform@), transform_names(old.transform@));
    let (nk, ok) = (sink_names(new.sink@), sink_names(old.sink@));
    marked("  + source: "@, ns, os) + marked("  - source: "@, os, ns) + marked(
        "  + transform: "@,
        nt,
        ot,
    ) + marked("  - transform: "@, ot, nt) + marked("  + sink: "@, nk, ok) + marked(
        "  - sink: "@,
        ok,
        nk,
    ) + if ns == os && nt == ot && nk == ok {
        seq!["  No structural changes detected."@]
    } else {
        Seq::empty()
    }
}

/// Whether `xs` holds `x`.
fn holds(xs: &Vec<String>, x: &String) -> (r: bool)
    ensures
        r == string_views(xs@).contains(x@),
{
    let ghost v = string_views(xs@);
    let mut i: usize = 0;
    while i < xs.len()
        invariant
            i <= xs@.len(),
            v == string_views(xs@),
            forall|j: int| 0 <= j < i ==> v[j] != x@,
        decreases xs@.len() - i,
    {
        if crate::text::str_eq(xs[i].as_str(), x.as_str()) {
            assert(v[i as int] == x@);
            return true;
        }
        i = i + 1;
    }
    false
}

/// Whether two lists hold the same texts in the same order.
fn same_list(a: &Vec<String>, b: &Vec<String>) -> (r: bool)
    ensures
        r == (string_views(a@) == string_views(b@)),
{
    let ghost va = string_views(a@);
    let ghost vb = string_views(b@);
    if a.len() != b.len() {
        assert(va.len() != vb.len());
        return false;
    }
    let mut i: usize = 0;
    while i < a.len()
        invariant
            i <= a@.len(),
            a@.len() == b@.len(),
            va == string_views(a@),
            vb == string_views(b@),
            forall|j: int| 0 <= j < i ==> va[j] == vb[j],
        decreases a@.len() - i,
    {
        if !crate::text::str_eq(a[i].as_str(), b[i].as_str()) {
            assert(va[i as int] != vb[i as int]);
            return false;
        }
        i = i + 1;
    }
    assert(va =~= vb);
    true
}

/// Appends the `marked` lines for `xs` against `others`.
fn push_marked(out: &mut Vec<String>, prefix: &str, xs: &Vec<String>, others: &Vec<String>)
    ensures
        string_views(final(out)@) == string_views(old(out)@) + marked(
            prefix@,
            string_views(xs@),
            string_views(others@),
        ),
{
    let ghost vx = string_views(xs@);
    let ghost vo = string_views(others@);
    let ghost start = string_views(out@);
    let mut i: usize = 0;
    while i < xs.len()
        invariant
            i <= xs@.len(),
            vx == string_views(xs@),
            vo == string_views(others@),
            start == string_views(old(out)@),
            string_views(out@) == start + marked(prefix@, vx.take(i as int), vo),
        decreases xs@.len() - i,
    {
        proof {
            assert(vx.take(i + 1).drop_last() =~= vx.take(i as int));
            assert(vx.take(i + 1).last() == vx[i as int]);
        }
        let ghost before = out@;
        if !holds(others, &xs[i]) {
            out.push(crate::text::cat(prefix, xs[i].as_str()));
            proof {
                assert(string_views(out@) =~= string_views(before).push(
                    prefix@ + vx[i as int],
                ));
            }
        }
        i = i + 1;
    }
    proof {
        assert(vx.take(xs@.len() as int) =~= vx);
    }
}

fn source_list(m: &Manifest) -> (r: Vec<String>)
    ensures
        string_views(r@) == source_names(m.source@),
{
    let mut out: Vec<String> = Vec::new();
    let mut i: usize = 0;
    while i < m.source.len()
        invariant
            i <= m.source@.len(),
            out@.len() == i,
            string_views(out@) == source_names(m.source@).take(i as int),
        decreases m.source@.len() - i,
    {
        let ghost before = out@;
        out.push(m.source[i].name.clone());
        proof {
            assert(out@ == before.push(m.source@[i as int].name));
            assert forall|j: int| 0 <= j < i + 1 implies #[trigger] string_views(out@)[j] == source_names(m.source@)[j] by {
                if j < i {
                    assert(string_views(before)[j] == source_names(m.source@).take(i as int)[j]);
                }
            }
            assert(string_views(out@) =~= source_names(m.source@).take(i + 1));
        }
        i = i + 1;
    }
    proof {
        assert(source_names(m.source@).take(m.source@.len() as int) =~= source_names(m.source@));
    }
    out
}

fn transform_list(m: &Manifest) -> (r: Vec<String>)
    ensures
        string_views(r@) == transform_names(m.transform@),
{
    let mut out: Vec<String> = Vec::new();
    let mut i: usize = 0;
    while i < m.transform.len()
        invariant
            i <= m.transform@.len(),
            out@.len() == i,
            string_views(out@) == transform_names(m.transform@).take(i as int),
        decreases m.transform@.len() - i,
    {
        let ghost before = out@;
        out.push(m.transform[i].name.clone());
        proof {
            assert(out@ == before.push(m.transform@[i as int].name));
            assert forall|j: int| 0 <= j < i + 1 implies #[trigger] string_views(out@)[j] == transform_names(m.transform@)[j] by {
                if j < i {
                    assert(string_views(before)[j] == transform_names(m.transform@).take(i as int)[j]);
                }
            }
            assert(string_views(out@) =~= transform_names(m.transform@).take(i + 1));
        }
        i = i + 1;
    }
    proof {
        assert(transform_names(m.transform@).take(m.transform@.len() as int) =~= transform_names(
            m.transform@,
        ));
    }
    out
}

fn sink_list(m: &Manifest) -> (r: Vec<String>)
    ensures
        string_views(r@) == sink_names(m.sink@),
{
    let mut out: Vec<String> = Vec::new();
    let mut i: usize = 0;
    while i < m.sink.len()
        invariant
            i <= m.sink@.len(),
            out@.len() == i,
            string_views(out@) == sink_names(m.sink@).take(i as int),
        decreases m.sink@.len() - i,
    {
        let ghost before = out@;
        out.push(m.sink[i].name.clone());
        proof {
            assert(out@ == before.push(m.sink@[i as int].name));
            assert forall|j: int| 0 <= j < i + 1 implies #[trigger] string_views(out@)[j] == sink_names(m.sink@)[j] by {
                if j < i {
                    assert(string_views(before)[j] == sink_names(m.sink@).take(i as int)[j]);
                }
            }
            assert(string_views(out@) =~= sink_names(m.sink@).take(i + 1));
        }
        i = i + 1;
    }
    proof {
        assert(sink_names(m.sink@).take(m.sink@.len() as int) =~= sink_names(m.sink@));
    }
    out
}

/// The report lines comparing manifest `new` against `old` (`diff_lines`).
pub fn manifest_diff(new: &Manifest, old: &Manifest) -> (r: Vec<String>)
    ensures
        string_views(r@) == diff_lines(*new, *old),
{
    let ns = source_list(new);
    let os = source_list(old);
    let nt = transform_list(new);
    let ot = transform_list(old);
    let nk = sink_list(new);
    let ok = sink_list(old);
    let mut out: Vec<String> = Vec::new();
    push_marked(&mut out, "  + source: ", &ns, &os);
    push_marked(&mut out, "  - source: ", &os, &ns);
    push_marked(&mut out, "  + transform: ", &nt, &ot);
    push_marked(&mut out, "  - transform: ", &ot, &nt);
    push_marked(&mut out, "  + sink: ", &nk, &ok);
    push_marked(&mut out, "  - sink: ", &ok, &nk);
    let ghost body = string_views(out@);
    if same_list(&ns, &os) && same_list(&nt, &ot) && same_list(&nk, &ok) {
        out.push(String::from_str("  No structural changes detected."));
        proof {
            assert(string_views(out@) =~= body + seq!["  No structural changes detected."@]);
        }
    } else {
        proof {
            assert(body + Seq::<Seq<char>>::empty() =~= body);
        }
    }
    out
}

/// Comparing a manifest with itself reports no added or removed node, only the
/// closing line.
pub proof fn law_diff_same(m: Manifest)
    ensures
        diff_lines(m, m) == seq!["  No structural changes detected."@],
{
    lemma_marked_self("  + source: "@, source_names(m.source@), source_names(m.source@).len() as int);
    lemma_marked_self("  - source: "@, source_names(m.source@), source_names(m.source@).len() as int);
    lemma_marked_self("  + transform: "@, transform_names(m.transform@), transform_names(m.transform@).len() as int);
    lemma_marked_self("  - transform: "@, transform_names(m.transform@), transform_names(m.transform@).len() as int);
    lemma_marked_self("  + sink: "@, sink_names(m.sink@), sink_names(m.sink@).len() as int);
    lemma_marked_self("  - sink: "@, sink_names(m.sink@), sink_names(m.sink@).len() as int);
    assert(source_names(m.source@).take(source_names(m.source@).len() as int) =~= source_names(m.source@));
    assert(transform_names(m.transform@).take(transform_names(m.transform@).len() as int) =~= transform_names(m.transform@));
    assert(sink_names(m.sink@).take(sink_names(m.sink@).len() as int) =~= sink_names(m.sink@));
    assert(diff_lines(m, m) =~= seq!["  No structural changes detected."@]);
}

proof fn lemma_marked_self(prefix: Seq<char>, xs: Seq<Seq<char>>, k: int)
    requires
        0 <= k <= xs.len(),
    ensures
        marked(prefix, xs.take(k), xs).len() == 0,
    decreases k,
{
    if k > 0 {
        lemma_marked_self(prefix, xs, k - 1);
        assert(xs.take(k).drop_last() =~= xs.take(k - 1));
        assert(xs.take(k).last() == xs[k - 1]);
        assert(xs.contains(xs[k - 1]));
    }
}

} // verus!

verus! {

/// Every line of `s` marks an addition or a removal: its third character is
/// `+` or `-`.
pub open spec fn all_marks(s: Seq<Seq<char>>) -> bool {
    forall|j: int| 0 <= j < s.len() ==> (#[trigger] s[j]).len() >= 3 && (s[j][2] == '+' || s[j][2] == '-')
}

/// The lines `marked` writes all begin with their prefix.
proof fn lemma_marked_marks(prefix: Seq<char>, xs: Seq<Seq<char>>, others: Seq<Seq<char>>)
    requires
        prefix.len() >= 3,
        prefix[2] == '+' || prefix[2] == '-',
    ensures
        all_marks(marked(prefix, xs, others)),
    decreases xs.len(),
{
    if xs.len() > 0 {
        lemma_marked_marks(prefix, xs.drop_last(), others);
        let acc = marked(prefix, xs.drop_last(), others);
        if !others.contains(xs.last()) {
            let l = prefix + xs.last();
            assert(l[2] == prefix[2]);
            assert forall|j: int| 0 <= j < acc.push(l).len() implies (#[trigger] acc.push(l)[j]).len()
                >= 3 && (acc.push(l)[j][2] == '+' || acc.push(l)[j][2] == '-') by {
                if j < acc.len() {
                    assert(acc.push(l)[j] == acc[j]);
                }
            }
        }
    }
}

/// `marked` writes a line for each element of `xs` that `others` lacks.
proof fn lemma_marked_has(prefix: Seq<char>, xs: Seq<Seq<char>>, others: Seq<Seq<char>>, k: int)
    requires
        0 <= k < xs.len(),
        !others.contains(xs[k]),
    ensures
        marked(prefix, xs, others).contains(prefix + xs[k]),
    decreases xs.len(),
{
    let acc = marked(prefix, xs.drop_last(), others);
    if k == xs.len() - 1 {
        assert(marked(prefix, xs, others) == acc.push(prefix + xs.last()));
        assert(acc.push(prefix + xs.last())[acc.len() as int] == prefix + xs[k]);
    } else {
        assert(xs.drop_last()[k] == xs[k]);
        lemma_marked_has(prefix, xs.drop_last(), others, k);
        let j = choose|j: int| 0 <= j < acc.len() && acc[j] == prefix + xs[k];
        if !others.contains(xs.last()) {
            assert(acc.push(prefix + xs.last())[j] == acc[j]);
        }
    }
}

/// Concatenations of marking lines are marking lines.
proof fn lemma_marks_concat(a: Seq<Seq<char>>, b: Seq<Seq<char>>)
    requires
        all_marks(a),
        all_marks(b),
    ensures
        all_marks(a + b),
{
    assert forall|j: int| 0 <= j < (a + b).len() implies (#[trigger] (a + b)[j]).len() >= 3 && ((a
        + b)[j][2] == '+' || (a + b)[j][2] == '-') by {
        if j < a.len() {
            assert((a + b)[j] == a[j]);
        } else {
            assert((a + b)[j] == b[j - a.len()]);
        }
    }
}

/// A line of `a` is a line of `a + b`, and so is a line of `b`.
proof fn lemma_contains_concat(a: Seq<Seq<char>>, b: Seq<Seq<char>>, x: Seq<char>)
    ensures
        a.contains(x) ==> (a + b).contains(x),
        b.contains(x) ==> (a + b).contains(x),
{
    if a.contains(x) {
        let j = choose|j: int| 0 <= j < a.len() && a[j] == x;
        assert((a + b)[j] == x);
    }
    if b.contains(x) {
        let j = choose|j: int| 0 <= j < b.len() && b[j] == x;
        assert((a + b)[a.len() + j] == x);
    }
}

/// What the diff of two manifests reports (`manifest_diff`): a `+` line for
/// every source, transform and sink name of the new manifest that the old one
/// lacks, a `-` line for every name of the old one that the new one lacks, and
/// the closing "no structural changes" line exactly when the new manifest's
/// source, transform and sink name lists equal the old one's.
pub proof fn law_diff_report(new: Manifest, old: Manifest)
    ensures
        diff_lines(new, old).contains("  No structural changes detected."@) <==> (source_names(
            new.source@,
        ) == source_names(old.source@) && transform_names(new.transform@) == transform_names(
            old.transform@,
        ) && sink_names(new.sink@) == sink_names(old.sink@)),
        forall|x: Seq<char>|
            #[trigger] source_names(new.source@).contains(x) && !source_names(old.source@).contains(x)
                ==> diff_lines(new, old).contains("  + source: "@ + x),
        forall|x: Seq<char>|
            #[trigger] source_names(old.source@).contains(x) && !source_names(new.source@).contains(x)
                ==> diff_lines(new, old).contains("  - source: "@ + x),
        forall|x: Seq<char>|
            #[trigger] transform_names(new.transform@).contains(x) && !transform_names(
                old.transform@,
            ).contains(x) ==> diff_lines(new, old).contains("  + transform: "@ + x),
        forall|x: Seq<char>|
            #[trigger] transform_names(old.transform@).contains(x) && !transform_names(
                new.transform@,
            ).contains(x) ==> diff_lines(new, old).contains("  - transform: "@ + x),
        forall|x: Seq<char>|
            #[trigger] sink_names(new.sink@).contains(x) && !sink_names(old.sink@).contains(x)
                ==> diff_lines(new, old).contains("  + sink: "@ + x),
        forall|x: Seq<char>|
            #[trigger] sink_names(old.sink@).contains(x) && !sink_names(new.sink@).contains(x)
                ==> diff_lines(new, old).contains("  - sink: "@ + x),
{
    let (ns, os) = (source_names(new.source@), source_names(old.source@));
    let (nt, ot) = (transform_names(new.transform@), transform_names(old.transform@));
    let (nk, ok) = (sink_names(new.sink@), sink_names(old.sink@));
    reveal_strlit("  + source: ");
    reveal_strlit("  - source: ");
    reveal_strlit("  + transform: ");
    reveal_strlit("  - transform: ");
    reveal_strlit("  + sink: ");
    reveal_strlit("  - sink: ");
    reveal_strlit("  No structural changes detected.");
    let m1 = marked("  + source: "@, ns, os);
    let m2 = marked("  - source: "@, os, ns);
    let m3 = marked("  + transform: "@, nt, ot);
    let m4 = marked("  - transform: "@, ot, nt);
    let m5 = marked("  + sink: "@, nk, ok);
    let m6 = marked("  - sink: "@, ok, nk);
    lemma_marked_marks("  + source: "@, ns, os);
    lemma_marked_marks("  - source: "@, os, ns);
    lemma_marked_marks("  + transform: "@, nt, ot);
    lemma_marked_marks("  - transform: "@, ot, nt);
    lemma_marked_marks("  + sink: "@, nk, ok);
    lemma_marked_marks("  - sink: "@, ok, nk);
    lemma_marks_concat(m1, m2);
    lemma_marks_concat(m1 + m2, m3);
    lemma_marks_concat(m1 + m2 + m3, m4);
    lemma_marks_concat(m1 + m2 + m3 + m4, m5);
    lemma_marks_concat(m1 + m2 + m3 + m4 + m5, m6);
    let body = m1 + m2 + m3 + m4 + m5 + m6;
    let closing = "  No structural changes detected."@;
    let tail = if ns == os && nt == ot && nk == ok {
        seq![closing]
    } else {
        Seq::<Seq<char>>::empty()
    };
    assert(diff_lines(new, old) == body + tail);
    if ns == os && nt == ot && nk == ok {
        assert((body + tail)[body.len() as int] == closing);
    } else {
        assert(body + tail =~= body);
        if body.contains(closing) {
            let j = choose|j: int| 0 <= j < body.len() && body[j] == closing;
            assert(body[j][2] == 'N');
        }
    }
    // Each added or removed name has its line, in its part of the report.
    assert forall|x: Seq<char>| #[trigger] ns.contains(x) && !os.contains(x) implies diff_lines(
        new,
        old,
    ).contains("  + source: "@ + x) by {
        let k = choose|k: int| 0 <= k < ns.len() && ns[k] == x;
        lemma_marked_has("  + source: "@, ns, os, k);
        lemma_contains_concat(m1, m2, "  + source: "@ + x);
        lemma_contains_concat(m1 + m2, m3, "  + source: "@ + x);
        lemma_contains_concat(m1 + m2 + m3, m4, "  + source: "@ + x);
        lemma_contains_concat(m1 + m2 + m3 + m4, m5, "  + source: "@ + x);
        lemma_contains_concat(m1 + m2 + m3 + m4 + m5, m6, "  + source: "@ + x);
        lemma_contains_concat(body, tail, "  + source: "@ + x);
    }
    assert forall|x: Seq<char>| #[trigger] os.contains(x) && !ns.contains(x) implies diff_lines(
        new,
        old,
    ).contains("  - source: "@ + x) by {
        let k = choose|k: int| 0 <= k < os.len() && os[k] == x;
        lemma_marked_has("  - source: "@, os, ns, k);
        lemma_contains_concat(m1, m2, "  - source: "@ + x);
        lemma_contains_concat(m1 + m2, m3, "  - source: "@ + x);
        lemma_contains_concat(m1 + m2 + m3, m4, "  - source: "@ + x);
        lemma_contains_concat(m1 + m2 + m3 + m4, m5, "  - source: "@ + x);
        lemma_contains_concat(m1 + m2 + m3 + m4 + m5, m6, "  - source: "@ + x);
        lemma_contains_concat(body, tail, "  - source: "@ + x);
    }
    assert forall|x: Seq<char>| #[trigger] nt.contains(x) && !ot.contains(x) implies diff_lines(
        new,
        old,
    ).contains("  + transform: "@ + x) by {
        let k = choose|k: int| 0 <= k < nt.len() && nt[k] == x;
        lemma_marked_has("  + transform: "@, nt, ot, k);
        lemma_contains_concat(m1 + m2, m3, "  + transform: "@ + x);
        lemma_contains_concat(m1 + m2 + m3, m4, "  + transform: "@ + x);
        lemma_contains_concat(m1 + m2 + m3 + m4, m5, "  + transform: "@ + x);
        lemma_contains_concat(m1 + m2 + m3 + m4 + m5, m6, "  + transform: "@ + x);
        lemma_contains_concat(body, tail, "  + transform: "@ + x);
    }
    assert forall|x: Seq<char>| #[trigger] ot.contains(x) && !nt.contains(x) implies diff_lines(
        new,
        old,
    ).contains("  - transform: "@ + x) by {
        let k = choose|k: int| 0 <= k < ot.len() && ot[k] == x;
        lemma_marked_has("  - transform: "@, ot, nt, k);
        lemma_contains_concat(m1 + m2 + m3, m4, "  - transform: "@ + x);
        lemma_contains_concat(m1 + m2 + m3 + m4, m5, "  - transform: "@ + x);
        lemma_contains_concat(m1 + m2 + m3 + m4 + m5, m6, "  - transform: "@ + x);
        lemma_contains_concat(body, tail, "  - transform: "@ + x);
    }
    assert forall|x: Seq<char>| #[trigger] nk.contains(x) && !ok.contains(x) implies diff_lines(
        new,
        old,
    ).contains("  + sink: "@ + x) by {
        let k = choose|k: int| 0 <= k < nk.len() && nk[k] == x;
        lemma_marked_has("  + sink: "@, nk, ok, k);
        lemma_contains_concat(m1 + m2 + m3 + m4, m5, "  + sink: "@ + x);
        lemma_contains_concat(m1 + m2 + m3 + m4 + m5, m6, "  + sink: "@ + x);
        lemma_contains_concat(body, tail, "  + sink: "@ + x);
    }
    assert forall|x: Seq<char>| #[trigger] ok.contains(x) && !nk.contains(x) implies diff_lines(
        new,
        old,
    ).contains("  - sink: "@ + x) by {
        let k = choose|k: int| 0 <= k < ok.len() && ok[k] == x;
        lemma_marked_has("  - sink: "@, ok, nk, k);
        lemma_contains_concat(m1 + m2 + m3 + m4 + m5, m6, "  - sink: "@ + x);
        lemma_contains_concat(body, tail, "  - sink: "@ + x);
    }
}

} // verus!
