//! Lineage tracking: records which input features each output feature came from.
use vstd::prelude::*;

verus! {

/// Reference to a feature of a node.
#[derive(Debug)]
pub struct SourceRef {
    pub node: String,
    pub feature_idx: usize,
}

/// A single lineage record: an output feature and the features it came from.
#[derive(Debug)]
pub struct LineageRecord {
    pub output_node: String,
    pub output_feature_idx: usize,
    pub source_nodes: Vec<SourceRef>,
}

/// Records the provenance of output features.
#[derive(Debug)]
pub struct LineageTracker {
    pub records: Vec<LineageRecord>,
}

/// The sources recorded, in order, for one output feature.
pub open spec fn sources_of(records: Seq<LineageRecord>, node: Seq<char>, idx: usize) -> Seq<
    SourceRef,
>
    decreases records.len(),
{
    if records.len() == 0 {
        Seq::empty()
    } else {
        let prev = sources_of(records.drop_last(), node, idx);
        let r = records.last();
        if r.output_node@ == node && r.output_feature_idx == idx {
            prev + r.source_nodes@
        } else {
            prev
        }
    }
}

/// How many records have the given output node.
pub open spec fn records_for(records: Seq<LineageRecord>, node: Seq<char>) -> nat
    decreases records.len(),
{
    if records.len() == 0 {
        0
    } else {
        records_for(records.drop_last(), node) + if records.last().output_node@ == node {
            1nat
        } else {
            0nat
        }
    }
}

proof fn lemma_records_for_bound(records: Seq<LineageRecord>, node: Seq<char>)
    ensures
        records_for(records, node) <= records.len(),
    decreases records.len(),
{
    if records.len() > 0 {
        lemma_records_for_bound(records.drop_last(), node);
    }
}

/// A summary: each output node once, with its number of records.
pub open spec fn is_summary(records: Seq<LineageRecord>, summary: Seq<(String, usize)>) -> bool {
    &&& summary.map_values(|e: (String, usize)| e.0@).no_duplicates()
    &&& forall|i: int|
        0 <= i < summary.len() ==> #[trigger] summary[i].1 == records_for(records, summary[i].0@)
            && summary[i].1 > 0
    &&& forall|j: int|
        0 <= j < records.len() ==> exists|i: int|
            0 <= i < summary.len() && #[trigger] summary[i].0@ == (#[trigger] records[j]).output_node@
}

impl Default for LineageTracker {
    fn default() -> (r: Self)
        ensures
            r.records@.len() == 0,
    {
        LineageTracker { records: Vec::new() }
    }
}

impl LineageTracker {
    /// An empty tracker.
    pub fn new() -> (r: Self)
        ensures
            r.records@.len() == 0,
    {
        LineageTracker { records: Vec::new() }
    }

    /// Records that an output feature was derived from the given source features.
    pub fn record(&mut self, output_node: &str, output_idx: usize, sources: Vec<SourceRef>)
        ensures
            final(self).records@.len() == old(self).records@.len() + 1,
            final(self).records@.drop_last() == old(self).records@,
            final(self).records@.last().output_node@ == output_node@,
            final(self).records@.last().output_feature_idx == output_idx,
            final(self).records@.last().source_nodes == sources,
    {
        self.records.push(
            LineageRecord {
                output_node: output_node.to_owned(),
                output_feature_idx: output_idx,
                source_nodes: sources,
            },
        );
        assert(self.records@.drop_last() =~= old(self).records@);
    }

    /// Records a one-to-one passthrough: output feature `i` of `output_node` came
    /// from feature `i` of `input_node`, for each `i < count`.
    pub fn record_passthrough(&mut self, output_node: &str, input_node: &str, count: usize)
        ensures
            final(self).records@.len() == old(self).records@.len() + count,
            final(self).records@.take(old(self).records@.len() as int) == old(self).records@,
            forall|i: int|
                0 <= i < count ==> {
                    let r = #[trigger] final(self).records@[old(self).records@.len() + i];
                    &&& r.output_node@ == output_node@
                    &&& r.output_feature_idx == i
                    &&& r.source_nodes@.len() == 1
                    &&& r.source_nodes@[0].node@ == input_node@
                    &&& r.source_nodes@[0].feature_idx == i
                },
    {
        let ghost start = self.records@;
        let mut i: usize = 0;
        while i < count
            invariant
                i <= count,
                self.records@.len() == start.len() + i,
                self.records@.take(start.len() as int) == start,
                forall|j: int|
                    0 <= j < i ==> {
                        let r = #[trigger] self.records@[start.len() + j];
                        &&& r.output_node@ == output_node@
                        &&& r.output_feature_idx == j
                        &&& r.source_nodes@.len() == 1
                        &&& r.source_nodes@[0].node@ == input_node@
                        &&& r.source_nodes@[0].feature_idx == j
                    },
            decreases count - i,
        {
            let mut sources: Vec<SourceRef> = Vec::new();
            sources.push(SourceRef { node: input_node.to_owned(), feature_idx: i });
            let ghost before = self.records@;
            self.record(output_node, i, sources);
            proof {
                assert forall|j: int| 0 <= j < i + 1 implies {
                    let r = #[trigger] self.records@[start.len() + j];
                    &&& r.output_node@ == output_node@
                    &&& r.output_feature_idx == j
                    &&& r.source_nodes@.len() == 1
                    &&& r.source_nodes@[0].node@ == input_node@
                    &&& r.source_nodes@[0].feature_idx == j
                } by {
                    if j < i {
                        assert(self.records@[start.len() + j] == before[start.len() + j]);
                    }
                }
                assert(self.records@.take(start.len() as int) =~= start) by {
                    assert forall|k: int| 0 <= k < start.len() implies self.records@[k] == start[k] by {
                        assert(self.records@[k] == before[k]);
                        assert(before.take(start.len() as int)[k] == start[k]);
                    }
                }
            }
            i = i + 1;
        }
    }

    /// All sources recorded for an output feature, in recording order.
    pub fn sources_for(&self, output_node: &str, feature_idx: usize) -> (r: Vec<&SourceRef>)
        ensures
            r@.map_values(|s: &SourceRef| *s) == sources_of(self.records@, output_node@, feature_idx),
    {
        let ghost recs = self.records@;
        let mut out: Vec<&SourceRef> = Vec::new();
        let mut i: usize = 0;
        while i < self.records.len()
            invariant
                recs == self.records@,
                i <= recs.len(),
                out@.map_values(|s: &SourceRef| *s) == sources_of(recs.take(i as int), output_node@, feature_idx),
            decreases recs.len() - i,
        {
            let r = &self.records[i];
            proof {
                assert(recs.take(i + 1).drop_last() =~= recs.take(i as int));
            }
            if crate::text::str_eq(r.output_node.as_str(), output_node) && r.output_feature_idx == feature_idx {
                let ghost base = out@.map_values(|s: &SourceRef| *s);
                let mut j: usize = 0;
                while j < r.source_nodes.len()
                    invariant
                        j <= r.source_nodes@.len(),
                        out@.map_values(|s: &SourceRef| *s) == base + r.source_nodes@.take(j as int),
                    decreases r.source_nodes@.len() - j,
                {
                    let ghost before = out@;
                    out.push(&r.source_nodes[j]);
                    assert(out@.map_values(|s: &SourceRef| *s) =~= before.map_values(|s: &SourceRef| *s).push(r.source_nodes@[j as int]));
                    assert(r.source_nodes@.take(j + 1) =~= r.source_nodes@.take(j as int).push(r.source_nodes@[j as int]));
                    assert(out@.map_values(|s: &SourceRef| *s) =~= base + r.source_nodes@.take(j + 1));
                    j = j + 1;
                }
                assert(r.source_nodes@.take(r.source_nodes@.len() as int) =~= r.source_nodes@);
            }
            i = i + 1;
        }
        assert(recs.take(recs.len() as int) =~= recs);
        out
    }

    /// Number of records per output node, each node once, in order of first record.
    pub fn summary(&self) -> (r: Vec<(String, usize)>)
        ensures
            is_summary(self.records@, r@),
    {
        let ghost recs = self.records@;
        let mut map: Vec<(String, usize)> = Vec::new();
        let mut i: usize = 0;
        while i < self.records.len()
            invariant
                recs == self.records@,
                i <= recs.len(),
                is_summary(recs.take(i as int), map@),
            decreases recs.len() - i,
        {
            let name = &self.records[i].output_node;
            let ghost prev = recs.take(i as int);
            let ghost cur = recs.take(i + 1);
            proof {
                assert(cur.drop_last() =~= prev);
                assert(cur.last() == recs[i as int]);
            }
            let pos = summary_position(&map, name.as_str());
            let ghost old_map = map@;
            if let Some(k) = pos {
                proof {
                    lemma_records_for_bound(prev, name@);
                }
                let c = map[k].1;
                let key = map[k].0.clone();
                map.set(k, (key, c + 1));
                proof {
                    let keys = old_map.map_values(|e: (String, usize)| e.0@);
                    assert forall|q: int| 0 <= q < map@.len() implies #[trigger] map@[q].1
                        == records_for(cur, map@[q].0@) && map@[q].1 > 0 by {
                        assert(records_for(cur, map@[q].0@) == records_for(prev, map@[q].0@) + if cur.last().output_node@ == map@[q].0@ { 1nat } else { 0nat });
                        if q != k {
                            assert(map@[q] == old_map[q]);
                            assert(keys[q] == old_map[q].0@);
                            assert(keys[k as int] == name@);
                        }
                    }
                    assert(map@.map_values(|e: (String, usize)| e.0@) =~= old_map.map_values(
                        |e: (String, usize)| e.0@,
                    ));
                    assert forall|j: int| 0 <= j < cur.len() implies exists|q: int|
                        0 <= q < map@.len() && #[trigger] map@[q].0@ == (#[trigger] cur[j]).output_node@ by {
                        if j < prev.len() {
                            assert(cur[j] == prev[j]);
                            let q = choose|q: int|
                                0 <= q < old_map.len() && #[trigger] old_map[q].0@ == prev[j].output_node@;
                            assert(map@[q].0@ == old_map[q].0@);
                        } else {
                            assert(map@[k as int].0@ == name@);
                        }
                    }
                }
            } else {
                map.push((name.clone(), 1));
                proof {
                    assert(records_for(prev, name@) == 0) by {
                        lemma_records_for_absent(prev, name@, old_map);
                    }
                    assert forall|q: int| 0 <= q < map@.len() implies #[trigger] map@[q].1
                        == records_for(cur, map@[q].0@) && map@[q].1 > 0 by {
                        if q < old_map.len() {
                            assert(map@[q] == old_map[q]);
                        }
                    }
                    let keys = map@.map_values(|e: (String, usize)| e.0@);
                    let old_keys = old_map.map_values(|e: (String, usize)| e.0@);
                    assert(keys =~= old_keys.push(name@));
                    assert forall|a: int, b: int| 0 <= a < keys.len() && 0 <= b < keys.len() && a != b implies keys[a] != keys[b] by {
                        if a < old_keys.len() && b < old_keys.len() {
                        } else if a == old_keys.len() {
                            assert(old_map[b].0@ != name@);
                        } else {
                            assert(old_map[a].0@ != name@);
                        }
                    }
                    assert forall|j: int| 0 <= j < cur.len() implies exists|q: int|
                        0 <= q < map@.len() && #[trigger] map@[q].0@ == (#[trigger] cur[j]).output_node@ by {
                        if j < prev.len() {
                            assert(cur[j] == prev[j]);
                            let q = choose|q: int|
                                0 <= q < old_map.len() && #[trigger] old_map[q].0@ == prev[j].output_node@;
                            assert(map@[q] == old_map[q]);
                        } else {
                            assert(map@[old_map.len() as int].0@ == name@);
                        }
                    }
                }
            }
            i = i + 1;
        }
        assert(recs.take(recs.len() as int) =~= recs);
        map
    }
}

/// Position of `name` in a summary under construction.
fn summary_position(map: &Vec<(String, usize)>, name: &str) -> (r: Option<usize>)
    ensures
        r matches Some(k) ==> k < map@.len() && map@[k as int].0@ == name@,
        r is None ==> forall|q: int| 0 <= q < map@.len() ==> #[trigger] map@[q].0@ != name@,
{
    let mut k: usize = 0;
    while k < map.len()
        invariant
            k <= map@.len(),
            forall|q: int| 0 <= q < k ==> #[trigger] map@[q].0@ != name@,
        decreases map@.len() - k,
    {
        if crate::text::str_eq(map[k].0.as_str(), name) {
            return Some(k);
        }
        k = k + 1;
    }
    None
}

/// A node missing from a summary has no records.
proof fn lemma_records_for_absent(records: Seq<LineageRecord>, node: Seq<char>, summary: Seq<(String, usize)>)
    requires
        is_summary(records, summary),
        forall|q: int| 0 <= q < summary.len() ==> #[trigger] summary[q].0@ != node,
    ensures
        records_for(records, node) == 0,
    decreases records.len(),
{
    if records.len() > 0 {
        let j = records.len() - 1;
        let q = choose|q: int| 0 <= q < summary.len() && #[trigger] summary[q].0@ == (#[trigger] records[j]).output_node@;
        assert(records.last().output_node@ != node);
        lemma_records_for_absent_prefix(records.drop_last(), node, records);
    }
}

/// Records without the node in a prefix have none.
proof fn lemma_records_for_absent_prefix(prefix: Seq<LineageRecord>, node: Seq<char>, all: Seq<LineageRecord>)
    requires
        prefix.len() <= all.len(),
        forall|j: int| 0 <= j < prefix.len() ==> prefix[j] == all[j],
        forall|j: int| 0 <= j < all.len() ==> #[trigger] all[j].output_node@ != node,
    ensures
        records_for(prefix, node) == 0,
    decreases prefix.len(),
{
    if prefix.len() > 0 {
        lemma_records_for_absent_prefix(prefix.drop_last(), node, all);
        assert(prefix.last() == all[prefix.len() - 1]);
    }
}

} // verus!
