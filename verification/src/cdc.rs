//! Change data capture: row-level changes between two versions of a feature
//! collection, matched by a key property.
use vstd::prelude::*;
use crate::feature::{
    Feature, FeatureCollection, Properties, Value, ValueV, is_nan_value, prop_contains, prop_get,
    prop_keys, prop_lookup, prop_position, same_lookup,
};
use crate::incremental::{content_hash, hash_bytes};
use vstd::utf8::encode_utf8;
use crate::keyed::{
    entry_keys, key_position, lemma_key_position_distinct, lemma_key_position_range,
    lemma_set_entry_keys, raw_entries, set_entry, set_keyed, find_keyed,
};
use crate::order::{insert_sorted, strictly_sorted, string_views};
use crate::text::{bool_text, signed_decimal};

verus! {

/// The type of change detected.
#[derive(Debug, Clone, Copy, PartialEq, Eq, Structural)]
pub enum ChangeKind {
    Insert,
    Update,
    Delete,
}

/// A single change record.
#[derive(Debug)]
pub struct ChangeRecord {
    pub kind: ChangeKind,
    pub key: String,
    /// For updates: which properties changed, in ascending order.
    pub changed_fields: Vec<String>,
}

/// A changeset between two versions of a feature collection.
#[derive(Debug)]
pub struct ChangeSet {
    pub inserts: usize,
    pub updates: usize,
    pub deletes: usize,
    pub records: Vec<ChangeRecord>,
}

impl ChangeSet {
    /// Whether no change was recorded.
    pub fn is_empty(&self) -> (r: bool)
        ensures
            r == (self.records@.len() == 0),
    {
        self.records.len() == 0
    }

    /// Number of inserts, updates and deletes together.
    pub fn total_changes(&self) -> (r: usize)
        requires
            self.inserts + self.updates + self.deletes <= usize::MAX,
        ensures
            r == self.inserts + self.updates + self.deletes,
    {
        self.inserts + self.updates + self.deletes
    }
}

/// Change detector: features are matched by the value of one property.
pub struct CdcDetector {
    /// Which property to use as the primary key for matching features.
    pub key_field: String,
}

/// The key under which a feature with key value `v` is matched: a string as it
/// is, an integer in decimal, any other value by its debug text.
pub open spec fn key_text(v: ValueV) -> Seq<char> {
    match v {
        ValueV::String(s) => s,
        ValueV::Integer(n) => signed_decimal(n as int),
        ValueV::Null => "Null"@,
        ValueV::Bool(b) => "Bool("@ + bool_text(b) + ")"@,
        ValueV::Float(t) => "Float("@ + t + ")"@,
    }
}

/// The features of `fs` by key: each key once, in order of first appearance,
/// with the index of the last feature carrying it; features without the key
/// property are left out.
pub open spec fn key_index(fs: Seq<Feature>, field: Seq<char>) -> Seq<(Seq<char>, usize)>
    decreases fs.len(),
{
    if fs.len() == 0 {
        Seq::empty()
    } else {
        let acc = key_index(fs.drop_last(), field);
        match prop_get(fs.last().properties@, field) {
            Some(v) => set_entry(acc, key_text(v), (fs.len() - 1) as usize),
            None => acc,
        }
    }
}

/// The keys whose values differ between two property maps (present in one
/// only, or present in both with different values, floats compared as `f64`
/// compares them).
pub open spec fn changed_keys(old: Seq<(String, Value)>, new: Seq<(String, Value)>) -> Set<Seq<char>> {
    Set::new(|k: Seq<char>| !same_lookup(prop_get(old, k), prop_get(new, k)))
}

/// The key text of a value (`key_text`).
fn key_string(v: &Value) -> (r: String)
    ensures
        r@ == key_text(v@),
{
    match v {
        Value::String(s) => s.clone(),
        Value::Integer(n) => crate::text::i64_text(*n),
        Value::Null => String::from_str("Null"),
        Value::Bool(b) => crate::text::cat3("Bool(", crate::text::bool_str(*b), ")"),
        Value::Float(t) => crate::text::cat3("Float(", t.as_str(), ")"),
    }
}

/// Every key in `key_index` is there once, and every index is a feature's.
proof fn lemma_key_index(fs: Seq<Feature>, field: Seq<char>)
    ensures
        entry_keys(key_index(fs, field)).no_duplicates(),
        forall|j: int|
            0 <= j < key_index(fs, field).len() ==> (#[trigger] key_index(fs, field)[j]).1 < fs.len(),
    decreases fs.len(),
{
    if fs.len() > 0 {
        lemma_key_index(fs.drop_last(), field);
        let acc = key_index(fs.drop_last(), field);
        match prop_get(fs.last().properties@, field) {
            Some(v) => {
                lemma_set_entry_keys(acc, key_text(v), (fs.len() - 1) as usize);
                lemma_key_position_range(acc, key_text(v));
            },
            None => {},
        }
    }
}

impl CdcDetector {
    /// A detector matching features by the property `key_field`.
    pub fn new(key_field: &str) -> (r: Self)
        ensures
            r.key_field@ == key_field@,
    {
        CdcDetector { key_field: String::from_str(key_field) }
    }

    /// The features of `fc` by key (`key_index`).
    pub fn index_by_key(&self, fc: &FeatureCollection) -> (r: Vec<(String, usize)>)
        ensures
            raw_entries(r@) == key_index(fc.features@, self.key_field@),
    {
        let ghost fs = fc.features@;
        let mut map: Vec<(String, usize)> = Vec::new();
        let mut i: usize = 0;
        while i < fc.features.len()
            invariant
                i <= fs.len(),
                fs == fc.features@,
                raw_entries(map@) == key_index(fs.take(i as int), self.key_field@),
            decreases fs.len() - i,
        {
            proof {
                assert(fs.take(i + 1).drop_last() =~= fs.take(i as int));
                assert(fs.take(i + 1).last() == fs[i as int]);
            }
            match prop_lookup(&fc.features[i].properties, self.key_field.as_str()) {
                Some(v) => {
                    let key = key_string(v);
                    set_keyed(&mut map, key, i);
                },
                None => {},
            }
            i = i + 1;
        }
        proof {
            assert(fs.take(fs.len() as int) =~= fs);
        }
        map
    }
}


/// The keys among the first `i` keys of `new` whose values differ.
spec fn changed_prefix(old: Seq<(String, Value)>, new: Seq<(String, Value)>, i: int) -> Set<Seq<char>> {
    Set::new(|k: Seq<char>| prop_keys(new).take(i).contains(k) && !same_lookup(prop_get(old, k), prop_get(new, k)))
}

/// The keys among the first `j` keys of `old` that `new` lacks.
spec fn removed_prefix(old: Seq<(String, Value)>, new: Seq<(String, Value)>, j: int) -> Set<Seq<char>> {
    Set::new(|k: Seq<char>| prop_keys(old).take(j).contains(k) && !prop_keys(new).contains(k))
}

impl CdcDetector {
    /// The properties that differ between two versions of a feature
    /// (`changed_keys`), in ascending order.
    pub fn diff_properties(&self, old: &Feature, new: &Feature) -> (r: Vec<String>)
        ensures
            strictly_sorted(string_views(r@)),
            string_views(r@).to_set() == changed_keys(old.properties@, new.properties@),
    {
        let op = &old.properties;
        let np = &new.properties;
        let ghost nk = prop_keys(np@);
        let ghost ok = prop_keys(op@);
        let mut changed: Vec<String> = Vec::new();
        proof {
            assert(string_views(changed@).to_set() =~= changed_prefix(op@, np@, 0));
        }
        let mut i: usize = 0;
        while i < np.len()
            invariant
                i <= np@.len(),
                nk == prop_keys(np@),
                strictly_sorted(string_views(changed@)),
                string_views(changed@).to_set() == changed_prefix(op@, np@, i as int),
            decreases np@.len() - i,
        {
            let ghost before = string_views(changed@).to_set();
            let key = &np[i].0;
            let ghost kv = key@;
            proof {
                assert(nk[i as int] == kv);
                crate::dag::lemma_first_index(nk, kv);
                assert(nk.take(i + 1) =~= nk.take(i as int).push(kv));
            }
            let ghost t0 = nk.take(i as int);
            let ghost t1 = nk.take(i + 1);
            let first = match prop_position(np, key.as_str()) {
                Some(p) => p == i,
                None => false,
            };
            if first {
                let differs = match prop_lookup(op, key.as_str()) {
                    None => true,
                    Some(ov) => !ov.same_as(&np[i].1),
                };
                if differs {
                    insert_sorted(&mut changed, key.clone());
                }
                proof {
                    assert(prop_get(np@, kv) == Some(np@[i as int].1@));
                    assert(!t0.contains(kv)) by {
                        if t0.contains(kv) {
                            let q = choose|q: int| 0 <= q < i && t0[q] == kv;
                            assert(nk[q] == kv);
                        }
                    }
                    assert(!before.contains(kv));
                    assert(t1.contains(kv)) by {
                        assert(t1[i as int] == kv);
                    }
                    assert(changed_prefix(op@, np@, i + 1).contains(kv) == differs);
                    if differs {
                        assert(string_views(changed@).to_set() == before.insert(kv));
                    } else {
                        assert(string_views(changed@).to_set() == before);
                    }
                    assert(string_views(changed@).to_set() =~= changed_prefix(op@, np@, i + 1)) by {
                        assert forall|k: Seq<char>| #[trigger] changed_prefix(op@, np@, i + 1).contains(k)
                            && k != kv implies before.contains(k) by {
                            assert(t1.contains(k));
                            let q = choose|q: int| 0 <= q < i + 1 && t1[q] == k;
                            assert(t0[q] == k);
                        }
                        assert forall|k: Seq<char>| before.contains(k) implies #[trigger] changed_prefix(op@, np@, i + 1).contains(k) by {
                            let q = choose|q: int| 0 <= q < i && t0[q] == k;
                            assert(t1[q] == k);
                        }
                    }
                }
            } else {
                proof {
                    let p = crate::dag::first_index(nk, kv);
                    assert(0 <= p < i);
                    assert(t0[p] == kv);
                    assert(string_views(changed@).to_set() =~= changed_prefix(op@, np@, i + 1)) by {
                        assert forall|k: Seq<char>| #[trigger] changed_prefix(op@, np@, i + 1).contains(k) implies before.contains(k) by {
                            let q = choose|q: int| 0 <= q < i + 1 && t1[q] == k;
                            if q < i {
                                assert(t0[q] == k);
                            }
                        }
                        assert forall|k: Seq<char>| before.contains(k) implies #[trigger] changed_prefix(op@, np@, i + 1).contains(k) by {
                            let q = choose|q: int| 0 <= q < i && t0[q] == k;
                            assert(t1[q] == k);
                        }
                    }
                }
            }
            i = i + 1;
        }
        let ghost upd = string_views(changed@).to_set();
        proof {
            assert(nk.take(np@.len() as int) =~= nk);
            assert(string_views(changed@).to_set() =~= upd.union(removed_prefix(op@, np@, 0)));
        }
        let mut j: usize = 0;
        while j < op.len()
            invariant
                j <= op@.len(),
                ok == prop_keys(op@),
                nk == prop_keys(np@),
                strictly_sorted(string_views(changed@)),
                string_views(changed@).to_set() == upd.union(removed_prefix(op@, np@, j as int)),
            decreases op@.len() - j,
        {
            let ghost before = string_views(changed@).to_set();
            let key = &op[j].0;
            let ghost kv = key@;
            proof {
                assert(ok[j as int] == kv);
                assert(ok.take(j + 1) =~= ok.take(j as int).push(kv));
            }
            let ghost u0 = ok.take(j as int);
            let ghost u1 = ok.take(j + 1);
            let absent = !prop_contains(np, key.as_str());
            if absent {
                insert_sorted(&mut changed, key.clone());
            }
            proof {
                assert(u1.contains(kv)) by {
                    assert(u1[j as int] == kv);
                }
                assert(removed_prefix(op@, np@, j + 1).contains(kv) == absent);
                if absent {
                    assert(string_views(changed@).to_set() == before.insert(kv));
                } else {
                    assert(string_views(changed@).to_set() == before);
                }
                assert(string_views(changed@).to_set() =~= upd.union(removed_prefix(op@, np@, j + 1))) by {
                    assert forall|k: Seq<char>| #[trigger] removed_prefix(op@, np@, j + 1).contains(k)
                        && k != kv implies removed_prefix(op@, np@, j as int).contains(k) by {
                        let q = choose|q: int| 0 <= q < j + 1 && u1[q] == k;
                        assert(u0[q] == k);
                    }
                    assert forall|k: Seq<char>| removed_prefix(op@, np@, j as int).contains(k) implies #[trigger] removed_prefix(op@, np@, j + 1).contains(k) by {
                        let q = choose|q: int| 0 <= q < j && u0[q] == k;
                        assert(u1[q] == k);
                    }
                }
            }
            j = j + 1;
        }
        proof {
            assert(ok.take(op@.len() as int) =~= ok);
            let target = changed_keys(op@, np@);
            assert(string_views(changed@).to_set() =~= target) by {
                assert forall|k: Seq<char>| target.contains(k) implies #[trigger] string_views(changed@).to_set().contains(k) by {
                    if !nk.contains(k) {
                        assert(prop_get(np@, k) is None);
                        assert(ok.contains(k));
                        assert(removed_prefix(op@, np@, op@.len() as int).contains(k));
                    } else {
                        assert(changed_prefix(op@, np@, np@.len() as int).contains(k));
                    }
                }
                assert forall|k: Seq<char>| #[trigger] string_views(changed@).to_set().contains(k) implies target.contains(k) by {
                    if removed_prefix(op@, np@, op@.len() as int).contains(k) {
                        assert(prop_get(op@, k) is Some);
                    }
                }
            }
        }
        changed
    }
}


/// An expected change: its kind, its key, and the set of changed fields.
pub type ChangeSpec = (ChangeKind, Seq<char>, Set<Seq<char>>);

/// Inserts and updates, one per key of the new version in key order: an insert
/// for a key the old version lacks, an update for a key whose properties differ.
pub open spec fn upsert_changes(
    new_idx: Seq<(Seq<char>, usize)>,
    old_idx: Seq<(Seq<char>, usize)>,
    oldfs: Seq<Feature>,
    newfs: Seq<Feature>,
) -> Seq<ChangeSpec>
    decreases new_idx.len(),
{
    if new_idx.len() == 0 {
        Seq::empty()
    } else {
        let acc = upsert_changes(new_idx.drop_last(), old_idx, oldfs, newfs);
        let k = new_idx.last().0;
        let i = new_idx.last().1;
        let j = key_position(old_idx, k);
        if j < 0 {
            acc.push((ChangeKind::Insert, k, Set::empty()))
        } else {
            let ch = changed_keys(oldfs[old_idx[j].1 as int].properties@, newfs[i as int].properties@);
            if ch == Set::<Seq<char>>::empty() {
                acc
            } else {
                acc.push((ChangeKind::Update, k, ch))
            }
        }
    }
}

/// Deletes, one per key of the old version that the new version lacks, in key order.
pub open spec fn delete_changes(old_idx: Seq<(Seq<char>, usize)>, new_idx: Seq<(Seq<char>, usize)>) -> Seq<
    ChangeSpec,
>
    decreases old_idx.len(),
{
    if old_idx.len() == 0 {
        Seq::empty()
    } else {
        let acc = delete_changes(old_idx.drop_last(), new_idx);
        let k = old_idx.last().0;
        if key_position(new_idx, k) < 0 {
            acc.push((ChangeKind::Delete, k, Set::empty()))
        } else {
            acc
        }
    }
}

/// The changes from `old` to `new` when features are matched by property `field`.
pub open spec fn expected_changes(field: Seq<char>, old: Seq<Feature>, new: Seq<Feature>) -> Seq<ChangeSpec> {
    let oi = key_index(old, field);
    let ni = key_index(new, field);
    upsert_changes(ni, oi, old, new) + delete_changes(oi, ni)
}

/// Record `r` is the expected change `c`, its fields listed in ascending order.
pub open spec fn matches_change(r: ChangeRecord, c: ChangeSpec) -> bool {
    &&& r.kind == c.0
    &&& r.key@ == c.1
    &&& strictly_sorted(string_views(r.changed_fields@))
    &&& string_views(r.changed_fields@).to_set() == c.2
}

/// Number of records of kind `k`.
pub open spec fn count_kind(rs: Seq<ChangeRecord>, k: ChangeKind) -> nat
    decreases rs.len(),
{
    if rs.len() == 0 {
        0
    } else {
        count_kind(rs.drop_last(), k) + if rs.last().kind == k { 1nat } else { 0nat }
    }
}

/// Appends a record and keeps the counters.
fn push_record(
    records: &mut Vec<ChangeRecord>,
    count: &mut usize,
    kind: ChangeKind,
    key: String,
    fields: Vec<String>,
)
    requires
        *old(count) <= old(records)@.len(),
    ensures
        final(records)@ == old(records)@.push(
            ChangeRecord { kind, key, changed_fields: fields },
        ),
        *final(count) == *old(count) + 1,
{
    records.push(ChangeRecord { kind, key, changed_fields: fields });
    let n = records.len();
    assert(*count < n);
    *count = *count + 1;
}

proof fn lemma_count_push(rs: Seq<ChangeRecord>, r: ChangeRecord)
    ensures
        forall|k: ChangeKind|
            #[trigger] count_kind(rs.push(r), k) == count_kind(rs, k) + if r.kind == k { 1nat } else { 0nat },
{
    assert(rs.push(r).drop_last() =~= rs);
}

impl CdcDetector {
    /// The changes from `old` to `new` (`expected_changes`): inserts and updates
    /// in the new version's key order, then deletes in the old version's key
    /// order, with one counter per kind.
    pub fn detect_changes(&self, old: &FeatureCollection, new: &FeatureCollection) -> (r: ChangeSet)
        ensures
            r.records@.len() == expected_changes(self.key_field@, old.features@, new.features@).len(),
            forall|i: int|
                0 <= i < r.records@.len() ==> matches_change(
                    #[trigger] r.records@[i],
                    expected_changes(self.key_field@, old.features@, new.features@)[i],
                ),
            r.inserts == count_kind(r.records@, ChangeKind::Insert),
            r.updates == count_kind(r.records@, ChangeKind::Update),
            r.deletes == count_kind(r.records@, ChangeKind::Delete),
            r.inserts + r.updates + r.deletes == r.records@.len(),
    {
        let old_map = self.index_by_key(old);
        let new_map = self.index_by_key(new);
        let ghost oi = raw_entries(old_map@);
        let ghost ni = raw_entries(new_map@);
        let ghost oldfs = old.features@;
        let ghost newfs = new.features@;
        proof {
            lemma_key_index(oldfs, self.key_field@);
            lemma_key_index(newfs, self.key_field@);
        }
        let mut records: Vec<ChangeRecord> = Vec::new();
        let mut inserts: usize = 0;
        let mut updates: usize = 0;
        let mut deletes: usize = 0;
        let mut p: usize = 0;
        while p < new_map.len()
            invariant
                p <= ni.len(),
                ni == raw_entries(new_map@),
                oi == raw_entries(old_map@),
                oi == key_index(oldfs, self.key_field@),
                ni == key_index(newfs, self.key_field@),
                oldfs == old.features@,
                newfs == new.features@,
                forall|j: int| 0 <= j < oi.len() ==> (#[trigger] oi[j]).1 < oldfs.len(),
                forall|j: int| 0 <= j < ni.len() ==> (#[trigger] ni[j]).1 < newfs.len(),
                records@.len() == upsert_changes(ni.take(p as int), oi, oldfs, newfs).len(),
                forall|q: int|
                    0 <= q < records@.len() ==> matches_change(
                        #[trigger] records@[q],
                        upsert_changes(ni.take(p as int), oi, oldfs, newfs)[q],
                    ),
                inserts == count_kind(records@, ChangeKind::Insert),
                updates == count_kind(records@, ChangeKind::Update),
                deletes == count_kind(records@, ChangeKind::Delete),
                inserts + updates + deletes == records@.len(),
            decreases ni.len() - p,
        {
            let ghost before = records@;
            proof {
                assert(ni.take(p + 1).drop_last() =~= ni.take(p as int));
                assert(ni.take(p + 1).last() == ni[p as int]);
                assert(ni[p as int].1 < newfs.len());
            }
            let key = &new_map[p].0;
            let i = new_map[p].1;
            match find_keyed(&old_map, key.as_str()) {
                None => {
                    push_record(&mut records, &mut inserts, ChangeKind::Insert, key.clone(), Vec::new());
                    proof {
                        lemma_count_push(before, records@.last());
                        assert(string_views(records@.last().changed_fields@).to_set() =~= Set::<Seq<char>>::empty());
                    }
                },
                Some(q) => {
                    proof {
                        lemma_key_position_range(oi, key@);
                        assert(oi[q as int].1 < oldfs.len());
                    }
                    let changed = self.diff_properties(&old.features[old_map[q].1], &new.features[i]);
                    if changed.len() > 0 {
                        proof {
                            assert(string_views(changed@).to_set().contains(string_views(changed@)[0]));
                        }
                        push_record(&mut records, &mut updates, ChangeKind::Update, key.clone(), changed);
                        proof {
                            lemma_count_push(before, records@.last());
                        }
                    } else {
                        proof {
                            assert(string_views(changed@).to_set() =~= Set::<Seq<char>>::empty());
                        }
                    }
                },
            }
            p = p + 1;
        }
        proof {
            assert(ni.take(ni.len() as int) =~= ni);
        }
        let ghost ups = records@;
        let mut q: usize = 0;
        while q < old_map.len()
            invariant
                q <= oi.len(),
                ni == raw_entries(new_map@),
                oi == raw_entries(old_map@),
                ups.len() == upsert_changes(ni, oi, oldfs, newfs).len(),
                records@.len() == ups.len() + delete_changes(oi.take(q as int), ni).len(),
                forall|x: int| 0 <= x < ups.len() ==> #[trigger] records@[x] == ups[x],
                forall|x: int|
                    0 <= x < ups.len() ==> matches_change(
                        #[trigger] ups[x],
                        upsert_changes(ni, oi, oldfs, newfs)[x],
                    ),
                forall|x: int|
                    ups.len() <= x < records@.len() ==> matches_change(
                        #[trigger] records@[x],
                        delete_changes(oi.take(q as int), ni)[x - ups.len()],
                    ),
                inserts == count_kind(records@, ChangeKind::Insert),
                updates == count_kind(records@, ChangeKind::Update),
                deletes == count_kind(records@, ChangeKind::Delete),
                inserts + updates + deletes == records@.len(),
            decreases oi.len() - q,
        {
            let ghost before = records@;
            proof {
                assert(oi.take(q + 1).drop_last() =~= oi.take(q as int));
                assert(oi.take(q + 1).last() == oi[q as int]);
            }
            let key = &old_map[q].0;
            match find_keyed(&new_map, key.as_str()) {
                None => {
                    push_record(&mut records, &mut deletes, ChangeKind::Delete, key.clone(), Vec::new());
                    proof {
                        lemma_count_push(before, records@.last());
                        assert(string_views(records@.last().changed_fields@).to_set() =~= Set::<Seq<char>>::empty());
                    }
                },
                Some(_) => {},
            }
            q = q + 1;
        }
        proof {
            assert(oi.take(oi.len() as int) =~= oi);
        }
        ChangeSet { inserts, updates, deletes, records }
    }
}


/// No property of any feature is a not-a-number float.
pub open spec fn no_nan_props(fs: Seq<Feature>) -> bool {
    forall|i: int, j: int|
        0 <= i < fs.len() && 0 <= j < fs[i].properties@.len() ==> !is_nan_value(
            #[trigger] fs[i].properties@[j].1@,
        )
}

proof fn lemma_no_self_upserts(idx: Seq<(Seq<char>, usize)>, fs: Seq<Feature>, p: int)
    requires
        entry_keys(idx).no_duplicates(),
        0 <= p <= idx.len(),
        no_nan_props(fs),
        forall|j: int| 0 <= j < idx.len() ==> (#[trigger] idx[j]).1 < fs.len(),
    ensures
        upsert_changes(idx.take(p), idx, fs, fs).len() == 0,
    decreases p,
{
    if p > 0 {
        lemma_no_self_upserts(idx, fs, p - 1);
        assert(idx.take(p).drop_last() =~= idx.take(p - 1));
        assert(idx.take(p).last() == idx[p - 1]);
        lemma_key_position_distinct(idx, p - 1);
        let f = idx[p - 1].1 as int;
        let props = fs[f].properties@;
        assert forall|k: Seq<char>| same_lookup(#[trigger] prop_get(props, k), prop_get(props, k)) by {
            if prop_keys(props).contains(k) {
                crate::dag::lemma_first_index(prop_keys(props), k);
                let j = crate::dag::first_index(prop_keys(props), k);
                assert(!is_nan_value(fs[f].properties@[j].1@));
            }
        }
        assert(changed_keys(props, props) =~= Set::<Seq<char>>::empty());
    }
}

proof fn lemma_no_self_deletes(idx: Seq<(Seq<char>, usize)>, q: int)
    requires
        entry_keys(idx).no_duplicates(),
        0 <= q <= idx.len(),
    ensures
        delete_changes(idx.take(q), idx).len() == 0,
    decreases q,
{
    if q > 0 {
        lemma_no_self_deletes(idx, q - 1);
        assert(idx.take(q).drop_last() =~= idx.take(q - 1));
        assert(idx.take(q).last() == idx[q - 1]);
        lemma_key_position_distinct(idx, q - 1);
    }
}

/// Comparing a collection with itself finds no change, when no property is a
/// not-a-number float (which differs from itself).
pub proof fn law_no_change_on_same(field: Seq<char>, fs: Seq<Feature>)
    requires
        no_nan_props(fs),
    ensures
        expected_changes(field, fs, fs).len() == 0,
{
    let idx = key_index(fs, field);
    lemma_key_index(fs, field);
    lemma_no_self_upserts(idx, fs, idx.len() as int);
    lemma_no_self_deletes(idx, idx.len() as int);
    assert(idx.take(idx.len() as int) =~= idx);
}

} // verus!

verus! {

/// What a property adds to a feature's hash: `key=` and the `{:?}` text of its
/// value.
pub open spec fn hash_entry(props: Seq<(String, Value)>, k: Seq<char>) -> Seq<char> {
    k + "="@ + match prop_get(props, k) {
        Some(v) => crate::feature::value_debug_text(v),
        None => Seq::empty(),
    }
}

/// The entries of the properties named by `keys`, in that order.
pub open spec fn hash_entries(props: Seq<(String, Value)>, keys: Seq<Seq<char>>) -> Seq<char>
    decreases keys.len(),
{
    if keys.len() == 0 {
        Seq::empty()
    } else {
        hash_entries(props, keys.drop_last()) + hash_entry(props, keys.last())
    }
}

/// The property keys of `props`, each once, in ascending order.
fn sorted_prop_keys(props: &Properties) -> (r: Vec<String>)
    ensures
        strictly_sorted(string_views(r@)),
        string_views(r@).to_set() == prop_keys(props@).to_set(),
{
    let ghost pk = prop_keys(props@);
    let mut keys: Vec<String> = Vec::new();
    proof {
        assert(string_views(keys@).to_set() =~= pk.take(0).to_set());
    }
    let mut j: usize = 0;
    while j < props.len()
        invariant
            j <= props@.len(),
            pk == prop_keys(props@),
            strictly_sorted(string_views(keys@)),
            string_views(keys@).to_set() == pk.take(j as int).to_set(),
        decreases props@.len() - j,
    {
        proof {
            crate::order::lemma_take_to_set(pk, j as int);
            assert(pk[j as int] == props@[j as int].0@);
        }
        insert_sorted(&mut keys, props[j].0.clone());
        j = j + 1;
    }
    proof {
        assert(pk.take(props@.len() as int) =~= pk);
    }
    keys
}

impl CdcDetector {
    /// Content hash of a feature: the SHA-256, in lower-case hex, of its
    /// geometry's text (`geometry_text`, the `{:?}` text of the geometry)
    /// followed by `key=value` for each property in ascending key order, values
    /// by their `{:?}` text.
    pub fn feature_hash(geometry_text: &str, feature: &Feature) -> (r: String)
        ensures
            forall|keys: Seq<Seq<char>>|
                #[trigger] strictly_sorted(keys) && keys.to_set() == prop_keys(
                    feature.properties@,
                ).to_set() ==> r@ == content_hash(
                    encode_utf8(geometry_text@ + hash_entries(feature.properties@, keys)),
                ),
    {
        let props = &feature.properties;
        let keys = sorted_prop_keys(props);
        let ghost kv = string_views(keys@);
        let mut text = String::from_str(geometry_text);
        let mut j: usize = 0;
        while j < keys.len()
            invariant
                j <= keys@.len(),
                kv == string_views(keys@),
                text@ == geometry_text@ + hash_entries(props@, kv.take(j as int)),
            decreases keys@.len() - j,
        {
            proof {
                assert(kv.take(j + 1).drop_last() =~= kv.take(j as int));
                assert(kv.take(j + 1).last() == keys@[j as int]@);
            }
            text.append(keys[j].as_str());
            text.append("=");
            match prop_lookup(props, keys[j].as_str()) {
                Some(v) => {
                    let d = v.debug_text();
                    text.append(d.as_str());
                },
                None => {},
            }
            proof {
                assert(text@ =~= geometry_text@ + hash_entries(props@, kv.take(j + 1)));
            }
            j = j + 1;
        }
        proof {
            assert(kv.take(keys@.len() as int) =~= kv);
            assert forall|other: Seq<Seq<char>>|
                #[trigger] strictly_sorted(other) && other.to_set() == prop_keys(props@).to_set()
                implies other == kv by {
                crate::order::lemma_sorted_unique(kv, other);
            }
        }
        hash_bytes(text.as_str().as_bytes())
    }
}

} // verus!
