//! Incremental processing: content hashes of sources, to reprocess only what changed.
use vstd::prelude::*;
use vstd::utf8::encode_utf8;
use crate::dag::{first_index, lemma_first_index, lemma_first_index_prefix, lemma_first_index_step};
use sha2::Digest;

verus! {

/// The SHA-256 digest of a byte sequence.
pub uninterp spec fn sha256_digest(data: Seq<u8>) -> Seq<u8>;

/// SHA-256 of the bytes (`sha2::Sha256`): the 32-byte digest.
#[verifier::external_body]
fn sha256(data: &[u8]) -> (r: Vec<u8>)
    ensures
        r@ == sha256_digest(data@),
        r@.len() == 32,
{
    let mut hasher = sha2::Sha256::new();
    hasher.update(data);
    hasher.finalize().to_vec()
}

/// Lower-case hexadecimal digit of `d < 16`.
pub open spec fn hex_digit(d: nat) -> char {
    if d < 10 {
        (48 + d) as char
    } else {
        (87 + d) as char
    }
}

/// Lower-case hexadecimal text of bytes, two digits per byte, high nibble first.
pub open spec fn hex_lower(bytes: Seq<u8>) -> Seq<char>
    decreases bytes.len(),
{
    if bytes.len() == 0 {
        Seq::empty()
    } else {
        hex_lower(bytes.drop_last()) + seq![
            hex_digit((bytes.last() / 16) as nat),
            hex_digit((bytes.last() % 16) as nat),
        ]
    }
}

proof fn lemma_hex_len(bytes: Seq<u8>)
    ensures
        hex_lower(bytes).len() == 2 * bytes.len(),
    decreases bytes.len(),
{
    if bytes.len() > 0 {
        lemma_hex_len(bytes.drop_last());
    }
}

fn hex_char(d: u8) -> (c: char)
    requires
        d < 16,
    ensures
        c == hex_digit(d as nat),
{
    if d < 10 {
        ((48 + d) as u8) as char
    } else {
        ((87 + d) as u8) as char
    }
}

/// Lower-case hexadecimal text of bytes.
pub fn to_hex_lower(bytes: &[u8]) -> (r: String)
    ensures
        r@ == hex_lower(bytes@),
        r@.len() == 2 * bytes@.len(),
{
    let mut s = String::new();
    let mut i: usize = 0;
    while i < bytes.len()
        invariant
            i <= bytes@.len(),
            s@ == hex_lower(bytes@.take(i as int)),
        decreases bytes@.len() - i,
    {
        let b = bytes[i];
        crate::text::push_char(&mut s, hex_char(b / 16));
        crate::text::push_char(&mut s, hex_char(b % 16));
        proof {
            assert(bytes@.take(i + 1).drop_last() =~= bytes@.take(i as int));
            assert(s@ =~= hex_lower(bytes@.take(i + 1)));
        }
        i = i + 1;
    }
    proof {
        assert(bytes@.take(bytes@.len() as int) =~= bytes@);
        lemma_hex_len(bytes@);
    }
    s
}

/// The content hash of bytes: lower-case hexadecimal SHA-256, 64 characters.
pub open spec fn content_hash(data: Seq<u8>) -> Seq<char> {
    hex_lower(sha256_digest(data))
}

/// Computes the SHA-256 hash of arbitrary bytes, as 64 lower-case hex digits.
pub fn hash_bytes(data: &[u8]) -> (r: String)
    ensures
        r@ == content_hash(data@),
        r@.len() == 64,
{
    let digest = sha256(data);
    to_hex_lower(digest.as_slice())
}

/// The content hash of a missing or unreadable file: the empty text.
pub fn hash_file_contents(contents: Option<&[u8]>) -> (r: String)
    ensures
        contents matches Some(c) ==> r@ == content_hash(c@),
        contents is None ==> r@.len() == 0,
{
    match contents {
        Some(c) => hash_bytes(c),
        None => String::new(),
    }
}

/// Source name to stored content hash; the first entry of a name counts.
pub open spec fn hash_map_view(h: Seq<(String, String)>) -> Map<Seq<char>, Seq<char>> {
    let keys = h.map_values(|e: (String, String)| e.0@);
    Map::new(|k: Seq<char>| keys.contains(k), |k: Seq<char>| h[first_index(keys, k)].1@)
}

/// Whether a source with the given current hash needs reprocessing.
pub open spec fn spec_has_changed(m: Map<Seq<char>, Seq<char>>, name: Seq<char>, hash: Seq<char>) -> bool {
    !m.contains_key(name) || m[name] != hash
}

/// State store for incremental processing: hashes of sources from the last run.
#[derive(Debug)]
pub struct IncrementalState {
    /// Source name and content hash.
    pub hashes: Vec<(String, String)>,
}

/// Position of `name` among the stored hashes.
fn hash_position(h: &Vec<(String, String)>, name: &str) -> (r: Option<usize>)
    ensures
        r matches Some(i) ==> i < h@.len() && i as int == first_index(
            h@.map_values(|e: (String, String)| e.0@),
            name@,
        ),
        r is None ==> !h@.map_values(|e: (String, String)| e.0@).contains(name@),
{
    let ghost keys = h@.map_values(|e: (String, String)| e.0@);
    let mut i: usize = 0;
    while i < h.len()
        invariant
            i <= h@.len(),
            keys == h@.map_values(|e: (String, String)| e.0@),
            first_index(keys.take(i as int), name@) == -1,
        decreases h@.len() - i,
    {
        proof {
            lemma_first_index_step(keys, i as int, name@);
        }
        if crate::text::str_eq(h[i].0.as_str(), name) {
            proof {
                lemma_first_index_prefix(keys, i + 1, name@);
            }
            return Some(i);
        }
        i = i + 1;
    }
    proof {
        assert(keys.take(h@.len() as int) =~= keys);
        lemma_first_index(keys, name@);
    }
    None
}

impl Default for IncrementalState {
    fn default() -> (r: Self)
        ensures
            r.hashes@.len() == 0,
    {
        IncrementalState { hashes: Vec::new() }
    }
}

impl IncrementalState {
    /// An empty state: every source counts as changed.
    pub fn new() -> (r: Self)
        ensures
            hash_map_view(r.hashes@) == Map::<Seq<char>, Seq<char>>::empty(),
    {
        let r = IncrementalState { hashes: Vec::new() };
        assert(hash_map_view(r.hashes@) =~= Map::<Seq<char>, Seq<char>>::empty());
        r
    }

    /// Whether the source `name`, whose content now hashes to `current_hash`, changed
    /// since its hash was stored: it did when no hash is stored or the stored one differs.
    pub fn has_changed(&self, name: &str, current_hash: &str) -> (r: bool)
        ensures
            r == spec_has_changed(hash_map_view(self.hashes@), name@, current_hash@),
    {
        match hash_position(&self.hashes, name) {
            Some(i) => {
                proof {
                    lemma_first_index(self.hashes@.map_values(|e: (String, String)| e.0@), name@);
                }
                !crate::text::str_eq(self.hashes[i].1.as_str(), current_hash)
            },
            None => true,
        }
    }

    /// Stores `hash` as the current hash of source `name`.
    pub fn update(&mut self, name: &str, hash: &str)
        ensures
            hash_map_view(final(self).hashes@) == hash_map_view(old(self).hashes@).insert(
                name@,
                hash@,
            ),
    {
        let ghost old_h = self.hashes@;
        let ghost old_keys = old_h.map_values(|e: (String, String)| e.0@);
        match hash_position(&self.hashes, name) {
            Some(i) => {
                let key = self.hashes[i].0.clone();
                self.hashes.set(i, (key, hash.to_owned()));
                proof {
                    lemma_first_index(old_keys, name@);
                    let keys = self.hashes@.map_values(|e: (String, String)| e.0@);
                    assert(keys =~= old_keys);
                    assert forall|k: Seq<char>| keys.contains(k) implies first_index(keys, k)
                        == first_index(old_keys, k) by {}
                    assert(hash_map_view(self.hashes@) =~= hash_map_view(old_h).insert(name@, hash@))
                        by {
                        assert forall|k: Seq<char>| #[trigger] keys.contains(k) && k != name@ implies self.hashes@[first_index(keys, k)]
                            == old_h[first_index(keys, k)] by {
                            lemma_first_index(keys, k);
                            assert(first_index(keys, k) != i);
                        }
                    }
                }
            },
            None => {
                self.hashes.push((name.to_owned(), hash.to_owned()));
                proof {
                    let keys = self.hashes@.map_values(|e: (String, String)| e.0@);
                    assert(keys =~= old_keys.push(name@));
                    assert forall|k: Seq<char>| #[trigger] old_keys.contains(k) implies first_index(keys, k)
                        == first_index(old_keys, k) by {
                        lemma_first_index(old_keys, k);
                        assert(keys.take(old_keys.len() as int) =~= old_keys);
                        lemma_first_index_prefix(keys, old_keys.len() as int, k);
                    }
                    lemma_first_index(keys, name@);
                    assert(keys.take(old_keys.len() as int) =~= old_keys);
                    lemma_first_index_step(keys, old_keys.len() as int, name@);
                    lemma_first_index(old_keys, name@);
                    assert(keys.take(keys.len() as int) =~= keys);
                    assert forall|k: Seq<char>| #[trigger] old_keys.contains(k) implies self.hashes@[first_index(keys, k)]
                        == old_h[first_index(old_keys, k)] by {
                        lemma_first_index(old_keys, k);
                    }
                    assert(hash_map_view(self.hashes@) =~= hash_map_view(old_h).insert(name@, hash@));
                }
            },
        }
    }

    /// The sources, given as (name, current hash), that need reprocessing, in order.
    pub fn changed_sources(&self, sources: &[(String, String)]) -> (r: Vec<String>)
        ensures
            r@.map_values(|s: String| s@) == sources@.filter(
                |e: (String, String)| spec_has_changed(hash_map_view(self.hashes@), e.0@, e.1@),
            ).map_values(|e: (String, String)| e.0@),
    {
        let ghost pred = |e: (String, String)| spec_has_changed(hash_map_view(self.hashes@), e.0@, e.1@);
        let mut out: Vec<String> = Vec::new();
        let mut i: usize = 0;
        while i < sources.len()
            invariant
                i <= sources@.len(),
                pred == |e: (String, String)| spec_has_changed(hash_map_view(self.hashes@), e.0@, e.1@),
                out@.map_values(|s: String| s@) == sources@.take(i as int).filter(pred).map_values(
                    |e: (String, String)| e.0@,
                ),
            decreases sources@.len() - i,
        {
            proof {
                reveal_with_fuel(Seq::<_>::filter, 1);
                assert(sources@.take(i + 1).drop_last() =~= sources@.take(i as int));
            }
            let ghost before = out@;
            if self.has_changed(sources[i].0.as_str(), sources[i].1.as_str()) {
                out.push(sources[i].0.clone());
                proof {
                    assert(out@.map_values(|s: String| s@) =~= before.map_values(|s: String| s@).push(sources@[i as int].0@));
                    assert(sources@.take(i + 1).filter(pred) =~= sources@.take(i as int).filter(pred).push(sources@[i as int]));
                    assert(sources@.take(i + 1).filter(pred).map_values(|e: (String, String)| e.0@) =~= sources@.take(i as int).filter(pred).map_values(|e: (String, String)| e.0@).push(sources@[i as int].0@));
                }
            } else {
                proof {
                    assert(sources@.take(i + 1).filter(pred) =~= sources@.take(i as int).filter(pred));
                }
            }
            i = i + 1;
        }
        proof {
            assert(sources@.take(sources@.len() as int) =~= sources@);
        }
        out
    }
}

/// Storing a source's hash makes it count as unchanged for that hash, and leaves
/// every other source's answer as it was.
pub proof fn law_update_then_unchanged(
    m: Map<Seq<char>, Seq<char>>,
    name: Seq<char>,
    hash: Seq<char>,
    other: Seq<char>,
    other_hash: Seq<char>,
)
    requires
        other != name,
    ensures
        !spec_has_changed(m.insert(name, hash), name, hash),
        spec_has_changed(m.insert(name, hash), other, other_hash) == spec_has_changed(
            m,
            other,
            other_hash,
        ),
{
}

} // verus!
