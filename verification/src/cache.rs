//! Caching layer: keys and file locations of cached intermediate results.
use vstd::prelude::*;
use vstd::utf8::encode_utf8;
use crate::incremental::{content_hash, hash_bytes};

verus! {

/// The path `dir` joined with `name` (`std::path::Path::join`), as text.
pub uninterp spec fn joined_path(dir: Seq<char>, name: Seq<char>) -> Seq<char>;

/// Joins a file name onto a directory (`Path::join`). The result is a function of
/// the two texts; the platform's separator rules are left unsaid.
#[verifier::external_body]
fn path_join(dir: &str, name: &str) -> (r: String)
    ensures
        r@ == joined_path(dir@, name@),
{
    std::path::Path::new(dir).join(name).to_string_lossy().into_owned()
}

/// The cache key of a node and its input hash: the content hash of `node:input`.
pub open spec fn spec_cache_key(node_name: Seq<char>, input_hash: Seq<char>) -> Seq<char> {
    content_hash(encode_utf8(node_name + ":"@ + input_hash))
}

/// Cache for intermediate pipeline results, stored as files in a directory.
#[derive(Debug)]
pub struct ResultCache {
    cache_dir: String,
    /// Key to whether the cached result is still valid.
    validity: Vec<(String, bool)>,
}

impl ResultCache {
    /// The cache directory.
    pub closed spec fn spec_dir(&self) -> Seq<char> {
        self.cache_dir@
    }

    /// Keys marked invalid.
    pub closed spec fn spec_invalid(&self) -> Set<Seq<char>> {
        Set::new(|k: Seq<char>| exists|i: int| 0 <= i < self.validity@.len() && self.validity@[i].0@ == k && !self.validity@[i].1)
    }

    /// A cache kept in the given directory (which the caller creates).
    pub fn new(cache_dir: &str) -> (r: Self)
        ensures
            r.spec_dir() == cache_dir@,
            r.spec_invalid() == Set::<Seq<char>>::empty(),
    {
        let r = ResultCache { cache_dir: cache_dir.to_owned(), validity: Vec::new() };
        assert(r.spec_invalid() =~= Set::<Seq<char>>::empty());
        r
    }

    /// The directory the cache lives in.
    pub fn dir(&self) -> (r: &str)
        ensures
            r@ == self.spec_dir(),
    {
        self.cache_dir.as_str()
    }

    /// Generates a cache key from a node name and its input hash
    /// (see `spec_cache_key`); 64 hexadecimal digits.
    pub fn cache_key(&self, node_name: &str, input_hash: &str) -> (r: String)
        ensures
            r@ == spec_cache_key(node_name@, input_hash@),
            r@.len() == 64,
    {
        let combined = crate::text::cat3(node_name, ":", input_hash);
        hash_bytes(combined.as_str().as_bytes())
    }

    /// The file that holds the entry `key`: `<key>.cache` in the cache directory.
    pub fn cache_path(&self, key: &str) -> (r: String)
        ensures
            r@ == joined_path(self.spec_dir(), key@ + ".cache"@),
    {
        let name = crate::text::cat(key, ".cache");
        path_join(self.cache_dir.as_str(), name.as_str())
    }

    /// Marks an entry invalid (the caller removes its file).
    pub fn invalidate(&mut self, key: &str)
        ensures
            final(self).spec_dir() == old(self).spec_dir(),
            final(self).spec_invalid() == old(self).spec_invalid().insert(key@),
    {
        self.validity.push((key.to_owned(), false));
        proof {
            assert forall|k: Seq<char>| #[trigger] self.spec_invalid().contains(k) == old(self).spec_invalid().insert(key@).contains(k) by {
                if old(self).spec_invalid().contains(k) {
                    let i = choose|i: int| 0 <= i < old(self).validity@.len() && old(self).validity@[i].0@ == k && !old(self).validity@[i].1;
                    assert(self.validity@[i] == old(self).validity@[i]);
                }
                if k == key@ {
                    assert(self.validity@[old(self).validity@.len() as int].0@ == k);
                }
                if self.spec_invalid().contains(k) {
                    let i = choose|i: int| 0 <= i < self.validity@.len() && self.validity@[i].0@ == k && !self.validity@[i].1;
                    if i < old(self).validity@.len() {
                        assert(self.validity@[i] == old(self).validity@[i]);
                    }
                }
            }
            assert(self.spec_invalid() =~= old(self).spec_invalid().insert(key@));
        }
    }
}

} // verus!
