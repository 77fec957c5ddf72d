//! The package cache: archives downloaded once are kept under a key made of
//! the package name and the archive's file name, and used again without
//! any network access.
use vstd::prelude::*;
use vstd::string::*;
use crate::text::{last_segment, last_segment_of, text_eq};

verus! {

/// The cache key of the archive at `url` for package `name`:
/// `{name}-{last segment of url}`.
pub open spec fn cache_key_of(name: Seq<char>, url: Seq<char>) -> Seq<char> {
    name + "-"@ + last_segment(url)
}

/// Builds the cache key of an archive.
pub fn cache_key(name: &str, url: &str) -> (r: String)
    ensures
        r@ == cache_key_of(name@, url@),
{
    let mut k = String::from_str(name);
    k.append("-");
    let seg = last_segment_of(url);
    k.append(seg.as_str());
    k
}

/// What to do to obtain an archive.
#[derive(Debug)]
pub enum CacheStep {
    /// The archive is cached under this key: read it from there.
    Hit(String),
    /// It is not: download it, store it under this key, then `note` the key.
    Miss(String),
}

/// The keys of the archives that the cache holds.
#[derive(Debug)]
pub struct PackageCache {
    pub keys: Vec<String>,
}

/// The number of downloads that the requests `reqs`, made in turn against a
/// cache holding `keys`, cause: each missing key is downloaded once and is
/// cached from then on.
pub open spec fn downloads(keys: Set<Seq<char>>, reqs: Seq<Seq<char>>) -> nat
    decreases reqs.len(),
{
    if reqs.len() == 0 {
        0
    } else {
        let k = reqs[0];
        (if keys.contains(k) { 0nat } else { 1nat }) + downloads(keys.insert(k), reqs.drop_first())
    }
}

impl PackageCache {
    /// The set of cached keys.
    pub open spec fn key_set(&self) -> Set<Seq<char>> {
        self.keys@.map_values(|k: String| k@).to_set()
    }

    /// An empty cache.
    pub fn new() -> (r: PackageCache)
        ensures
            r.key_set() == Set::<Seq<char>>::empty(),
    {
        let r = PackageCache { keys: Vec::new() };
        assert(r.key_set() =~= Set::<Seq<char>>::empty());
        r
    }

    /// Whether `key` is cached.
    pub fn holds(&self, key: &str) -> (r: bool)
        ensures
            r == self.key_set().contains(key@),
    {
        let mut i: usize = 0;
        while i < self.keys.len()
            invariant
                i <= self.keys@.len(),
                forall|k: int| 0 <= k < i ==> self.keys@[k]@ != key@,
            decreases self.keys@.len() - i,
        {
            if text_eq(self.keys[i].as_str(), key) {
                assert(self.keys@.map_values(|k: String| k@)[i as int] == key@);
                assert(self.keys@.map_values(|k: String| k@).contains(key@));
                return true;
            }
            i = i + 1;
        }
        let ghost m = self.keys@.map_values(|k: String| k@);
        assert(!m.contains(key@)) by {
            assert forall|j: int| 0 <= j < m.len() implies m[j] != key@ by {
                assert(m[j] == self.keys@[j]@);
            }
        }
        false
    }

    /// Records that the archive under `key` is now cached.
    pub fn note(&mut self, key: &str)
        ensures
            final(self).key_set() == old(self).key_set().insert(key@),
    {
        let ghost before = self.keys@;
        self.keys.push(String::from_str(key));
        let ghost m0 = before.map_values(|k: String| k@);
        let ghost m1 = self.keys@.map_values(|k: String| k@);
        assert(m1 =~= m0.push(key@));
        assert forall|x: Seq<char>| m1.contains(x) <==> (m0.contains(x) || x == key@) by {
            if m1.contains(x) {
                let j = choose|j: int| 0 <= j < m1.len() && #[trigger] m1[j] == x;
                if j < m0.len() {
                    assert(m0[j] == x);
                }
            }
            if m0.contains(x) {
                let j = choose|j: int| 0 <= j < m0.len() && #[trigger] m0[j] == x;
                assert(m1[j] == x);
            }
            if x == key@ {
                assert(m1[m0.len() as int] == x);
            }
        }
        assert(self.key_set() =~= old(self).key_set().insert(key@));
    }

    /// How to obtain the archive of package `name` at `url`: a cached archive
    /// is trusted as it is, with no freshness check.
    pub fn fetch_step(&self, name: &str, url: &str) -> (r: CacheStep)
        ensures
            match r {
                CacheStep::Hit(k) => k@ == cache_key_of(name@, url@) && self.key_set().contains(k@),
                CacheStep::Miss(k) => k@ == cache_key_of(name@, url@) && !self.key_set().contains(k@),
            },
    {
        let key = cache_key(name, url);
        if self.holds(key.as_str()) {
            CacheStep::Hit(key)
        } else {
            CacheStep::Miss(key)
        }
    }
}

/// Fetching the same archive twice downloads it at most once, and exactly
/// once when it was not cached before.
pub proof fn lemma_second_fetch_hits(keys: Set<Seq<char>>, name: Seq<char>, url: Seq<char>)
    ensures
        downloads(keys, seq![cache_key_of(name, url), cache_key_of(name, url)]) == (if keys.contains(
            cache_key_of(name, url),
        ) {
            0nat
        } else {
            1nat
        }),
{
    reveal_with_fuel(downloads, 3);
    let k = cache_key_of(name, url);
    let reqs = seq![k, k];
    assert(reqs.drop_first() =~= seq![k]);
    assert(seq![k].drop_first() =~= Seq::<Seq<char>>::empty());
    assert(keys.insert(k).contains(k));
}

} // verus!
