use vstd::prelude::*;

use std::collections::BTreeMap;
use crate::strutil::str_eq;

verus! {

// --- The cache's mathematical model ---
//
// The cache is a mapping from a signature `"<user>/<name>:<ref>"` to a
// resolved commit hash.  It is held as a sequence of key-value entries
// with pairwise-distinct keys; its meaning is the map built from them.

/// The map described by a sequence of key-value entries (later entries
/// win, though well-formed caches never hold a key twice).
pub open spec fn tree_map(entries: Seq<(String, String)>) -> Map<Seq<char>, Seq<char>>
    decreases entries.len(),
{
    if entries.len() == 0 {
        Map::<Seq<char>, Seq<char>>::empty()
    } else {
        tree_map(entries.drop_last()).insert(entries.last().0@, entries.last().1@)
    }
}

/// Pairwise-distinct keys.
pub open spec fn unique_keys(entries: Seq<(String, String)>) -> bool {
    forall|i: int, j: int|
        0 <= i < j < entries.len() ==> (#[trigger] entries[i]).0@ != (#[trigger] entries[j]).0@
}

proof fn lemma_tree_map_absent(entries: Seq<(String, String)>, k: Seq<char>)
    requires
        forall|i: int| 0 <= i < entries.len() ==> (#[trigger] entries[i]).0@ != k,
    ensures
        !tree_map(entries).contains_key(k),
    decreases entries.len(),
{
    if entries.len() > 0 {
        lemma_tree_map_absent(entries.drop_last(), k);
    }
}

proof fn lemma_tree_map_index(entries: Seq<(String, String)>, i: int)
    requires
        unique_keys(entries),
        0 <= i < entries.len(),
    ensures
        tree_map(entries).contains_key(entries[i].0@),
        tree_map(entries)[entries[i].0@] == entries[i].1@,
    decreases entries.len(),
{
    if i == entries.len() - 1 {
    } else {
        lemma_tree_map_index(entries.drop_last(), i);
    }
}

proof fn lemma_tree_map_dom(entries: Seq<(String, String)>, k: Seq<char>)
    requires
        tree_map(entries).contains_key(k),
    ensures
        exists|i: int| 0 <= i < entries.len() && (#[trigger] entries[i]).0@ == k,
    decreases entries.len(),
{
    if entries.len() > 0 {
        if entries.last().0@ == k {
            assert(entries[entries.len() - 1].0@ == k);
        } else {
            lemma_tree_map_dom(entries.drop_last(), k);
            let i = choose|i: int|
                0 <= i < entries.drop_last().len() && (#[trigger] entries.drop_last()[i]).0@ == k;
            assert(entries[i].0@ == k);
        }
    }
}

proof fn lemma_tree_map_remove(entries: Seq<(String, String)>, i: int)
    requires
        unique_keys(entries),
        0 <= i < entries.len(),
    ensures
        tree_map(entries.remove(i)) =~= tree_map(entries).remove(entries[i].0@),
    decreases entries.len(),
{
    let k = entries[i].0@;
    if i == entries.len() - 1 {
        assert(entries.remove(i) =~= entries.drop_last());
        assert forall|j: int| 0 <= j < entries.drop_last().len() implies (#[trigger] entries
            .drop_last()[j]).0@ != k by {
            assert(entries[j].0@ == entries.drop_last()[j].0@);
        }
        lemma_tree_map_absent(entries.drop_last(), k);
    } else {
        let dl = entries.drop_last();
        assert(unique_keys(dl)) by {
            assert forall|a: int, b: int| 0 <= a < b < dl.len() implies (#[trigger] dl[a]).0@ != (
            #[trigger] dl[b]).0@ by {
                assert(entries[a].0@ == dl[a].0@ && entries[b].0@ == dl[b].0@);
            }
        }
        lemma_tree_map_remove(dl, i);
        assert(entries.remove(i).drop_last() =~= dl.remove(i));
        assert(entries.remove(i).last() == entries.last());
        assert(entries.last().0@ != k);
    }
}

/// Signatures other than `sig` that still reference the hash `h`.
pub open spec fn spec_other_ref(
    m: Map<Seq<char>, Seq<char>>,
    sig: Seq<char>,
    h: Seq<char>,
) -> bool {
    exists|k: Seq<char>| #[trigger] m.contains_key(k) && k != sig && m[k] == h
}

/// The hash whose archive an update of `sig` to `h` may delete: the old
/// hash of `sig`, and only when it changes and no other signature still
/// references it.
pub open spec fn spec_evict(
    m: Map<Seq<char>, Seq<char>>,
    sig: Seq<char>,
    h: Seq<char>,
) -> Option<Seq<char>> {
    if m.contains_key(sig) && m[sig] != h && !spec_other_ref(m, sig, m[sig]) {
        Some(m[sig])
    } else {
        None
    }
}

/// The path of the archive for `hash` under `repo_dir`.
pub open spec fn spec_archive_path(repo_dir: Seq<char>, hash: Seq<char>) -> Seq<char> {
    repo_dir + "/"@ + hash + ".tar.gz"@
}

/// The cache key built from a repository identity and a ref.
pub open spec fn spec_cache_key(id: Seq<char>, reff: Seq<char>) -> Seq<char> {
    id + ":"@ + reff
}

// --- Trusted serialization of the persisted map ---

/// The JSON text that the persisted form of a map serializes to.
pub uninterp spec fn json_of(m: Map<Seq<char>, Seq<char>>) -> Seq<char>;

/// The map a JSON text deserializes to, `None` when the text is not a
/// JSON object of strings.
pub uninterp spec fn json_parse_of(s: Seq<char>) -> Option<Map<Seq<char>, Seq<char>>>;

/// Relies on serde_json::to_string for a map of strings: the output is a
/// function of the map alone (keys are written in sorted order), it
/// cannot fail for string keys, and deserializing it recovers the same
/// map.
#[verifier::external_body]
fn map_to_json(entries: &Vec<(String, String)>) -> (r: String)
    ensures
        r@ == json_of(tree_map(entries@)),
        json_parse_of(r@) == Some(tree_map(entries@)),
{
    let mut m: BTreeMap<String, String> = BTreeMap::new();
    for e in entries.iter() {
        m.insert(e.0.clone(), e.1.clone());
    }
    serde_json::to_string(&m).unwrap_or_default()
}

/// Relies on serde_json::from_str for a map of strings: the result is a
/// function of the text alone, `Err` exactly when the text is not a JSON
/// object of strings; a `BTreeMap` holds each key once.
#[verifier::external_body]
fn json_to_map(s: &str) -> (r: Option<Vec<(String, String)>>)
    ensures
        match r {
            Some(v) => json_parse_of(s@) == Some(tree_map(v@)) && unique_keys(v@),
            None => json_parse_of(s@) is None,
        },
{
    match serde_json::from_str::<BTreeMap<String, String>>(s) {
        Ok(m) => Some(m.into_iter().collect()),
        Err(_) => None,
    }
}

// --- The cache itself ---

/// A persistent mapping from repository signatures to resolved commit
/// hashes, owned by one run of the tool.  Loading from and writing to
/// disk are the caller's part; the rules of reuse and eviction are here.
#[derive(Debug)]
pub struct Cache {
    dir: String,
    tree: Vec<(String, String)>,
}

impl Cache {
    /// The directory that holds the persisted map and the archives.
    pub closed spec fn spec_dir(&self) -> Seq<char> {
        self.dir@
    }

    /// The entries of the in-memory map, in insertion order.
    pub closed spec fn entries(&self) -> Seq<(String, String)> {
        self.tree@
    }

    /// The mapping from signatures to hashes.
    pub open spec fn map(&self) -> Map<Seq<char>, Seq<char>> {
        tree_map(self.entries())
    }

    /// Well-formed: no signature occurs twice.
    pub open spec fn wf(&self) -> bool {
        unique_keys(self.entries())
    }

    /// A cache rooted at the given directory, with an empty map.
    pub fn new_custom(dir: &str) -> (c: Cache)
        ensures
            c.wf(),
            c.spec_dir() == dir@,
            c.map() == Map::<Seq<char>, Seq<char>>::empty(),
            c.entries() =~= Seq::<(String, String)>::empty(),
    {
        Cache { dir: dir.to_owned(), tree: Vec::new() }
    }

    /// Fill the map from the persisted JSON text.  Text that is not a
    /// JSON object of strings yields an empty map: the tool still works
    /// with a cold cache.
    pub fn load(self, contents: &str) -> (c: Cache)
        ensures
            c.wf(),
            c.spec_dir() == self.spec_dir(),
            match json_parse_of(contents@) {
                Some(m) => c.map() == m,
                None => c.map() == Map::<Seq<char>, Seq<char>>::empty(),
            },
    {
        match json_to_map(contents) {
            Some(v) => Cache { dir: self.dir, tree: v },
            None => Cache { dir: self.dir, tree: Vec::new() },
        }
    }

    /// The serialized form of the map, to be written to the config file.
    /// Reloading this text recovers the same map.
    pub fn persist_string(&self) -> (r: String)
        ensures
            r@ == json_of(self.map()),
            json_parse_of(r@) == Some(self.map()),
    {
        map_to_json(&self.tree)
    }

    /// The directory that holds the persisted map and the archives.
    pub fn dir(&self) -> (r: &str)
        ensures
            r@ == self.spec_dir(),
    {
        self.dir.as_str()
    }

    /// The entries of the in-memory map, in insertion order.
    pub fn tree(&self) -> (r: &Vec<(String, String)>)
        ensures
            r@ == self.entries(),
    {
        &self.tree
    }

    /// The path of the persisted map file under this cache's directory.
    pub fn config_path(&self) -> (r: String)
        ensures
            r@ == self.spec_dir() + "/config.json"@,
    {
        self.dir.clone().concat("/config.json")
    }

    /// Pure read: the hash that `signature` maps to.
    pub fn lookup(&self, signature: &str) -> (r: Option<String>)
        requires
            self.wf(),
        ensures
            r is Some <==> self.map().contains_key(signature@),
            r matches Some(h) ==> self.map()[signature@] == h@,
    {
        let n = self.tree.len();
        let mut i: usize = 0;
        while i < n
            invariant
                self.wf(),
                n == self.entries().len(),
                0 <= i <= n,
                forall|j: int| 0 <= j < i ==> (#[trigger] self.entries()[j]).0@ != signature@,
            decreases n - i,
        {
            let e = &self.tree[i];
            if str_eq(e.0.as_str(), signature) {
                proof {
                    lemma_tree_map_index(self.entries(), i as int);
                }
                return Some(e.1.clone());
            }
            i = i + 1;
        }
        proof {
            lemma_tree_map_absent(self.entries(), signature@);
        }
        None
    }

    /// The cached hash for a repository identity at a ref, if any.
    pub fn get_cached_hash(&self, repo_id: &str, repo_ref: &str) -> (r: Option<String>)
        requires
            self.wf(),
        ensures
            r is Some <==> self.map().contains_key(spec_cache_key(repo_id@, repo_ref@)),
            r matches Some(h) ==> self.map()[spec_cache_key(repo_id@, repo_ref@)] == h@,
    {
        let key = repo_id.to_owned().concat(":").concat(repo_ref);
        proof {
            assert(key@ =~= spec_cache_key(repo_id@, repo_ref@));
        }
        self.lookup(key.as_str())
    }

    /// Some signature that maps to `hash`, if any.
    pub fn get_repo_location(&self, hash: &str) -> (r: Option<String>)
        ensures
            r is Some <==> exists|i: int|
                0 <= i < self.entries().len() && (#[trigger] self.entries()[i]).1@ == hash@,
            r matches Some(k) ==> exists|i: int|
                0 <= i < self.entries().len() && (#[trigger] self.entries()[i]).0@ == k@ && (
                self.entries()[i]).1@ == hash@,
    {
        let n = self.tree.len();
        let mut i: usize = 0;
        while i < n
            invariant
                n == self.entries().len(),
                0 <= i <= n,
                forall|j: int| 0 <= j < i ==> (#[trigger] self.entries()[j]).1@ != hash@,
            decreases n - i,
        {
            let e = &self.tree[i];
            if str_eq(e.1.as_str(), hash) {
                return Some(e.0.clone());
            }
            i = i + 1;
        }
        None
    }

    /// Record that `signature` resolved to `hash`.  Idempotent when the
    /// mapping is already present.  Returns the path of the archive file
    /// that is no longer referenced and should be deleted, if any: the
    /// old hash's archive, only when the hash changed and no other
    /// signature still references the old hash.
    pub fn update(&mut self, signature: &str, hash: &str, repo_dir: &str) -> (evict: Option<
        String,
    >)
        requires
            old(self).wf(),
        ensures
            final(self).wf(),
            final(self).spec_dir() == old(self).spec_dir(),
            final(self).map() == old(self).map().insert(signature@, hash@),
            old(self).map().contains_key(signature@) && old(self).map()[signature@] == hash@
                ==> final(self).entries() == old(self).entries() && evict is None,
            match spec_evict(old(self).map(), signature@, hash@) {
                Some(oh) => evict matches Some(p) && p@ == spec_archive_path(repo_dir@, oh),
                None => evict is None,
            },
    {
        let ghost m0 = self.map();
        let n = self.tree.len();
        let mut i: usize = 0;
        while i < n
            invariant
                *self == *old(self),
                self.wf(),
                m0 == self.map(),
                n == self.entries().len(),
                0 <= i <= n,
                forall|j: int| 0 <= j < i ==> (#[trigger] self.entries()[j]).0@ != signature@,
            decreases n - i,
        {
            let e = &self.tree[i];
            if str_eq(e.0.as_str(), signature) {
                proof {
                    lemma_tree_map_index(self.entries(), i as int);
                }
                if str_eq(e.1.as_str(), hash) {
                    // Already mapped to this hash: nothing changes.
                    proof {
                        assert(m0.insert(signature@, hash@) =~= m0);
                    }
                    return None;
                }
                let old_hash = self.tree[i].1.clone();
                // Is the old hash still referenced by another signature?
                let mut used = false;
                let mut j: usize = 0;
                while j < n
                    invariant
                        *self == *old(self),
                        self.wf(),
                        m0 == self.map(),
                        n == self.entries().len(),
                        0 <= i < n,
                        0 <= j <= n,
                        self.entries()[i as int].0@ == signature@,
                        self.entries()[i as int].1@ == old_hash@,
                        used ==> exists|l: int|
                            0 <= l < n && l != i && (#[trigger] self.entries()[l]).1@ == old_hash@,
                        !used ==> forall|l: int|
                            0 <= l < j && l != i ==> (#[trigger] self.entries()[l]).1@
                                != old_hash@,
                    decreases n - j,
                {
                    if j != i {
                        let e2 = &self.tree[j];
                        if str_eq(e2.1.as_str(), old_hash.as_str()) {
                            used = true;
                        }
                    }
                    j = j + 1;
                }
                // Replace the entry: drop the old one, append the new.
                proof {
                    lemma_tree_map_remove(self.entries(), i as int);
                }
                let ghost pre = self.entries();
                let sig_owned = signature.to_owned();
                let hash_owned = hash.to_owned();
                self.tree.remove(i);
                self.tree.push((sig_owned, hash_owned));
                proof {
                    assert(self.entries().drop_last() =~= pre.remove(i as int));
                    assert(self.map() =~= m0.insert(signature@, hash@));
                    assert forall|a: int, b: int|
                        0 <= a < b < self.entries().len() implies (#[trigger] self.entries()[a]).0@
                        != (#[trigger] self.entries()[b]).0@ by {
                        if b < self.entries().len() - 1 {
                            assert(self.entries()[a] == pre.remove(i as int)[a]);
                            assert(self.entries()[b] == pre.remove(i as int)[b]);
                        } else {
                            assert(self.entries()[a] == pre.remove(i as int)[a]);
                        }
                    }
                }
                if used {
                    proof {
                        let l = choose|l: int|
                            0 <= l < n && l != i && (#[trigger] pre[l]).1@ == old_hash@;
                        lemma_tree_map_index(pre, l);
                        assert(pre[l].0@ != signature@);
                        assert(spec_other_ref(m0, signature@, old_hash@));
                    }
                    return None;
                } else {
                    proof {
                        if spec_other_ref(m0, signature@, old_hash@) {
                            let k = choose|k: Seq<char>| #[trigger]
                                m0.contains_key(k) && k != signature@ && m0[k] == old_hash@;
                            lemma_tree_map_dom(pre, k);
                            let l = choose|l: int|
                                0 <= l < pre.len() && (#[trigger] pre[l]).0@ == k;
                            lemma_tree_map_index(pre, l);
                            assert(pre[l].1@ == old_hash@);
                            assert(l != i);
                            assert(false);
                        }
                    }
                    let path = repo_dir.to_owned().concat("/").concat(old_hash.as_str()).concat(
                        ".tar.gz",
                    );
                    proof {
                        assert(path@ =~= spec_archive_path(repo_dir@, old_hash@));
                    }
                    return Some(path);
                }
            }
            i = i + 1;
        }
        // The signature is new: append it; nothing can be evicted.
        proof {
            lemma_tree_map_absent(self.entries(), signature@);
        }
        let ghost pre = self.entries();
        self.tree.push((signature.to_owned(), hash.to_owned()));
        proof {
            assert(self.entries().drop_last() =~= pre);
            assert(self.map() =~= m0.insert(signature@, hash@));
            assert forall|a: int, b: int|
                0 <= a < b < self.entries().len() implies (#[trigger] self.entries()[a]).0@ != (
            #[trigger] self.entries()[b]).0@ by {
                if b < self.entries().len() - 1 {
                    assert(self.entries()[a] == pre[a]);
                    assert(self.entries()[b] == pre[b]);
                } else {
                    assert(self.entries()[a] == pre[a]);
                    assert(self.entries()[b].0@ == signature@);
                }
            }
        }
        None
    }

    /// Forget every cached mapping.  Removing the directory's files is
    /// the caller's part.
    pub fn clean(&mut self)
        ensures
            final(self).wf(),
            final(self).spec_dir() == old(self).spec_dir(),
            final(self).map() == Map::<Seq<char>, Seq<char>>::empty(),
            final(self).entries() =~= Seq::<(String, String)>::empty(),
    {
        self.tree = Vec::new();
    }

    /// The cache needs no repair in memory; the mapping is kept as it is.
    pub fn repair(self) -> (c: Cache)
        ensures
            c == self,
    {
        self
    }
}

/// The path of the archive file for `hash` under `repo_dir`:
/// `<repo_dir>/<hash>.tar.gz`.  Pure path construction, no existence
/// check.
pub fn archive_path_for(repo_dir: &str, hash: &str) -> (r: String)
    ensures
        r@ == spec_archive_path(repo_dir@, hash@),
{
    let r = repo_dir.to_owned().concat("/").concat(hash).concat(".tar.gz");
    proof {
        assert(r@ =~= spec_archive_path(repo_dir@, hash@));
    }
    r
}

// --- Laws of the update rules ---

/// Updating a signature twice with the same hash changes nothing after
/// the first time: the map is the same, and the second update deletes no
/// archive.
pub proof fn lemma_update_idempotent(
    m: Map<Seq<char>, Seq<char>>,
    sig: Seq<char>,
    h: Seq<char>,
)
    ensures
        m.insert(sig, h).insert(sig, h) == m.insert(sig, h),
        spec_evict(m.insert(sig, h), sig, h) is None,
{
    assert(m.insert(sig, h).insert(sig, h) =~= m.insert(sig, h));
}

/// While some other signature still references a hash, no update of this
/// signature deletes that hash's archive.
pub proof fn lemma_no_evict_while_referenced(
    m: Map<Seq<char>, Seq<char>>,
    sig_a: Seq<char>,
    sig_b: Seq<char>,
    h: Seq<char>,
    h2: Seq<char>,
)
    requires
        m.contains_key(sig_a),
        m.contains_key(sig_b),
        sig_a != sig_b,
        m[sig_a] == h,
        m[sig_b] == h,
    ensures
        spec_evict(m, sig_a, h2) is None,
{
    if m[sig_a] != h2 {
        assert(m.contains_key(sig_b) && sig_b != sig_a && m[sig_b] == m[sig_a]);
        assert(spec_other_ref(m, sig_a, m[sig_a]));
    }
}

} // verus!
