//! The two persistent caches of the engine.  Each one is a flat collection
//! of entries with a unique key, modelled as a map from key to entry; the
//! persistence collaborator loads and saves them as whole-file snapshots,
//! and absence or corruption of a file on load degrades to an empty cache.

use vstd::prelude::*;
use crate::config::Flavor;
use crate::repository::GitKind;
use crate::repository::RepositoryKind;
use crate::strings::str_eq;

verus! {

/// The map that a sequence of entries stands for, later entries winning.
pub open spec fn entries_map<E, K, V>(
    s: Seq<E>,
    key: spec_fn(E) -> K,
    val: spec_fn(E) -> V,
) -> Map<K, V>
    decreases s.len(),
{
    if s.len() == 0 {
        Map::empty()
    } else {
        entries_map(s.drop_last(), key, val).insert(key(s.last()), val(s.last()))
    }
}

/// No two entries share a key.
pub open spec fn distinct_keys<E, K>(s: Seq<E>, key: spec_fn(E) -> K) -> bool {
    forall|i: int, j: int| 0 <= i < j < s.len() ==> key(#[trigger] s[i]) != key(#[trigger] s[j])
}

/// A key is in the map exactly when some entry carries it.
proof fn lemma_entries_map_contains<E, K, V>(s: Seq<E>, key: spec_fn(E) -> K, val: spec_fn(E) -> V, k: K)
    ensures
        entries_map(s, key, val).contains_key(k) <==> exists|i: int|
            0 <= i < s.len() && key(#[trigger] s[i]) == k,
    decreases s.len(),
{
    if s.len() > 0 {
        lemma_entries_map_contains(s.drop_last(), key, val, k);
        if entries_map(s, key, val).contains_key(k) {
            if key(s.last()) == k {
                assert(key(s[s.len() - 1]) == k);
            } else {
                let i = choose|i: int|
                    0 <= i < s.drop_last().len() && key(#[trigger] s.drop_last()[i]) == k;
                assert(s.drop_last()[i] == s[i]);
                assert(key(s[i]) == k);
            }
        }
        if exists|i: int| 0 <= i < s.len() && key(#[trigger] s[i]) == k {
            let i = choose|i: int| 0 <= i < s.len() && key(#[trigger] s[i]) == k;
            if i == s.len() - 1 {
                assert(entries_map(s, key, val).contains_key(k));
            } else {
                assert(s.drop_last()[i] == s[i]);
                assert(entries_map(s.drop_last(), key, val).contains_key(k));
            }
        }
    }
}

/// With distinct keys, the map sends each entry's key to that entry's value.
proof fn lemma_entries_map_get<E, K, V>(
    s: Seq<E>,
    key: spec_fn(E) -> K,
    val: spec_fn(E) -> V,
    i: int,
)
    requires
        distinct_keys(s, key),
        0 <= i < s.len(),
    ensures
        entries_map(s, key, val).contains_key(key(s[i])),
        entries_map(s, key, val)[key(s[i])] == val(s[i]),
    decreases s.len(),
{
    if i == s.len() - 1 {
    } else {
        assert(s.drop_last()[i] == s[i]);
        assert forall|m: int, n: int|
            0 <= m < n < s.drop_last().len() implies key(#[trigger] s.drop_last()[m]) != key(
            #[trigger] s.drop_last()[n],
        ) by {
            assert(s.drop_last()[m] == s[m] && s.drop_last()[n] == s[n]);
        }
        lemma_entries_map_get(s.drop_last(), key, val, i);
        assert(key(s[i]) != key(s[s.len() - 1]));
    }
}

/// With distinct keys, dropping the entry at `i` removes exactly its key.
proof fn lemma_entries_map_remove<E, K, V>(
    s: Seq<E>,
    key: spec_fn(E) -> K,
    val: spec_fn(E) -> V,
    i: int,
)
    requires
        distinct_keys(s, key),
        0 <= i < s.len(),
    ensures
        entries_map(s.remove(i), key, val) == entries_map(s, key, val).remove(key(s[i])),
    decreases s.len(),
{
    broadcast use vstd::seq_lib::group_seq_properties;

    assert forall|m: int, n: int|
        0 <= m < n < s.drop_last().len() implies key(#[trigger] s.drop_last()[m]) != key(
        #[trigger] s.drop_last()[n],
    ) by {
        assert(s.drop_last()[m] == s[m] && s.drop_last()[n] == s[n]);
    }
    if i == s.len() - 1 {
        assert(s.remove(i) =~= s.drop_last());
        lemma_entries_map_contains(s.drop_last(), key, val, key(s[i]));
        assert forall|q: int|
            0 <= q < s.drop_last().len() implies key(#[trigger] s.drop_last()[q]) != key(
            s[i],
        ) by {
            assert(s.drop_last()[q] == s[q]);
        }
        assert(!entries_map(s.drop_last(), key, val).contains_key(key(s[i])));
        assert(entries_map(s, key, val).remove(key(s[i])) =~= entries_map(
            s.drop_last(),
            key,
            val,
        ));
    } else {
        let d = s.drop_last();
        lemma_entries_map_remove(d, key, val, i);
        assert(s.remove(i).drop_last() =~= d.remove(i));
        assert(s.remove(i).last() == s.last());
        assert(entries_map(s.remove(i), key, val) == entries_map(d.remove(i), key, val).insert(
            key(s.last()),
            val(s.last()),
        ));
        assert(key(s[i]) != key(s[s.len() - 1]));
        assert(entries_map(d, key, val).remove(key(s[i])).insert(key(s.last()), val(s.last()))
            =~= entries_map(d, key, val).insert(key(s.last()), val(s.last())).remove(key(s[i])));
    }
}

/// Filtering entries filters the map: keys whose entries the predicate
/// drops disappear, every other key keeps its value.  `keep` must depend
/// only on an entry's key, through `kp`.
proof fn lemma_entries_map_filter<E, K, V>(
    s: Seq<E>,
    key: spec_fn(E) -> K,
    val: spec_fn(E) -> V,
    keep: spec_fn(E) -> bool,
    kp: spec_fn(K) -> bool,
)
    requires
        forall|e: E| #[trigger] keep(e) == kp(key(e)),
    ensures
        forall|k: K|
            #[trigger] entries_map(s.filter(keep), key, val).contains_key(k) <==> (entries_map(
                s,
                key,
                val,
            ).contains_key(k) && kp(k)),
        forall|k: K|
            #[trigger] entries_map(s.filter(keep), key, val).contains_key(k) ==> entries_map(
                s.filter(keep),
                key,
                val,
            )[k] == entries_map(s, key, val)[k],
    decreases s.len(),
{
    reveal(Seq::filter);
    if s.len() > 0 {
        let d = s.drop_last();
        let x = s.last();
        lemma_entries_map_filter(d, key, val, keep, kp);
        if keep(x) {
            assert(s.filter(keep) == d.filter(keep).push(x));
            assert(s.filter(keep).drop_last() =~= d.filter(keep));
            assert(s.filter(keep).len() > 0);
            assert(s.filter(keep).last() == x);
            assert(entries_map(s.filter(keep), key, val) == entries_map(
                d.filter(keep),
                key,
                val,
            ).insert(key(x), val(x)));
        } else {
            assert(s.filter(keep) == d.filter(keep));
        }
    } else {
        assert(s.filter(keep) == s);
    }
}

/// One remembered fingerprint: the folder it belongs to and when it was
/// last computed.
#[derive(Debug)]
pub struct FingerprintCacheEntry {
    pub flavor: Flavor,
    pub folder_name: String,
    pub fingerprint: u32,
    pub computed_at: u64,
}

/// The key of a fingerprint cache entry.
pub open spec fn fp_key(e: FingerprintCacheEntry) -> (Flavor, Seq<char>) {
    (e.flavor, e.folder_name@)
}

/// The value of a fingerprint cache entry: the fingerprint and when it was
/// computed.
pub open spec fn fp_val(e: FingerprintCacheEntry) -> (u32, u64) {
    (e.fingerprint, e.computed_at)
}

impl Clone for FingerprintCacheEntry {
    /// Clones the entry; the clone is the same value.
    fn clone(&self) -> (r: Self)
        ensures
            r == *self,
    {
        FingerprintCacheEntry {
            flavor: self.flavor,
            folder_name: self.folder_name.clone(),
            fingerprint: self.fingerprint,
            computed_at: self.computed_at,
        }
    }
}

/// `names` holds `n`.
pub open spec fn spec_names_contain(names: Seq<String>, n: Seq<char>) -> bool {
    exists|i: int| 0 <= i < names.len() && #[trigger] names[i]@ == n
}

/// Decides whether one of `names` reads `n`.
fn names_contain(names: &Vec<String>, n: &str) -> (r: bool)
    ensures
        r == spec_names_contain(names@, n@),
{
    let len = names.len();
    let mut i: usize = 0;
    while i < len
        invariant
            i <= len == names@.len(),
            forall|m: int| 0 <= m < i ==> #[trigger] names@[m]@ != n@,
        decreases len - i,
    {
        if str_eq(names[i].as_str(), n) {
            return true;
        }
        i = i + 1;
    }
    false
}

/// The persistent memo of folder fingerprints, keyed by flavor and folder
/// name.  A pure memo: it never watches the filesystem, so a caller must
/// check the folder's modification time itself and recompute rather than
/// trust a stale entry.
pub struct FingerprintCache {
    entries: Vec<FingerprintCacheEntry>,
}

impl View for FingerprintCache {
    type V = Map<(Flavor, Seq<char>), (u32, u64)>;

    closed spec fn view(&self) -> Map<(Flavor, Seq<char>), (u32, u64)> {
        entries_map(
            self.entries@,
            |e: FingerprintCacheEntry| fp_key(e),
            |e: FingerprintCacheEntry| fp_val(e),
        )
    }
}

impl FingerprintCache {
    /// The cache's entries never repeat a key.
    pub closed spec fn wf(&self) -> bool {
        distinct_keys(self.entries@, |e: FingerprintCacheEntry| fp_key(e))
    }

    /// An empty cache: also what a missing or corrupt cache file loads as.
    pub fn new() -> (r: FingerprintCache)
        ensures
            r@ == Map::<(Flavor, Seq<char>), (u32, u64)>::empty(),
            r.wf(),
    {
        FingerprintCache { entries: Vec::new() }
    }

    /// The position of the entry for a key, if one exists.
    fn find(&self, flavor: Flavor, folder_name: &str) -> (r: Option<usize>)
        ensures
            match r {
                Some(i) => i < self.entries@.len() && fp_key(self.entries@[i as int]) == (
                    flavor,
                    folder_name@,
                ),
                None => forall|m: int|
                    0 <= m < self.entries@.len() ==> fp_key(#[trigger] self.entries@[m]) != (
                        flavor,
                        folder_name@,
                    ),
            },
    {
        let len = self.entries.len();
        let mut i: usize = 0;
        while i < len
            invariant
                i <= len == self.entries@.len(),
                forall|m: int|
                    0 <= m < i ==> fp_key(#[trigger] self.entries@[m]) != (flavor, folder_name@),
            decreases len - i,
        {
            let e = &self.entries[i];
            if flavor_eq(&e.flavor, &flavor) && str_eq(e.folder_name.as_str(), folder_name) {
                return Some(i);
            }
            i = i + 1;
        }
        None
    }

    /// The remembered fingerprint for a folder, if any.
    pub fn get(&self, flavor: Flavor, folder_name: &str) -> (r: Option<u32>)
        requires
            self.wf(),
        ensures
            r is Some <==> self@.contains_key((flavor, folder_name@)),
            r matches Some(v) ==> v == self@[(flavor, folder_name@)].0,
    {
        proof {
            lemma_entries_map_contains(
                self.entries@,
                |e: FingerprintCacheEntry| fp_key(e),
                |e: FingerprintCacheEntry| fp_val(e),
                (flavor, folder_name@),
            );
        }
        match self.find(flavor, folder_name) {
            Some(i) => {
                proof {
                    lemma_entries_map_get(
                        self.entries@,
                        |e: FingerprintCacheEntry| fp_key(e),
                        |e: FingerprintCacheEntry| fp_val(e),
                        i as int,
                    );
                }
                Some(self.entries[i].fingerprint)
            },
            None => None,
        }
    }

    /// Remembers a fingerprint: the whole entry for the key is replaced.
    pub fn put(&mut self, flavor: Flavor, folder_name: String, fingerprint: u32, computed_at: u64)
        requires
            old(self).wf(),
        ensures
            final(self).wf(),
            final(self)@ == old(self)@.insert((flavor, folder_name@), (fingerprint, computed_at)),
    {
        let ghost key = |e: FingerprintCacheEntry| fp_key(e);
        let ghost val = |e: FingerprintCacheEntry| fp_val(e);
        let ghost k = (flavor, folder_name@);
        let ghost before = self.entries@;
        if let Some(i) = self.find(flavor, folder_name.as_str()) {
            proof {
                lemma_entries_map_remove(before, key, val, i as int);
            }
            self.entries.remove(i);
            proof {
                assert forall|m: int, n: int|
                    0 <= m < n < self.entries@.len() implies key(#[trigger] self.entries@[m])
                    != key(#[trigger] self.entries@[n]) by {
                    if n < i {
                        assert(self.entries@[m] == before[m] && self.entries@[n] == before[n]);
                    } else if m < i {
                        assert(self.entries@[m] == before[m] && self.entries@[n] == before[n + 1]);
                    } else {
                        assert(self.entries@[m] == before[m + 1] && self.entries@[n] == before[n
                            + 1]);
                    }
                }
                assert forall|m: int|
                    0 <= m < self.entries@.len() implies key(#[trigger] self.entries@[m])
                    != k by {
                    if m < i {
                        assert(self.entries@[m] == before[m]);
                    } else {
                        assert(self.entries@[m] == before[m + 1]);
                    }
                }
            }
        }
        let ghost mid = self.entries@;
        let entry = FingerprintCacheEntry { flavor, folder_name, fingerprint, computed_at };
        self.entries.push(entry);
        proof {
            assert(self.entries@.drop_last() =~= mid);
            assert(self.entries@.last() == entry);
            assert(fp_key(entry) == k);
            assert forall|m: int, n: int|
                0 <= m < n < self.entries@.len() implies key(#[trigger] self.entries@[m]) != key(
                #[trigger] self.entries@[n],
            ) by {
                if n == self.entries@.len() - 1 {
                    assert(self.entries@[m] == mid[m]);
                } else {
                    assert(self.entries@[m] == mid[m] && self.entries@[n] == mid[n]);
                }
            }
            assert(final(self)@ =~= old(self)@.insert(k, (fingerprint, computed_at)));
        }
    }

    /// Drops every entry of `flavor` whose folder is no longer among
    /// `known_folder_names`; entries of other flavors, and of folders still
    /// present, survive untouched.
    pub fn remove_stale(&mut self, flavor: Flavor, known_folder_names: &Vec<String>)
        requires
            old(self).wf(),
        ensures
            final(self).wf(),
            forall|k: (Flavor, Seq<char>)|
                #[trigger] final(self)@.contains_key(k) <==> (old(self)@.contains_key(k) && (k.0
                    != flavor || spec_names_contain(known_folder_names@, k.1))),
            forall|k: (Flavor, Seq<char>)|
                #[trigger] final(self)@.contains_key(k) ==> final(self)@[k] == old(self)@[k],
    {
        let ghost key = |e: FingerprintCacheEntry| fp_key(e);
        let ghost val = |e: FingerprintCacheEntry| fp_val(e);
        let ghost keep = |e: FingerprintCacheEntry|
            e.flavor != flavor || spec_names_contain(known_folder_names@, e.folder_name@);
        let ghost kp = |k: (Flavor, Seq<char>)|
            k.0 != flavor || spec_names_contain(known_folder_names@, k.1);
        let ghost before = self.entries@;
        let mut kept: Vec<FingerprintCacheEntry> = Vec::new();
        let len = self.entries.len();
        let mut i: usize = 0;
        while i < len
            invariant
                i <= len == before.len(),
                before == self.entries@,
                old(self).wf(),
                distinct_keys(before, key),
                key == (|e: FingerprintCacheEntry| fp_key(e)),
                keep == (|e: FingerprintCacheEntry|
                    e.flavor != flavor || spec_names_contain(known_folder_names@, e.folder_name@)),
                kept@ == before.subrange(0, i as int).filter(keep),
                distinct_keys(kept@, key),
                forall|m: int|
                    0 <= m < kept@.len() ==> exists|j: int|
                        0 <= j < i && #[trigger] kept@[m] == before[j],
            decreases len - i,
        {
            let ghost prefix = before.subrange(0, i as int);
            proof {
                reveal(Seq::filter);
                assert(before.subrange(0, i + 1 as int).drop_last() =~= prefix);
                assert(before.subrange(0, i + 1 as int).last() == before[i as int]);
            }
            let ghost kept_before = kept@;
            let e = &self.entries[i];
            if !flavor_eq(&e.flavor, &flavor) || names_contain(
                known_folder_names,
                e.folder_name.as_str(),
            ) {
                kept.push(self.entries[i].clone());
                proof {
                    assert(keep(before[i as int]));
                    assert(kept@.last() == before[i as int]);
                    assert(kept@ =~= before.subrange(0, i + 1 as int).filter(keep));
                    assert forall|m: int, n: int|
                        0 <= m < n < kept@.len() implies key(#[trigger] kept@[m]) != key(
                        #[trigger] kept@[n],
                    ) by {
                        if n == kept@.len() - 1 {
                            assert(kept@[m] == kept_before[m]);
                            let j = choose|j: int|
                                0 <= j < i && #[trigger] kept_before[m] == before[j];
                            assert(key(before[j]) != key(before[i as int]));
                        } else {
                            assert(kept@[m] == kept_before[m] && kept@[n] == kept_before[n]);
                        }
                    }
                }
            } else {
                proof {
                    assert(!keep(before[i as int]));
                    assert(kept@ =~= before.subrange(0, i + 1 as int).filter(keep));
                }
            }
            i = i + 1;
        }
        proof {
            assert(before.subrange(0, len as int) =~= before);
        }
        self.entries = kept;
        proof {
            lemma_entries_map_filter(before, key, val, keep, kp);
        }
    }
}

/// Flavor equality, decided structurally.
fn flavor_eq(a: &Flavor, b: &Flavor) -> (r: bool)
    ensures
        r == (*a == *b),
{
    match (a, b) {
        (Flavor::Retail, Flavor::Retail) => true,
        (Flavor::RetailPtr, Flavor::RetailPtr) => true,
        (Flavor::RetailBeta, Flavor::RetailBeta) => true,
        (Flavor::ClassicEra, Flavor::ClassicEra) => true,
        (Flavor::Classic, Flavor::Classic) => true,
        (Flavor::ClassicPtr, Flavor::ClassicPtr) => true,
        (Flavor::ClassicBeta, Flavor::ClassicBeta) => true,
        _ => false,
    }
}

/// One remembered add-on identity: the source that resolved it, its remote
/// identifier there, its title, and the folder names it last occupied.
#[derive(Debug)]
pub struct AddonCacheEntry {
    pub repository_kind: RepositoryKind,
    pub repository_id: String,
    pub title: String,
    pub folder_names: Vec<String>,
}

/// The title and folder names an entry remembers, as mathematical values.
pub open spec fn entry_model(e: AddonCacheEntry) -> (Seq<char>, Seq<Seq<char>>) {
    (e.title@, e.folder_names@.map_values(|s: String| s@))
}

/// Clones a vector of strings, value for value.
fn clone_string_vec(v: &Vec<String>) -> (r: Vec<String>)
    ensures
        r@ == v@,
{
    let mut r: Vec<String> = Vec::new();
    let len = v.len();
    let mut i: usize = 0;
    while i < len
        invariant
            i <= len == v@.len(),
            r@ == v@.subrange(0, i as int),
        decreases len - i,
    {
        r.push(v[i].clone());
        proof {
            assert(r@ =~= v@.subrange(0, i + 1 as int));
        }
        i = i + 1;
    }
    proof {
        assert(v@.subrange(0, len as int) =~= v@);
    }
    r
}

impl Clone for AddonCacheEntry {
    /// Clones the entry; every field keeps its value.
    fn clone(&self) -> (r: Self)
        ensures
            r.repository_kind == self.repository_kind,
            r.repository_id@ == self.repository_id@,
            entry_model(r) == entry_model(*self),
    {
        AddonCacheEntry {
            repository_kind: self.repository_kind,
            repository_id: self.repository_id.clone(),
            title: self.title.clone(),
            folder_names: clone_string_vec(&self.folder_names),
        }
    }
}

/// One record of the add-on identity cache: an entry filed under a flavor.
#[derive(Debug)]
pub struct AddonCacheRecord {
    pub flavor: Flavor,
    pub entry: AddonCacheEntry,
}

/// The key of a record: flavor, source, and remote identifier.
pub open spec fn ac_key(r: AddonCacheRecord) -> (Flavor, RepositoryKind, Seq<char>) {
    (r.flavor, r.entry.repository_kind, r.entry.repository_id@)
}

/// The value of a record: what the entry remembers.
pub open spec fn ac_val(r: AddonCacheRecord) -> (Seq<char>, Seq<Seq<char>>) {
    entry_model(r.entry)
}

/// The persistent add-on identity cache: it lets the engine re-associate a
/// previously installed add-on with its remote source without a network
/// round trip.  Used only for sources whose remote identity is an opaque
/// id, never for content-addressed sources.
pub struct AddonCache {
    records: Vec<AddonCacheRecord>,
}

impl View for AddonCache {
    type V = Map<(Flavor, RepositoryKind, Seq<char>), (Seq<char>, Seq<Seq<char>>)>;

    closed spec fn view(&self) -> Map<
        (Flavor, RepositoryKind, Seq<char>),
        (Seq<char>, Seq<Seq<char>>),
    > {
        entries_map(
            self.records@,
            |r: AddonCacheRecord| ac_key(r),
            |r: AddonCacheRecord| ac_val(r),
        )
    }
}

/// Git service equality, decided structurally.
fn git_kind_eq(a: &GitKind, b: &GitKind) -> (r: bool)
    ensures
        r == (*a == *b),
{
    match (a, b) {
        (GitKind::Github, GitKind::Github) => true,
        (GitKind::Gitlab, GitKind::Gitlab) => true,
        _ => false,
    }
}

/// Source equality, decided structurally.
fn repository_kind_eq(a: &RepositoryKind, b: &RepositoryKind) -> (r: bool)
    ensures
        r == (*a == *b),
{
    match (a, b) {
        (RepositoryKind::Curse, RepositoryKind::Curse) => true,
        (RepositoryKind::Tukui, RepositoryKind::Tukui) => true,
        (RepositoryKind::WowI, RepositoryKind::WowI) => true,
        (RepositoryKind::Hub, RepositoryKind::Hub) => true,
        (RepositoryKind::Git(x), RepositoryKind::Git(y)) => git_kind_eq(x, y),
        _ => false,
    }
}

/// Whether two string vectors read the same, element for element.
fn string_vecs_equal(a: &Vec<String>, b: &Vec<String>) -> (r: bool)
    ensures
        r == (a@.map_values(|s: String| s@) == b@.map_values(|s: String| s@)),
{
    let ghost av = a@.map_values(|s: String| s@);
    let ghost bv = b@.map_values(|s: String| s@);
    let n = a.len();
    if b.len() != n {
        proof {
            assert(av.len() != bv.len());
        }
        return false;
    }
    let mut i: usize = 0;
    while i < n
        invariant
            i <= n == a@.len(),
            n == b@.len(),
            av == a@.map_values(|s: String| s@),
            bv == b@.map_values(|s: String| s@),
            forall|m: int| 0 <= m < i ==> av[m] == bv[m],
        decreases n - i,
    {
        if !str_eq(a[i].as_str(), b[i].as_str()) {
            proof {
                assert(av[i as int] != bv[i as int]);
            }
            return false;
        }
        i = i + 1;
    }
    proof {
        assert(av =~= bv);
    }
    true
}

/// A record of `flavor` that last occupied exactly the given folders.
pub open spec fn record_matches_folders(
    r: AddonCacheRecord,
    flavor: Flavor,
    names: Seq<Seq<char>>,
) -> bool {
    r.flavor == flavor && ac_val(r).1 == names
}

/// The position of the first record of `flavor` occupying exactly the
/// given folders, if any.
pub open spec fn spec_first_folder_match(
    records: Seq<AddonCacheRecord>,
    flavor: Flavor,
    names: Seq<Seq<char>>,
) -> Option<int>
    decreases records.len(),
{
    if records.len() == 0 {
        None
    } else if record_matches_folders(records[0], flavor, names) {
        Some(0)
    } else {
        match spec_first_folder_match(records.drop_first(), flavor, names) {
            Some(i) => Some(i + 1),
            None => None,
        }
    }
}

proof fn lemma_first_folder_match_none(
    records: Seq<AddonCacheRecord>,
    flavor: Flavor,
    names: Seq<Seq<char>>,
)
    requires
        spec_first_folder_match(records, flavor, names) is None,
    ensures
        forall|i: int|
            0 <= i < records.len() ==> !record_matches_folders(#[trigger] records[i], flavor, names),
    decreases records.len(),
{
    if records.len() > 0 {
        lemma_first_folder_match_none(records.drop_first(), flavor, names);
        assert forall|i: int|
            0 <= i < records.len() implies !record_matches_folders(
            #[trigger] records[i],
            flavor,
            names,
        ) by {
            if i > 0 {
                assert(records.drop_first()[i - 1] == records[i]);
            }
        }
    }
}

impl AddonCache {
    /// The cache's records never repeat a key.
    pub closed spec fn wf(&self) -> bool {
        distinct_keys(self.records@, |r: AddonCacheRecord| ac_key(r))
    }

    /// An empty cache: also what a missing or corrupt cache file loads as.
    pub fn new() -> (r: AddonCache)
        ensures
            r@ == Map::<(Flavor, RepositoryKind, Seq<char>), (Seq<char>, Seq<Seq<char>>)>::empty(),
            r.wf(),
    {
        AddonCache { records: Vec::new() }
    }

    /// The position of the record for a key, if one exists.
    fn find(&self, flavor: Flavor, kind: RepositoryKind, remote_id: &str) -> (r: Option<usize>)
        ensures
            match r {
                Some(i) => i < self.records@.len() && ac_key(self.records@[i as int]) == (
                    flavor,
                    kind,
                    remote_id@,
                ),
                None => forall|m: int|
                    0 <= m < self.records@.len() ==> ac_key(#[trigger] self.records@[m]) != (
                        flavor,
                        kind,
                        remote_id@,
                    ),
            },
    {
        let len = self.records.len();
        let mut i: usize = 0;
        while i < len
            invariant
                i <= len == self.records@.len(),
                forall|m: int|
                    0 <= m < i ==> ac_key(#[trigger] self.records@[m]) != (
                        flavor,
                        kind,
                        remote_id@,
                    ),
            decreases len - i,
        {
            let rec = &self.records[i];
            if flavor_eq(&rec.flavor, &flavor) && repository_kind_eq(
                &rec.entry.repository_kind,
                &kind,
            ) && str_eq(rec.entry.repository_id.as_str(), remote_id) {
                return Some(i);
            }
            i = i + 1;
        }
        None
    }

    /// The remembered identity for a source key, if any.
    pub fn lookup(&self, flavor: Flavor, kind: RepositoryKind, remote_id: &str) -> (r: Option<
        AddonCacheEntry,
    >)
        requires
            self.wf(),
        ensures
            r is Some <==> self@.contains_key((flavor, kind, remote_id@)),
            r matches Some(e) ==> entry_model(e) == self@[(flavor, kind, remote_id@)]
                && e.repository_kind == kind && e.repository_id@ == remote_id@,
    {
        proof {
            lemma_entries_map_contains(
                self.records@,
                |r: AddonCacheRecord| ac_key(r),
                |r: AddonCacheRecord| ac_val(r),
                (flavor, kind, remote_id@),
            );
        }
        match self.find(flavor, kind, remote_id) {
            Some(i) => {
                proof {
                    lemma_entries_map_get(
                        self.records@,
                        |r: AddonCacheRecord| ac_key(r),
                        |r: AddonCacheRecord| ac_val(r),
                        i as int,
                    );
                }
                Some(self.records[i].entry.clone())
            },
            None => None,
        }
    }

    /// Remembers an identity.  The entire prior entry for the key is
    /// replaced: no field of it survives, so a reinstall that changed the
    /// folder layout leaves no stale folder names behind.
    pub fn upsert(&mut self, flavor: Flavor, entry: AddonCacheEntry)
        requires
            old(self).wf(),
        ensures
            final(self).wf(),
            final(self)@ == old(self)@.insert(
                (flavor, entry.repository_kind, entry.repository_id@),
                entry_model(entry),
            ),
    {
        let ghost key = |r: AddonCacheRecord| ac_key(r);
        let ghost val = |r: AddonCacheRecord| ac_val(r);
        let ghost k = (flavor, entry.repository_kind, entry.repository_id@);
        let ghost before = self.records@;
        if let Some(i) = self.find(flavor, entry.repository_kind, entry.repository_id.as_str()) {
            proof {
                lemma_entries_map_remove(before, key, val, i as int);
            }
            self.records.remove(i);
            proof {
                assert forall|m: int, n: int|
                    0 <= m < n < self.records@.len() implies key(#[trigger] self.records@[m])
                    != key(#[trigger] self.records@[n]) by {
                    if n < i {
                        assert(self.records@[m] == before[m] && self.records@[n] == before[n]);
                    } else if m < i {
                        assert(self.records@[m] == before[m] && self.records@[n] == before[n + 1]);
                    } else {
                        assert(self.records@[m] == before[m + 1] && self.records@[n] == before[n
                            + 1]);
                    }
                }
                assert forall|m: int|
                    0 <= m < self.records@.len() implies key(#[trigger] self.records@[m])
                    != k by {
                    if m < i {
                        assert(self.records@[m] == before[m]);
                    } else {
                        assert(self.records@[m] == before[m + 1]);
                    }
                }
            }
        }
        let ghost mid = self.records@;
        let record = AddonCacheRecord { flavor, entry };
        self.records.push(record);
        proof {
            assert(self.records@.drop_last() =~= mid);
            assert(self.records@.last() == record);
            assert(ac_key(record) == k);
            assert forall|m: int, n: int|
                0 <= m < n < self.records@.len() implies key(#[trigger] self.records@[m]) != key(
                #[trigger] self.records@[n],
            ) by {
                if n == self.records@.len() - 1 {
                    assert(self.records@[m] == mid[m]);
                } else {
                    assert(self.records@[m] == mid[m] && self.records@[n] == mid[n]);
                }
            }
            assert(final(self)@ =~= old(self)@.insert(k, ac_val(record)));
        }
    }

    /// Forgets the identity remembered for a source key, if any: what a
    /// deletion of the add-on, or an install from a content-addressed
    /// source, does to this cache.
    pub fn remove(&mut self, flavor: Flavor, kind: RepositoryKind, remote_id: &str)
        requires
            old(self).wf(),
        ensures
            final(self).wf(),
            final(self)@ == old(self)@.remove((flavor, kind, remote_id@)),
    {
        let ghost key = |r: AddonCacheRecord| ac_key(r);
        let ghost val = |r: AddonCacheRecord| ac_val(r);
        let ghost k = (flavor, kind, remote_id@);
        let ghost before = self.records@;
        match self.find(flavor, kind, remote_id) {
            Some(i) => {
                proof {
                    lemma_entries_map_remove(before, key, val, i as int);
                }
                self.records.remove(i);
                proof {
                    assert forall|m: int, n: int|
                        0 <= m < n < self.records@.len() implies key(#[trigger] self.records@[m])
                        != key(#[trigger] self.records@[n]) by {
                        if n < i {
                            assert(self.records@[m] == before[m] && self.records@[n] == before[n]);
                        } else if m < i {
                            assert(self.records@[m] == before[m] && self.records@[n] == before[n
                                + 1]);
                        } else {
                            assert(self.records@[m] == before[m + 1] && self.records@[n]
                                == before[n + 1]);
                        }
                    }
                }
            },
            None => {
                proof {
                    lemma_entries_map_contains(before, key, val, k);
                    assert(!old(self)@.contains_key(k));
                    assert(final(self)@ =~= old(self)@.remove(k));
                }
            },
        }
    }

    /// The decision at the heart of cache-first resolution: when some
    /// remembered record of this flavor last occupied exactly the folders
    /// now found on disk, the add-on is re-associated with that record and
    /// no transport lookup is needed; otherwise the caller must resolve it
    /// against the repository afresh.
    pub fn resolve_from_folder_names(&self, flavor: Flavor, folder_names: &Vec<String>) -> (r:
        Option<AddonCacheEntry>)
        ensures
            match spec_first_folder_match(
                self.records_model(),
                flavor,
                folder_names@.map_values(|s: String| s@),
            ) {
                Some(i) => r matches Some(e) && entry_model(e) == ac_val(
                    self.records_model()[i],
                ) && e.repository_kind == self.records_model()[i].entry.repository_kind
                    && e.repository_id@ == self.records_model()[i].entry.repository_id@,
                None => r is None,
            },
            r is None ==> forall|i: int|
                0 <= i < self.records_model().len() ==> !record_matches_folders(
                    #[trigger] self.records_model()[i],
                    flavor,
                    folder_names@.map_values(|s: String| s@),
                ),
    {
        let ghost names = folder_names@.map_values(|s: String| s@);
        let len = self.records.len();
        proof {
            assert(self.records@.skip(0) =~= self.records@);
        }
        let mut i: usize = 0;
        while i < len
            invariant
                i <= len == self.records@.len(),
                names == folder_names@.map_values(|s: String| s@),
                spec_first_folder_match(self.records@, flavor, names) == match
                    spec_first_folder_match(self.records@.skip(i as int), flavor, names) {
                    Some(j) => Some(j + i),
                    None => None::<int>,
                },
            decreases len - i,
        {
            proof {
                assert(self.records@.skip(i as int)[0] == self.records@[i as int]);
                assert(self.records@.skip(i as int).drop_first() =~= self.records@.skip(
                    i + 1 as int,
                ));
            }
            let rec = &self.records[i];
            if flavor_eq(&rec.flavor, &flavor) && string_vecs_equal(
                &rec.entry.folder_names,
                folder_names,
            ) {
                proof {
                    assert(record_matches_folders(self.records@[i as int], flavor, names));
                    assert(spec_first_folder_match(self.records@.skip(i as int), flavor, names)
                        == Some(0int));
                    assert(spec_first_folder_match(self.records@, flavor, names) == Some(
                        i as int,
                    ));
                }
                return Some(rec.entry.clone());
            }
            proof {
                assert(!record_matches_folders(self.records@[i as int], flavor, names));
            }
            i = i + 1;
        }
        proof {
            assert(self.records@.skip(len as int) =~= Seq::<AddonCacheRecord>::empty());
            lemma_first_folder_match_none(self.records@, flavor, names);
        }
        None
    }

    /// The cache's records, for specification purposes.
    pub closed spec fn records_model(&self) -> Seq<AddonCacheRecord> {
        self.records@
    }
}

/// An `upsert` followed immediately by a `lookup` with the same key returns
/// exactly the upserted value, and a second `upsert` with the same key
/// fully replaces the first: nothing of the earlier entry survives, in
/// particular no stale folder name.
pub proof fn lemma_upsert_replaces<K, V>(m: Map<K, V>, k: K, v1: V, v2: V)
    ensures
        m.insert(k, v1).contains_key(k),
        m.insert(k, v1)[k] == v1,
        m.insert(k, v1).insert(k, v2) == m.insert(k, v2),
{
    assert(m.insert(k, v1).insert(k, v2) =~= m.insert(k, v2));
}

} // verus!
