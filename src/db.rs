//! The key index: lookup key to entry, maintained per source path.

use crate::hash::wkd_hash;
use crate::loader::{loaded_from, LoadError};
use vstd::prelude::*;

verus! {

/// The lookup key of an index slot: the hashed local part and the domain.
#[derive(Eq, PartialEq, Hash, Debug, Clone)]
pub struct CertKey {
    pub hashed_username: String,
    pub domain: String,
}

impl View for CertKey {
    type V = (Seq<char>, Seq<char>);

    open spec fn view(&self) -> (Seq<char>, Seq<char>) {
        (self.hashed_username@, self.domain@)
    }
}

/// What the index holds for a key: the local part as written in the
/// certificate, the serialized public certificate, and the file it came from.
#[derive(Clone, Debug, PartialEq, Eq)]
pub struct CertEntry {
    pub username: String,
    pub cert: Vec<u8>,
    pub path: String,
}

impl View for CertEntry {
    type V = (Seq<char>, Seq<u8>, Seq<char>);

    open spec fn view(&self) -> (Seq<char>, Seq<u8>, Seq<char>) {
        (self.username@, self.cert@, self.path@)
    }
}

/// The abstract index: lookup key to (local part, certificate bytes, source path).
pub type IndexMap = Map<(Seq<char>, Seq<char>), (Seq<char>, Seq<u8>, Seq<char>)>;

/// The index without every entry whose source path is `p`.
pub open spec fn purge_path(m: IndexMap, p: Seq<char>) -> IndexMap {
    Map::new(|k: (Seq<char>, Seq<char>)| m.contains_key(k) && m[k].2 != p, |k| m[k])
}

/// The index after inserting each pair of `s` in order; a later pair
/// overwrites an earlier one with the same key.
pub open spec fn insert_all(
    m: IndexMap,
    s: Seq<((Seq<char>, Seq<char>), (Seq<char>, Seq<u8>, Seq<char>))>,
) -> IndexMap
    decreases s.len(),
{
    if s.len() == 0 {
        m
    } else {
        insert_all(m, s.drop_last()).insert(s.last().0, s.last().1)
    }
}

/// The index after (re)loading the file at `p` with entries `s`: the path's
/// old entries are purged, then the new ones inserted.
pub open spec fn reload_path(
    m: IndexMap,
    p: Seq<char>,
    s: Seq<((Seq<char>, Seq<char>), (Seq<char>, Seq<u8>, Seq<char>))>,
) -> IndexMap {
    insert_all(purge_path(m, p), s)
}

/// The views of a list of loaded pairs.
pub open spec fn pair_views(v: Seq<(CertKey, CertEntry)>) -> Seq<
    ((Seq<char>, Seq<char>), (Seq<char>, Seq<u8>, Seq<char>)),
> {
    v.map_values(|e: (CertKey, CertEntry)| (e.0@, e.1@))
}

/// What a lookup answers: the certificate of the entry under (hash, domain),
/// unless a requested local part is given and differs from the stored one.
pub open spec fn lookup(
    m: IndexMap,
    hash: Seq<char>,
    domain: Seq<char>,
    requested: Option<Seq<char>>,
) -> Option<Seq<u8>> {
    if !m.contains_key((hash, domain)) {
        None
    } else if requested is Some && requested->0 != m[(hash, domain)].0 {
        None
    } else {
        Some(m[(hash, domain)].1)
    }
}

/// The view of an optional requested local part.
pub open spec fn requested_view(username: Option<&String>) -> Option<Seq<char>> {
    match username {
        Some(u) => Some(u@),
        None => None,
    }
}

/// The certificate index. Keys are unique; each entry remembers its source path.
pub struct KeyDb {
    keys: Vec<(CertKey, CertEntry)>,
    model: Ghost<IndexMap>,
}

impl View for KeyDb {
    type V = IndexMap;

    closed spec fn view(&self) -> IndexMap {
        self.model@
    }
}

impl KeyDb {
    /// The stored pairs hold distinct keys and are exactly the abstract index.
    pub closed spec fn wf(&self) -> bool {
        &&& forall|i: int, j: int|
            0 <= i < j < self.keys@.len() ==> #[trigger] self.keys@[i].0@ != #[trigger] self.keys@[j].0@
        &&& forall|i: int|
            0 <= i < self.keys@.len() ==> self.model@.contains_key(#[trigger] self.keys@[i].0@)
                && self.model@[self.keys@[i].0@] == self.keys@[i].1@
        &&& forall|k: (Seq<char>, Seq<char>)|
            #[trigger] self.model@.contains_key(k) ==> exists|i: int|
                0 <= i < self.keys@.len() && #[trigger] self.keys@[i].0@ == k
    }

    /// An empty index.
    pub fn new() -> (r: KeyDb)
        ensures
            r.wf(),
            r@ == Map::<(Seq<char>, Seq<char>), (Seq<char>, Seq<u8>, Seq<char>)>::empty(),
    {
        KeyDb { keys: Vec::new(), model: Ghost(Map::empty()) }
    }

    fn find(&self, key: &CertKey) -> (r: Option<usize>)
        requires
            self.wf(),
        ensures
            r matches Some(i) ==> i < self.keys@.len() && self.keys@[i as int].0@ == key@,
            r is None ==> !self@.contains_key(key@),
    {
        let mut i: usize = 0;
        while i < self.keys.len()
            invariant
                self.wf(),
                i <= self.keys@.len(),
                forall|j: int| 0 <= j < i ==> #[trigger] self.keys@[j].0@ != key@,
            decreases self.keys@.len() - i,
        {
            let k = &self.keys[i].0;
            if k.hashed_username == key.hashed_username && k.domain == key.domain {
                return Some(i);
            }
            i = i + 1;
        }
        None
    }

    /// Inserts or overwrites the entry under `key`.
    pub fn insert(&mut self, key: CertKey, entry: CertEntry)
        requires
            old(self).wf(),
        ensures
            final(self).wf(),
            final(self)@ == old(self)@.insert(key@, entry@),
    {
        let ghost kv = key@;
        let ghost ev = entry@;
        match self.find(&key) {
            Some(i) => {
                self.keys.set(i, (key, entry));
                proof {
                    self.model@ = self.model@.insert(kv, ev);
                }
                assert forall|k: (Seq<char>, Seq<char>)| #[trigger]
                    self.model@.contains_key(k) implies exists|j: int|
                    0 <= j < self.keys@.len() && #[trigger] self.keys@[j].0@ == k by {
                    if k == kv {
                        assert(self.keys@[i as int].0@ == k);
                    } else {
                        assert(old(self)@.contains_key(k));
                        let j = choose|j: int| 0 <= j < old(self).keys@.len() && #[trigger] old(self).keys@[j].0@ == k;
                        assert(self.keys@[j].0@ == k);
                    }
                }
            },
            None => {
                self.keys.push((key, entry));
                proof {
                    self.model@ = self.model@.insert(kv, ev);
                }
                assert forall|k: (Seq<char>, Seq<char>)| #[trigger]
                    self.model@.contains_key(k) implies exists|j: int|
                    0 <= j < self.keys@.len() && #[trigger] self.keys@[j].0@ == k by {
                    if k == kv {
                        assert(self.keys@[self.keys@.len() - 1].0@ == k);
                    } else {
                        assert(old(self)@.contains_key(k));
                        let j = choose|j: int| 0 <= j < old(self).keys@.len() && #[trigger] old(self).keys@[j].0@ == k;
                        assert(self.keys@[j].0@ == k);
                    }
                }
            },
        }
    }

    /// Removes every entry whose source path is `path`.
    pub fn remove_file_from_cache(&mut self, path: &str)
        requires
            old(self).wf(),
        ensures
            final(self).wf(),
            final(self)@ == purge_path(old(self)@, path@),
    {
        let p = path.to_owned();
        let mut rest: Vec<(CertKey, CertEntry)> = Vec::new();
        std::mem::swap(&mut rest, &mut self.keys);
        let ghost all = rest@;
        let ghost m = self.model@;
        assert(all == old(self).keys@);
        let mut kept: Vec<(CertKey, CertEntry)> = Vec::new();
        while rest.len() > 0
            invariant
                p@ == path@,
                rest@.len() <= all.len(),
                rest@ == all.take(rest@.len() as int),
                forall|k: (Seq<char>, Seq<char>)|
                    #[trigger] m.contains_key(k) ==> exists|i: int|
                        0 <= i < all.len() && #[trigger] all[i].0@ == k,
                forall|i: int, j: int|
                    0 <= i < j < all.len() ==> #[trigger] all[i].0@ != #[trigger] all[j].0@,
                forall|i: int|
                    0 <= i < all.len() ==> m.contains_key(#[trigger] all[i].0@) && m[all[i].0@]
                        == all[i].1@,
                forall|j: int|
                    0 <= j < kept@.len() ==> (#[trigger] kept@[j]).1.path@ != p@
                        && m.contains_key(kept@[j].0@) && m[kept@[j].0@] == kept@[j].1@,
                forall|i: int, j: int|
                    0 <= i < j < kept@.len() ==> #[trigger] kept@[i].0@ != #[trigger] kept@[j].0@,
                forall|j: int, l: int|
                    0 <= j < kept@.len() && 0 <= l < rest@.len() ==> #[trigger] kept@[j].0@
                        != #[trigger] rest@[l].0@,
                forall|l: int|
                    rest@.len() <= l < all.len() && (#[trigger] all[l]).1.path@ != p@ ==> exists|
                        j: int,
                    |
                        0 <= j < kept@.len() && #[trigger] kept@[j].0@ == all[l].0@,
            decreases rest@.len(),
        {
            let ghost n = rest@.len();
            let ghost kept_before = kept@;
            let item = rest.pop().unwrap();
            assert(item == all[n - 1]);
            assert(rest@ =~= all.take(n - 1));
            if item.1.path != p {
                kept.push(item);
                assert forall|l: int|
                    rest@.len() <= l < all.len() && (#[trigger] all[l]).1.path@ != p@ implies exists|
                    j: int,
                |
                    0 <= j < kept@.len() && #[trigger] kept@[j].0@ == all[l].0@ by {
                    if l == n - 1 {
                        assert(kept@[kept@.len() - 1].0@ == all[l].0@);
                    } else {
                        let j = choose|j: int| 0 <= j < kept_before.len() && #[trigger] kept_before[j].0@ == all[l].0@;
                        assert(kept@[j] == kept_before[j]);
                    }
                }
                assert forall|j: int, l: int|
                    0 <= j < kept@.len() && 0 <= l < rest@.len() implies #[trigger] kept@[j].0@
                        != #[trigger] rest@[l].0@ by {
                    if j == kept@.len() - 1 {
                        assert(rest@[l] == all[l]);
                    }
                }
            }
        }
        self.keys = kept;
        proof {
            self.model@ = purge_path(m, p@);
            assert forall|k: (Seq<char>, Seq<char>)| #[trigger]
                self.model@.contains_key(k) implies exists|j: int|
                0 <= j < self.keys@.len() && #[trigger] self.keys@[j].0@ == k by {
                let i = choose|i: int| 0 <= i < all.len() && #[trigger] all[i].0@ == k;
                assert(all[i].1.path@ != p@);
                assert(exists|j: int| 0 <= j < kept@.len() && #[trigger] kept@[j].0@ == all[i].0@);
                let j = choose|j: int| 0 <= j < kept@.len() && #[trigger] kept@[j].0@ == all[i].0@;
                assert(self.keys@[j].0@ == k);
            }
        }
    }

    /// Purges the entries of `path`, then inserts the freshly loaded ones.
    /// A failed load leaves the path with no entries and hands the error back.
    pub fn cache_file(
        &mut self,
        path: &str,
        loaded: Result<Vec<(CertKey, CertEntry)>, LoadError>,
    ) -> (r: Result<(), LoadError>)
        requires
            old(self).wf(),
        ensures
            final(self).wf(),
            match loaded {
                Ok(v) => r is Ok && final(self)@ == reload_path(old(self)@, path@, pair_views(v@)),
                Err(e) => r == Err::<(), LoadError>(e) && final(self)@ == purge_path(
                    old(self)@,
                    path@,
                ),
            },
    {
        self.remove_file_from_cache(path);
        let mut entries = match loaded {
            Ok(v) => v,
            Err(e) => return Err(e),
        };
        let ghost all = entries@;
        let ghost base = self@;
        let ghost mut done: int = 0;
        while entries.len() > 0
            invariant
                self.wf(),
                0 <= done <= all.len(),
                entries@ == all.skip(done),
                self@ == insert_all(base, pair_views(all).take(done)),
            decreases entries@.len(),
        {
            let (key, entry) = entries.remove(0);
            proof {
                assert(pair_views(all).take(done + 1).drop_last() =~= pair_views(all).take(done));
                assert(entries@ =~= all.skip(done + 1));
            }
            self.insert(key, entry);
            proof {
                done = done + 1;
            }
        }
        assert(pair_views(all).take(done) =~= pair_views(all));
        Ok(())
    }

    /// The serialized certificate stored under (`hash`, `domain`); `None` when
    /// there is none, or when `username` is given and differs from the stored
    /// local part.
    pub fn get(&self, hash: &str, domain: &str, username: Option<&String>) -> (r: Option<Vec<u8>>)
        requires
            self.wf(),
        ensures
            match r {
                Some(b) => lookup(self@, hash@, domain@, requested_view(username)) == Some(b@),
                None => lookup(self@, hash@, domain@, requested_view(username)) is None,
            },
    {
        let key = CertKey { hashed_username: hash.to_owned(), domain: domain.to_owned() };
        match self.find(&key) {
            None => None,
            Some(i) => {
                let entry = &self.keys[i].1;
                if let Some(requested) = username {
                    if *requested != entry.username {
                        return None;
                    }
                }
                let bytes = entry.cert.clone();
                assert(bytes@ =~= entry.cert@);
                Some(bytes)
            },
        }
    }
}

/// Every key of the index is the lookup hash of its entry's local part.
pub open spec fn keys_match_local_parts(m: IndexMap) -> bool {
    forall|k: (Seq<char>, Seq<char>)| #[trigger] m.contains_key(k) ==> k.0 == wkd_hash(m[k].0)
}

/// Inserting in order: a key that no pair of `s` holds keeps its old entry,
/// and a key that some pair holds ends with the entry of the last such pair.
proof fn lemma_insert_all(
    m: IndexMap,
    s: Seq<((Seq<char>, Seq<char>), (Seq<char>, Seq<u8>, Seq<char>))>,
    k: (Seq<char>, Seq<char>),
)
    ensures
        (forall|j: int| 0 <= j < s.len() ==> (#[trigger] s[j]).0 != k) ==> (insert_all(m, s).contains_key(k)
            == m.contains_key(k) && insert_all(m, s)[k] == m[k]),
        forall|i: int|
            0 <= i < s.len() && (#[trigger] s[i]).0 == k && (forall|j: int|
                i < j < s.len() ==> (#[trigger] s[j]).0 != k) ==> insert_all(m, s).contains_key(k)
                && insert_all(m, s)[k] == s[i].1,
    decreases s.len(),
{
    if s.len() > 0 {
        let t = s.drop_last();
        lemma_insert_all(m, t, k);
        assert forall|j: int| 0 <= j < t.len() implies #[trigger] t[j] == s[j] by {}
        assert forall|i: int|
            0 <= i < s.len() && (#[trigger] s[i]).0 == k && (forall|j: int|
                i < j < s.len() ==> (#[trigger] s[j]).0 != k) implies insert_all(m, s).contains_key(k)
            && insert_all(m, s)[k] == s[i].1 by {
            if i < s.len() - 1 {
                assert(s[s.len() - 1].0 != k);
                assert(t[i] == s[i]);
                assert forall|j: int| i < j < t.len() implies (#[trigger] t[j]).0 != k by {
                    assert(t[j] == s[j]);
                }
            }
        }
        if forall|j: int| 0 <= j < s.len() ==> (#[trigger] s[j]).0 != k {
            assert forall|j: int| 0 <= j < t.len() implies (#[trigger] t[j]).0 != k by {
                assert(t[j] == s[j]);
            }
            assert(s[s.len() - 1].0 != k);
        }
    }
}

/// Every entry after inserting in order was there before or comes from a pair.
proof fn lemma_insert_all_source(
    m: IndexMap,
    s: Seq<((Seq<char>, Seq<char>), (Seq<char>, Seq<u8>, Seq<char>))>,
    k: (Seq<char>, Seq<char>),
)
    requires
        insert_all(m, s).contains_key(k),
    ensures
        (m.contains_key(k) && insert_all(m, s)[k] == m[k]) || exists|i: int|
            0 <= i < s.len() && (#[trigger] s[i]).0 == k && insert_all(m, s)[k] == s[i].1,
    decreases s.len(),
{
    if s.len() > 0 && s.last().0 != k {
        let t = s.drop_last();
        lemma_insert_all_source(m, t, k);
        if exists|i: int| 0 <= i < t.len() && (#[trigger] t[i]).0 == k && insert_all(m, t)[k] == t[i].1 {
            let i = choose|i: int| 0 <= i < t.len() && (#[trigger] t[i]).0 == k && insert_all(m, t)[k] == t[i].1;
            assert(s[i] == t[i]);
        }
    }
}

/// Deletion: after the entries of path `p` are purged, no entry of `p` is
/// left, and every entry of another path is kept unchanged.
pub proof fn lemma_purge_path(m: IndexMap, p: Seq<char>)
    ensures
        forall|k: (Seq<char>, Seq<char>)|
            #[trigger] purge_path(m, p).contains_key(k) ==> purge_path(m, p)[k].2 != p,
        forall|k: (Seq<char>, Seq<char>)|
            m.contains_key(k) && m[k].2 != p ==> #[trigger] purge_path(m, p).contains_key(k)
                && purge_path(m, p)[k] == m[k],
        forall|k: (Seq<char>, Seq<char>), q: Option<Seq<char>>|
            m.contains_key(k) && m[k].2 == p ==> #[trigger] lookup(purge_path(m, p), k.0, k.1, q) is None,
{
}

/// Load then lookup: after the file at `p` is reloaded with pairs `s`, the key
/// of any pair that no later pair overrides answers with that pair's certificate.
pub proof fn lemma_reload_then_lookup(
    m: IndexMap,
    p: Seq<char>,
    s: Seq<((Seq<char>, Seq<char>), (Seq<char>, Seq<u8>, Seq<char>))>,
    i: int,
)
    requires
        0 <= i < s.len(),
        forall|j: int| i < j < s.len() ==> (#[trigger] s[j]).0 != s[i].0,
    ensures
        lookup(reload_path(m, p, s), s[i].0.0, s[i].0.1, None) == Some(s[i].1.1),
        lookup(reload_path(m, p, s), s[i].0.0, s[i].0.1, Some(s[i].1.0)) == Some(s[i].1.1),
{
    lemma_insert_all(purge_path(m, p), s, s[i].0);
}

/// Invalidation on edit: a key that the file at `p` provided before and that
/// the reloaded file no longer yields is gone after the reload.
pub proof fn lemma_reload_drops_removed(
    m: IndexMap,
    p: Seq<char>,
    s: Seq<((Seq<char>, Seq<char>), (Seq<char>, Seq<u8>, Seq<char>))>,
    k: (Seq<char>, Seq<char>),
    q: Option<Seq<char>>,
)
    requires
        m.contains_key(k),
        m[k].2 == p,
        forall|j: int| 0 <= j < s.len() ==> (#[trigger] s[j]).0 != k,
    ensures
        !reload_path(m, p, s).contains_key(k),
        lookup(reload_path(m, p, s), k.0, k.1, q) is None,
{
    lemma_insert_all(purge_path(m, p), s, k);
}

/// Reloading one file leaves the entry of every other file in place, unless a
/// pair of the reloaded file takes its key.
pub proof fn lemma_reload_keeps_others(
    m: IndexMap,
    p: Seq<char>,
    s: Seq<((Seq<char>, Seq<char>), (Seq<char>, Seq<u8>, Seq<char>))>,
    k: (Seq<char>, Seq<char>),
)
    requires
        m.contains_key(k),
        m[k].2 != p,
        forall|j: int| 0 <= j < s.len() ==> (#[trigger] s[j]).0 != k,
    ensures
        reload_path(m, p, s).contains_key(k),
        reload_path(m, p, s)[k] == m[k],
{
    lemma_insert_all(purge_path(m, p), s, k);
}

/// A key that some pair of `s` holds is present after inserting `s`, with the
/// entry of one of those pairs.
proof fn lemma_insert_all_present(
    m: IndexMap,
    s: Seq<((Seq<char>, Seq<char>), (Seq<char>, Seq<u8>, Seq<char>))>,
    i: int,
)
    requires
        0 <= i < s.len(),
    ensures
        insert_all(m, s).contains_key(s[i].0),
        exists|j: int| 0 <= j < s.len() && (#[trigger] s[j]).0 == s[i].0 && insert_all(m, s)[s[i].0] == s[j].1,
    decreases s.len(),
{
    let k = s[i].0;
    if i == s.len() - 1 || s.last().0 == k {
        assert(s[s.len() - 1].0 == k);
    } else {
        let t = s.drop_last();
        assert(t[i] == s[i]);
        lemma_insert_all_present(m, t, i);
        let j = choose|j: int| 0 <= j < t.len() && (#[trigger] t[j]).0 == k && insert_all(m, t)[k] == t[j].1;
        assert(s[j] == t[j]);
    }
}

/// Invalidation on edit, the other half: every identity that the reloaded
/// file still yields keeps answering, with the certificate of one of the
/// reloaded pairs for that key.
pub proof fn lemma_reload_keeps_present(
    m: IndexMap,
    p: Seq<char>,
    s: Seq<((Seq<char>, Seq<char>), (Seq<char>, Seq<u8>, Seq<char>))>,
    i: int,
)
    requires
        0 <= i < s.len(),
    ensures
        lookup(reload_path(m, p, s), s[i].0.0, s[i].0.1, None) is Some,
        exists|j: int|
            0 <= j < s.len() && (#[trigger] s[j]).0 == s[i].0 && lookup(
                reload_path(m, p, s),
                s[i].0.0,
                s[i].0.1,
                None,
            ) == Some(s[j].1.1),
{
    lemma_insert_all_present(purge_path(m, p), s, i);
}

/// Local-part confirmation: when the requested local part differs from the
/// stored one, the lookup answers nothing even though the key is present.
pub proof fn lemma_mismatch_hides(m: IndexMap, hash: Seq<char>, domain: Seq<char>, requested: Seq<char>)
    requires
        m.contains_key((hash, domain)),
        m[(hash, domain)].0 != requested,
    ensures
        lookup(m, hash, domain, Some(requested)) is None,
{
}

/// Every key stays the lookup hash of its local part: purging keeps this, and
/// so does a reload whose pairs all come from the file's addresses.
pub proof fn lemma_reload_keeps_keys_matching(
    m: IndexMap,
    p: Seq<char>,
    s: Seq<((Seq<char>, Seq<char>), (Seq<char>, Seq<u8>, Seq<char>))>,
)
    requires
        keys_match_local_parts(m),
        forall|j: int| 0 <= j < s.len() ==> loaded_from((#[trigger] s[j]).0, s[j].1, p),
    ensures
        keys_match_local_parts(purge_path(m, p)),
        keys_match_local_parts(reload_path(m, p, s)),
{
    let base = purge_path(m, p);
    assert forall|k: (Seq<char>, Seq<char>)| #[trigger]
        reload_path(m, p, s).contains_key(k) implies k.0 == wkd_hash(reload_path(m, p, s)[k].0) by {
        lemma_insert_all_source(base, s, k);
        if !(base.contains_key(k) && insert_all(base, s)[k] == base[k]) {
            let i = choose|i: int|
                0 <= i < s.len() && (#[trigger] s[i]).0 == k && insert_all(base, s)[k] == s[i].1;
            assert(loaded_from(s[i].0, s[i].1, p));
        }
    }
}

} // verus!
