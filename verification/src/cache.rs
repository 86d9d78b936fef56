use vstd::prelude::*;

use crate::model::JavaInfo;
use crate::text::str_equal;

verus! {

// ---------------------------------------------------------------------------
// Installations keyed by path
// ---------------------------------------------------------------------------

/// No key occurs twice among the entries.
pub open spec fn keys_unique(s: Seq<(Seq<char>, JavaInfo)>) -> bool {
    forall|i: int, j: int|
        0 <= i < s.len() && 0 <= j < s.len() && i != j ==> #[trigger] s[i].0 != #[trigger] s[j].0
}

/// Every stored installation is one that a successful validation produces.
pub open spec fn all_consistent(s: Seq<(Seq<char>, JavaInfo)>) -> bool {
    forall|i: int| 0 <= i < s.len() ==> (#[trigger] s[i]).1.is_consistent()
}

/// `key` is one of the keys of the entries.
pub open spec fn has_key(s: Seq<(Seq<char>, JavaInfo)>, key: Seq<char>) -> bool {
    exists|i: int| 0 <= i < s.len() && #[trigger] s[i].0 == key
}

/// The position of `key` among the entries (meaningful when it is present).
pub open spec fn key_position(s: Seq<(Seq<char>, JavaInfo)>, key: Seq<char>) -> int {
    choose|i: int| 0 <= i < s.len() && #[trigger] s[i].0 == key
}

/// The value stored under `key`.
pub open spec fn lookup(s: Seq<(Seq<char>, JavaInfo)>, key: Seq<char>) -> Option<JavaInfo> {
    if has_key(s, key) {
        Some(s[key_position(s, key)].1)
    } else {
        None
    }
}

/// The entries after storing `info` under `key`: an entry already under `key` gets the
/// new value in place, otherwise a new entry is added at the end.
pub open spec fn entries_insert(s: Seq<(Seq<char>, JavaInfo)>, key: Seq<char>, info: JavaInfo) -> Seq<
    (Seq<char>, JavaInfo),
> {
    if has_key(s, key) {
        s.update(key_position(s, key), (key, info))
    } else {
        s.push((key, info))
    }
}

/// The values of the entries, in entry order.
pub open spec fn entry_values(s: Seq<(Seq<char>, JavaInfo)>) -> Seq<JavaInfo> {
    s.map_values(|e: (Seq<char>, JavaInfo)| e.1)
}

/// The values are all the stored installations, none left out or added: one per entry,
/// the i-th being the i-th entry's installation.
pub proof fn lemma_entry_values(s: Seq<(Seq<char>, JavaInfo)>)
    ensures
        entry_values(s).len() == s.len(),
        forall|i: int| 0 <= i < s.len() ==> #[trigger] entry_values(s)[i] == s[i].1,
{
}

/// Java installations keyed by path, each key at most once and each installation a
/// consistent one; entries keep the order in which their keys were first stored.
pub struct InstallationMap {
    entries: Vec<(String, JavaInfo)>,
}

impl View for InstallationMap {
    type V = Seq<(Seq<char>, JavaInfo)>;

    closed spec fn view(&self) -> Seq<(Seq<char>, JavaInfo)> {
        self.entries@.map_values(|e: (String, JavaInfo)| (e.0@, e.1))
    }
}

impl InstallationMap {
    #[verifier::type_invariant]
    closed spec fn unique_keys(&self) -> bool {
        keys_unique(self@) && all_consistent(self@)
    }

    /// An empty map.
    pub fn new() -> (r: InstallationMap)
        ensures
            r@ == Seq::<(Seq<char>, JavaInfo)>::empty(),
    {
        let r = InstallationMap { entries: Vec::new() };
        assert(r@ =~= Seq::<(Seq<char>, JavaInfo)>::empty());
        r
    }

    /// Number of entries; no key occurs twice among them, and every installation is
    /// consistent.
    pub fn len(&self) -> (r: usize)
        ensures
            r == self@.len(),
            keys_unique(self@),
            all_consistent(self@),
    {
        proof {
            use_type_invariant(self);
        }
        self.entries.len()
    }

    /// Whether there are no entries.
    pub fn is_empty(&self) -> (r: bool)
        ensures
            r == (self@.len() == 0),
    {
        self.entries.len() == 0
    }

    /// The position of `key`, if it is present.
    fn position(&self, key: &str) -> (r: Option<usize>)
        ensures
            match r {
                Some(i) => i < self@.len() && self@[i as int].0 == key@,
                None => !has_key(self@, key@),
            },
    {
        let mut i: usize = 0;
        while i < self.entries.len()
            invariant
                i <= self.entries@.len(),
                forall|j: int| 0 <= j < i ==> #[trigger] self@[j].0 != key@,
            decreases self.entries@.len() - i,
        {
            if str_equal(self.entries[i].0.as_str(), key) {
                return Some(i);
            }
            i = i + 1;
        }
        None
    }

    /// Whether `key` is present.
    pub fn contains_key(&self, key: &str) -> (r: bool)
        ensures
            r == has_key(self@, key@),
    {
        self.position(key).is_some()
    }

    /// The installation stored under `key`.
    pub fn get(&self, key: &str) -> (r: Option<JavaInfo>)
        ensures
            r == lookup(self@, key@),
            r matches Some(info) ==> info.is_consistent(),
    {
        proof {
            use_type_invariant(self);
        }
        match self.position(key) {
            Some(i) => {
                let ghost k = key_position(self@, key@);
                assert(k == i);
                Some(self.entries[i].1.clone())
            },
            None => None,
        }
    }

    /// Stores `info` under `key`, replacing the value already stored there; gives back
    /// the value it replaced.
    pub fn insert(&mut self, key: String, info: JavaInfo) -> (r: Option<JavaInfo>)
        requires
            info.is_consistent(),
        ensures
            final(self)@ == entries_insert(old(self)@, key@, info),
            r == lookup(old(self)@, key@),
            keys_unique(final(self)@),
            all_consistent(final(self)@),
    {
        proof {
            use_type_invariant(&*self);
        }
        let ghost old_view = self@;
        match self.position(key.as_str()) {
            Some(i) => {
                let ghost k = key_position(old_view, key@);
                assert(k == i);
                let old_info = self.entries[i].1.clone();
                let mut entries: Vec<(String, JavaInfo)> = Vec::new();
                std::mem::swap(&mut entries, &mut self.entries);
                entries.set(i, (key, info));
                let ghost new_view = entries@.map_values(|e: (String, JavaInfo)| (e.0@, e.1));
                assert(new_view =~= old_view.update(i as int, (key@, info)));
                assert(keys_unique(new_view)) by {
                    assert forall|a: int, b: int|
                        0 <= a < new_view.len() && 0 <= b < new_view.len() && a != b implies #[trigger] new_view[a].0
                        != #[trigger] new_view[b].0 by {
                        if a != i && b != i {
                            assert(old_view[a].0 != old_view[b].0);
                        } else if a == i {
                            assert(old_view[i as int].0 != old_view[b].0);
                        } else {
                            assert(old_view[a].0 != old_view[i as int].0);
                        }
                    }
                }
                assert(all_consistent(new_view)) by {
                    assert forall|a: int| 0 <= a < new_view.len() implies (
                    #[trigger] new_view[a]).1.is_consistent() by {
                        if a != i {
                            assert(new_view[a] == old_view[a]);
                        }
                    }
                }
                self.entries = entries;
                assert(self@ =~= new_view);
                Some(old_info)
            },
            None => {
                let mut entries: Vec<(String, JavaInfo)> = Vec::new();
                std::mem::swap(&mut entries, &mut self.entries);
                entries.push((key, info));
                let ghost new_view = entries@.map_values(|e: (String, JavaInfo)| (e.0@, e.1));
                assert(new_view =~= old_view.push((key@, info)));
                assert(keys_unique(new_view)) by {
                    assert forall|a: int, b: int|
                        0 <= a < new_view.len() && 0 <= b < new_view.len() && a != b implies #[trigger] new_view[a].0
                        != #[trigger] new_view[b].0 by {
                        if a < old_view.len() && b < old_view.len() {
                            assert(old_view[a].0 != old_view[b].0);
                        } else if a == old_view.len() {
                            assert(old_view[b] == new_view[b]);
                        } else {
                            assert(old_view[a] == new_view[a]);
                        }
                    }
                }
                assert(all_consistent(new_view)) by {
                    assert forall|a: int| 0 <= a < new_view.len() implies (
                    #[trigger] new_view[a]).1.is_consistent() by {
                        if a < old_view.len() {
                            assert(new_view[a] == old_view[a]);
                        }
                    }
                }
                self.entries = entries;
                assert(self@ =~= new_view);
                None
            },
        }
    }

    /// Stores `info` under `key` unless `key` is already present; says whether it stored.
    pub fn insert_if_absent(&mut self, key: String, info: JavaInfo) -> (r: bool)
        requires
            info.is_consistent(),
        ensures
            r == !has_key(old(self)@, key@),
            r ==> final(self)@ == old(self)@.push((key@, info)),
            !r ==> final(self)@ == old(self)@,
    {
        if self.contains_key(key.as_str()) {
            false
        } else {
            self.insert(key, info);
            true
        }
    }

    /// Records what validating `key` found: the installation is stored under `key` when
    /// one was found, it is consistent, and `key` is not present yet; otherwise nothing
    /// changes. Says whether it stored.
    pub fn record_validated(&mut self, key: String, found: Option<JavaInfo>) -> (r: bool)
        ensures
            r == (found matches Some(info) && info.is_consistent() && !has_key(old(self)@, key@)),
            r ==> final(self)@ == old(self)@.push((key@, found->0)),
            !r ==> final(self)@ == old(self)@,
    {
        match found {
            Some(info) => {
                if info.check_consistency() {
                    self.insert_if_absent(key, info)
                } else {
                    false
                }
            },
            None => false,
        }
    }

    /// The installations, in entry order.
    pub fn values(&self) -> (r: Vec<JavaInfo>)
        ensures
            r@ == entry_values(self@),
            r@.len() == self@.len(),
            forall|i: int| 0 <= i < r@.len() ==> #[trigger] r@[i] == self@[i].1,
            forall|i: int| 0 <= i < r@.len() ==> (#[trigger] r@[i]).is_consistent(),
    {
        proof {
            use_type_invariant(self);
        }
        let mut r: Vec<JavaInfo> = Vec::new();
        let mut i: usize = 0;
        while i < self.entries.len()
            invariant
                i <= self.entries@.len(),
                r@ == entry_values(self@).take(i as int),
                all_consistent(self@),
            decreases self.entries@.len() - i,
        {
            r.push(self.entries[i].1.clone());
            i = i + 1;
            assert(r@ =~= entry_values(self@).take(i as int));
        }
        assert(r@ =~= entry_values(self@));
        r
    }

    /// The keys and installations, in entry order.
    pub fn to_entries(&self) -> (r: Vec<(String, JavaInfo)>)
        ensures
            r@.len() == self@.len(),
            forall|i: int|
                0 <= i < r@.len() ==> (#[trigger] r@[i]).0@ == self@[i].0 && r@[i].1 == self@[i].1,
    {
        let mut r: Vec<(String, JavaInfo)> = Vec::new();
        let mut i: usize = 0;
        while i < self.entries.len()
            invariant
                i <= self.entries@.len(),
                r@.len() == i,
                forall|j: int|
                    0 <= j < i ==> (#[trigger] r@[j]).0@ == self@[j].0 && r@[j].1 == self@[j].1,
            decreases self.entries@.len() - i,
        {
            let key = self.entries[i].0.clone();
            let info = self.entries[i].1.clone();
            r.push((key, info));
            i = i + 1;
        }
        r
    }
}

/// After a value is stored under a key, that key gives back the value; every other key
/// gives what it gave before; keys stay unique, and consistent installations stay so.
pub proof fn lemma_insert_then_lookup(
    s: Seq<(Seq<char>, JavaInfo)>,
    key: Seq<char>,
    info: JavaInfo,
    other: Seq<char>,
)
    requires
        keys_unique(s),
    ensures
        lookup(entries_insert(s, key, info), key) == Some(info),
        other != key ==> lookup(entries_insert(s, key, info), other) == lookup(s, other),
        keys_unique(entries_insert(s, key, info)),
        all_consistent(s) && info.is_consistent() ==> all_consistent(entries_insert(s, key, info)),
        entries_insert(s, key, info).len() == s.len() + (if has_key(s, key) {
            0int
        } else {
            1int
        }),
{
    let t = entries_insert(s, key, info);
    if has_key(s, key) {
        let p = key_position(s, key);
        assert(t[p].0 == key);
        assert(has_key(t, key));
        let q = key_position(t, key);
        assert(q == p) by {
            if q != p {
                assert(s[q].0 == key);
            }
        }
        if other != key {
            if has_key(s, other) {
                let o = key_position(s, other);
                assert(t[o].0 == other);
                let o2 = key_position(t, other);
                assert(o2 == o) by {
                    if o2 != o {
                        assert(s[o2].0 == other);
                    }
                }
            } else {
                assert(!has_key(t, other)) by {
                    if has_key(t, other) {
                        let o2 = key_position(t, other);
                        assert(s[o2].0 == other);
                    }
                }
            }
        }
        assert(keys_unique(t)) by {
            assert forall|a: int, b: int|
                0 <= a < t.len() && 0 <= b < t.len() && a != b implies #[trigger] t[a].0
                != #[trigger] t[b].0 by {
                if a != p && b != p {
                    assert(s[a].0 != s[b].0);
                } else if a == p {
                    assert(s[p].0 != s[b].0);
                } else {
                    assert(s[a].0 != s[p].0);
                }
            }
        }
    } else {
        assert(t[s.len() as int].0 == key);
        assert(has_key(t, key));
        let q = key_position(t, key);
        assert(q == s.len()) by {
            if q != s.len() {
                assert(s[q].0 == key);
            }
        }
        if other != key {
            if has_key(s, other) {
                let o = key_position(s, other);
                assert(t[o].0 == other);
                let o2 = key_position(t, other);
                assert(o2 == o) by {
                    if o2 != o {
                        assert(o2 < s.len());
                        assert(s[o2].0 == other);
                    }
                }
            } else {
                assert(!has_key(t, other)) by {
                    if has_key(t, other) {
                        let o2 = key_position(t, other);
                        assert(o2 < s.len());
                        assert(s[o2].0 == other);
                    }
                }
            }
        }
        assert(keys_unique(t)) by {
            assert forall|a: int, b: int|
                0 <= a < t.len() && 0 <= b < t.len() && a != b implies #[trigger] t[a].0
                != #[trigger] t[b].0 by {
                if a < s.len() && b < s.len() {
                    assert(s[a].0 != s[b].0);
                } else if a == s.len() {
                    assert(s[b].0 == t[b].0);
                } else {
                    assert(s[a].0 == t[a].0);
                }
            }
        }
    }
}

// ---------------------------------------------------------------------------
// Cache of the last scan
// ---------------------------------------------------------------------------

/// The installations found by the last scan of the system.
pub struct JavaCache {
    installations: InstallationMap,
}

/// What a look into the cache yields: the cached installations, or the need to scan.
pub enum CacheLookup {
    Cached(Vec<JavaInfo>),
    ScanNeeded,
}

/// What the cache answers: its installations when it holds any, otherwise nothing
/// (a scan is needed).
pub open spec fn cache_answer(s: Seq<(Seq<char>, JavaInfo)>) -> Option<Seq<JavaInfo>> {
    if s.len() > 0 {
        Some(entry_values(s))
    } else {
        None
    }
}

impl View for JavaCache {
    type V = Seq<(Seq<char>, JavaInfo)>;

    closed spec fn view(&self) -> Seq<(Seq<char>, JavaInfo)> {
        self.installations@
    }
}

impl JavaCache {
    /// An empty cache: nothing has been scanned yet.
    pub fn new() -> (r: JavaCache)
        ensures
            r@ == Seq::<(Seq<char>, JavaInfo)>::empty(),
    {
        JavaCache { installations: InstallationMap::new() }
    }
}

/// All Java installations known to the cache; when it holds none, the system has to be
/// scanned and the result stored with `refresh_java_cache`.
pub fn get_all_java_installations(cache: &JavaCache) -> (r: CacheLookup)
    ensures
        match r {
            CacheLookup::Cached(v) => cache_answer(cache@) == Some(v@) && v@.len() == cache@.len()
                && (forall|i: int| 0 <= i < v@.len() ==> #[trigger] v@[i] == cache@[i].1) && forall|
                i: int,
            | 0 <= i < v@.len() ==> (#[trigger] v@[i]).is_consistent(),
            CacheLookup::ScanNeeded => cache_answer(cache@) is None,
        },
{
    if cache.installations.is_empty() {
        CacheLookup::ScanNeeded
    } else {
        CacheLookup::Cached(cache.installations.values())
    }
}

/// Replaces the cached installations with those of a fresh scan and gives them back.
pub fn refresh_java_cache(cache: &mut JavaCache, scanned: InstallationMap) -> (r: Vec<JavaInfo>)
    ensures
        final(cache)@ == scanned@,
        r@ == entry_values(scanned@),
        r@.len() == scanned@.len(),
        forall|i: int| 0 <= i < r@.len() ==> #[trigger] r@[i] == scanned@[i].1,
        forall|i: int| 0 <= i < r@.len() ==> (#[trigger] r@[i]).is_consistent(),
{
    let r = scanned.values();
    cache.installations = scanned;
    r
}

/// After a refresh, the cache answers with exactly the installations of that scan, or
/// asks for a new scan when the scan found none.
pub proof fn lemma_refresh_then_lookup(scanned: Seq<(Seq<char>, JavaInfo)>)
    ensures
        scanned.len() > 0 ==> cache_answer(scanned) == Some(entry_values(scanned)),
        scanned.len() == 0 ==> cache_answer(scanned) is None,
{
}

} // verus!
