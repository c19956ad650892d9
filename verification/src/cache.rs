use crate::table::same_text;
use crate::types::{copy_checksums, texts, Fingerprint, FingerprintView};
use dashmap::DashMap;
use vstd::prelude::*;

verus! {

/// The concurrent hash map of `dashmap`. Nothing inside it is visible to
/// the verifier; what it holds is named below.
#[verifier::external_type_specification]
#[verifier::external_body]
#[verifier::reject_recursive_types(K)]
#[verifier::reject_recursive_types(V)]
#[verifier::reject_recursive_types(S)]
pub struct ExDashMap<K, V, S>(dashmap::DashMap<K, V, S>);

/// What a map from paths to fingerprints holds.
pub uninterp spec fn fingerprint_entries(map: DashMap<String, Fingerprint>) -> Map<
    Seq<char>,
    FingerprintView,
>;

/// What a map from test names to checksum lists holds.
pub uninterp spec fn mapping_entries(map: DashMap<String, Vec<i32>>) -> Map<Seq<char>, Seq<i32>>;

/// The map that holds no fingerprint.
pub open spec fn no_fingerprints() -> Map<Seq<char>, FingerprintView> {
    Map::empty()
}

/// The map that holds no checksum list.
pub open spec fn no_mappings() -> Map<Seq<char>, Seq<i32>> {
    Map::empty()
}

/// `DashMap::new`: the new map holds nothing.
#[verifier::external_body]
fn new_fingerprint_map() -> (map: DashMap<String, Fingerprint>)
    ensures
        fingerprint_entries(map) == no_fingerprints(),
{
    DashMap::new()
}

/// `DashMap::get`, the value copied out: the value held under the key, if
/// there is one.
#[verifier::external_body]
fn fingerprint_lookup(map: &DashMap<String, Fingerprint>, key: &str) -> (found: Option<Fingerprint>)
    ensures
        match found {
            Some(fp) => fingerprint_entries(*map).contains_key(key@) && fp@ == fingerprint_entries(
                *map,
            )[key@],
            None => !fingerprint_entries(*map).contains_key(key@),
        },
{
    map.get(key).map(|entry| entry.duplicate())
}

/// `DashMap::insert`: afterwards the key holds the value, and the other
/// keys hold what they held.
#[verifier::external_body]
fn fingerprint_store(map: &mut DashMap<String, Fingerprint>, key: String, value: Fingerprint)
    ensures
        fingerprint_entries(*final(map)) == fingerprint_entries(*old(map)).insert(key@, value@),
{
    map.insert(key, value);
}

/// `DashMap::remove`: afterwards the key holds nothing, and the other keys
/// hold what they held.
#[verifier::external_body]
fn fingerprint_discard(map: &mut DashMap<String, Fingerprint>, key: &str)
    ensures
        fingerprint_entries(*final(map)) == fingerprint_entries(*old(map)).remove(key@),
{
    map.remove(key);
}

/// `DashMap::clear`: afterwards the map holds nothing.
#[verifier::external_body]
fn fingerprint_clear(map: &mut DashMap<String, Fingerprint>)
    ensures
        fingerprint_entries(*final(map)) == no_fingerprints(),
{
    map.clear();
}

/// `DashMap::new`: the new map holds nothing.
#[verifier::external_body]
fn new_mapping_map() -> (map: DashMap<String, Vec<i32>>)
    ensures
        mapping_entries(map) == no_mappings(),
{
    DashMap::new()
}

/// `DashMap::get`, the value copied out: the value held under the key, if
/// there is one.
#[verifier::external_body]
fn mapping_lookup(map: &DashMap<String, Vec<i32>>, key: &str) -> (found: Option<Vec<i32>>)
    ensures
        match found {
            Some(checksums) => mapping_entries(*map).contains_key(key@) && checksums@
                == mapping_entries(*map)[key@],
            None => !mapping_entries(*map).contains_key(key@),
        },
{
    map.get(key).map(|entry| copy_checksums(&entry))
}

/// `DashMap::insert`: afterwards the key holds the value, and the other
/// keys hold what they held.
#[verifier::external_body]
fn mapping_store(map: &mut DashMap<String, Vec<i32>>, key: String, value: Vec<i32>)
    ensures
        mapping_entries(*final(map)) == mapping_entries(*old(map)).insert(key@, value@),
{
    map.insert(key, value);
}

/// `DashMap::remove`: afterwards the key holds nothing, and the other keys
/// hold what they held.
#[verifier::external_body]
fn mapping_discard(map: &mut DashMap<String, Vec<i32>>, key: &str)
    ensures
        mapping_entries(*final(map)) == mapping_entries(*old(map)).remove(key@),
{
    map.remove(key);
}

/// `DashMap::clear`: afterwards the map holds nothing.
#[verifier::external_body]
fn mapping_clear(map: &mut DashMap<String, Vec<i32>>)
    ensures
        mapping_entries(*final(map)) == no_mappings(),
{
    map.clear();
}

/// The position of the first `key` at or after `from`.
pub open spec fn position(order: Seq<Seq<char>>, key: Seq<char>, from: int) -> Option<int>
    decreases order.len() - from,
{
    if from < 0 || from >= order.len() {
        None
    } else if order[from] == key {
        Some(from)
    } else {
        position(order, key, from + 1)
    }
}

/// The order of use after `key` was used: `key` is the most recently used,
/// and the other keys keep their order.
pub open spec fn promoted(order: Seq<Seq<char>>, key: Seq<char>) -> Seq<Seq<char>> {
    match position(order, key, 0) {
        Some(at) => order.remove(at).push(key),
        None => order.push(key),
    }
}

/// A bounded map with its order of use, least recently used first.
pub ghost struct Lru<V> {
    pub entries: Map<Seq<char>, V>,
    pub order: Seq<Seq<char>>,
}

impl<V> Lru<V> {
    /// The order lists each key of the map once, and the map holds no more
    /// than `max_size` entries.
    pub open spec fn consistent(self, max_size: int) -> bool {
        &&& self.order.no_duplicates()
        &&& forall|key: Seq<char>|
            #![trigger self.order.contains(key)]
            #![trigger self.entries.contains_key(key)]
            self.order.contains(key) <==> self.entries.contains_key(key)
        &&& self.order.len() <= max_size
    }

    /// A lookup makes a key that is held the most recently used.
    pub open spec fn touched(self, key: Seq<char>) -> Lru<V> {
        if self.entries.contains_key(key) {
            Lru { entries: self.entries, order: promoted(self.order, key) }
        } else {
            self
        }
    }

    /// Storing a value makes its key the most recently used; where that
    /// leaves more keys than `max_size`, the least recently used is dropped.
    pub open spec fn stored(self, max_size: int, key: Seq<char>, value: V) -> Lru<V> {
        let entries = self.entries.insert(key, value);
        let order = promoted(self.order, key);
        if order.len() > max_size {
            Lru { entries: entries.remove(order[0]), order: order.drop_first() }
        } else {
            Lru { entries, order }
        }
    }
}

/// What `position` finds.
pub proof fn lemma_position(order: Seq<Seq<char>>, key: Seq<char>, from: int)
    requires
        0 <= from,
    ensures
        match position(order, key, from) {
            Some(at) => from <= at < order.len() && order[at] == key,
            None => forall|i: int| from <= i < order.len() ==> order[i] != key,
        },
    decreases order.len() - from,
{
    if from < order.len() && order[from] != key {
        lemma_position(order, key, from + 1);
    }
}

/// Using a key keeps the keys apart and adds at most that key.
pub proof fn lemma_promoted(order: Seq<Seq<char>>, key: Seq<char>)
    requires
        order.no_duplicates(),
    ensures
        promoted(order, key).no_duplicates(),
        forall|k: Seq<char>| promoted(order, key).contains(k) <==> order.contains(k) || k == key,
        promoted(order, key).len() == if order.contains(key) {
            order.len()
        } else {
            order.len() + 1
        },
        promoted(order, key).last() == key,
{
    lemma_position(order, key, 0);
    let after = promoted(order, key);
    match position(order, key, 0) {
        Some(at) => {
            let rest = order.remove(at);
            assert(order.contains(key));
            assert forall|i: int| 0 <= i < rest.len() implies rest[i] == order[if i < at {
                i
            } else {
                i + 1
            }] by {}
            assert forall|i: int, j: int|
                0 <= i < after.len() && 0 <= j < after.len() && i != j implies after[i]
                != after[j] by {
                let oi = if i < at { i } else { i + 1 };
                let oj = if j < at { j } else { j + 1 };
                if i < rest.len() && j < rest.len() {
                    assert(after[i] == order[oi] && after[j] == order[oj]);
                } else if i < rest.len() {
                    assert(after[i] == order[oi]);
                } else {
                    assert(after[j] == order[oj]);
                }
            }
            assert forall|k: Seq<char>| after.contains(k) <==> order.contains(k) || k == key by {
                if after.contains(k) {
                    let i = choose|i: int| 0 <= i < after.len() && after[i] == k;
                    if i < rest.len() {
                        assert(order[if i < at { i } else { i + 1 }] == k);
                    }
                }
                if order.contains(k) && k != key {
                    let i = choose|i: int| 0 <= i < order.len() && order[i] == k;
                    assert(after[if i < at { i } else { i - 1 }] == k);
                }
                if k == key {
                    assert(after[after.len() - 1] == k);
                }
            }
        },
        None => {
            assert(!order.contains(key));
            assert forall|k: Seq<char>| after.contains(k) <==> order.contains(k) || k == key by {
                if after.contains(k) {
                    let i = choose|i: int| 0 <= i < after.len() && after[i] == k;
                    if i < order.len() {
                        assert(order[i] == k);
                    }
                }
                if order.contains(k) {
                    let i = choose|i: int| 0 <= i < order.len() && order[i] == k;
                    assert(after[i] == k);
                }
                if k == key {
                    assert(after[after.len() - 1] == k);
                }
            }
        },
    }
}

impl<V> Lru<V> {
    /// A lookup keeps a bounded map consistent and changes nothing that it
    /// holds.
    pub proof fn lookup_keeps_consistent(self, max_size: int, key: Seq<char>)
        requires
            self.consistent(max_size),
        ensures
            self.touched(key).consistent(max_size),
            self.touched(key).entries == self.entries,
    {
        lemma_promoted(self.order, key);
        let after = self.touched(key);
        assert forall|k: Seq<char>| after.order.contains(k) <==> after.entries.contains_key(
            k,
        ) by {
            assert(self.order.contains(k) <==> self.entries.contains_key(k));
            assert(self.order.contains(key) <==> self.entries.contains_key(key));
        }
    }

    /// Storing a value keeps a bounded map consistent, so that it never
    /// holds more than `max_size` entries. Unless `max_size` is 0, the value
    /// is held afterwards; an entry is dropped only where the key is new
    /// and the map is full, and then it is the least recently used.
    pub proof fn store_keeps_consistent(self, max_size: int, key: Seq<char>, value: V)
        requires
            self.consistent(max_size),
            0 <= max_size,
        ensures
            self.stored(max_size, key, value).consistent(max_size),
            max_size > 0 ==> self.stored(max_size, key, value).entries.contains_key(key)
                && self.stored(max_size, key, value).entries[key] == value,
            self.entries.contains_key(key) || self.order.len() < max_size ==> self.stored(
                max_size,
                key,
                value,
            ).entries == self.entries.insert(key, value),
            !self.entries.contains_key(key) && self.order.len() == max_size && max_size > 0
                ==> self.stored(max_size, key, value).entries == self.entries.remove(
                self.order[0],
            ).insert(key, value),
    {
        lemma_promoted(self.order, key);
        lemma_position(self.order, key, 0);
        let order = promoted(self.order, key);
        let entries = self.entries.insert(key, value);
        let after = self.stored(max_size, key, value);
        assert(self.order.contains(key) <==> self.entries.contains_key(key));
        assert forall|k: Seq<char>| order.contains(k) <==> entries.contains_key(k) by {
            assert(self.order.contains(k) <==> self.entries.contains_key(k));
        }
        if order.len() > max_size {
            assert(!self.order.contains(key));
            assert forall|i: int, j: int|
                0 <= i < after.order.len() && 0 <= j < after.order.len() && i != j implies after.order[i]
                != after.order[j] by {
                assert(after.order[i] == order[i + 1] && after.order[j] == order[j + 1]);
            }
            assert forall|k: Seq<char>| after.order.contains(k) <==> after.entries.contains_key(
                k,
            ) by {
                if after.order.contains(k) {
                    let i = choose|i: int| 0 <= i < after.order.len() && after.order[i] == k;
                    assert(order[i + 1] == k);
                    assert(order.contains(k));
                    assert(k != order[0]);
                }
                if after.entries.contains_key(k) {
                    assert(order.contains(k));
                    let i = choose|i: int| 0 <= i < order.len() && order[i] == k;
                    assert(i > 0);
                    assert(after.order[i - 1] == k);
                }
            }
            if max_size > 0 {
                assert(order[0] == self.order[0]);
                assert(order[0] != key) by {
                    assert(self.order.contains(self.order[0]));
                }
                assert(after.entries =~= self.entries.remove(self.order[0]).insert(key, value));
            }
        }
    }
}

/// What a cache holds.
pub ghost struct CacheView {
    pub fingerprints: Lru<FingerprintView>,
    pub test_mappings: Lru<Seq<i32>>,
    pub max_size: usize,
}

impl CacheView {
    /// Both maps are consistent and hold no more than `max_size` entries.
    pub open spec fn consistent(self) -> bool {
        self.fingerprints.consistent(self.max_size as int) && self.test_mappings.consistent(
            self.max_size as int,
        )
    }
}

/// Makes `key` the last of the keys.
fn promote(keys: &mut Vec<String>, key: String)
    ensures
        texts(final(keys)@) == promoted(texts(old(keys)@), key@),
{
    let ghost before = texts(keys@);
    let mut i: usize = 0;
    while i < keys.len() && !same_text(keys[i].as_str(), key.as_str())
        invariant
            i <= keys@.len(),
            keys@ == old(keys)@,
            before == texts(keys@),
            position(before, key@, 0) == position(before, key@, i as int),
        decreases keys.len() - i,
    {
        assert(before[i as int] == keys@[i as int]@);
        i += 1;
    }
    if i < keys.len() {
        assert(before[i as int] == keys@[i as int]@);
        keys.remove(i);
        assert(texts(keys@) =~= before.remove(i as int));
    }
    let ghost rest = texts(keys@);
    keys.push(key);
    assert(texts(keys@) =~= rest.push(key@));
}

/// A cache of fingerprints by path and of checksum lists by test name. Each
/// of the two maps holds at most `max_size` entries and drops the entry that
/// was used least recently when one more is stored.
pub struct Cache {
    fingerprints: DashMap<String, Fingerprint>,
    fingerprint_order: Vec<String>,
    test_mappings: DashMap<String, Vec<i32>>,
    mapping_order: Vec<String>,
    max_size: usize,
}

impl View for Cache {
    type V = CacheView;

    closed spec fn view(&self) -> CacheView {
        CacheView {
            fingerprints: Lru {
                entries: fingerprint_entries(self.fingerprints),
                order: texts(self.fingerprint_order@),
            },
            test_mappings: Lru {
                entries: mapping_entries(self.test_mappings),
                order: texts(self.mapping_order@),
            },
            max_size: self.max_size,
        }
    }
}

/// How many entries each map of a cache holds unless told otherwise.
pub const DEFAULT_CAPACITY: usize = 10_000;

/// The bounded map that holds nothing.
pub open spec fn empty_lru<V>() -> Lru<V> {
    Lru { entries: Map::empty(), order: Seq::empty() }
}

impl Cache {
    /// An empty cache that holds up to 10,000 entries in each map.
    pub fn new() -> (cache: Cache)
        ensures
            cache@.max_size == DEFAULT_CAPACITY,
            cache@.fingerprints == empty_lru::<FingerprintView>(),
            cache@.test_mappings == empty_lru::<Seq<i32>>(),
    {
        Cache::with_capacity(DEFAULT_CAPACITY)
    }

    /// An empty cache that holds up to `max_size` entries in each map.
    pub fn with_capacity(max_size: usize) -> (cache: Cache)
        ensures
            cache@.max_size == max_size,
            cache@.fingerprints == empty_lru::<FingerprintView>(),
            cache@.test_mappings == empty_lru::<Seq<i32>>(),
    {
        let cache = Cache {
            fingerprints: new_fingerprint_map(),
            fingerprint_order: Vec::new(),
            test_mappings: new_mapping_map(),
            mapping_order: Vec::new(),
            max_size,
        };
        assert(cache@.fingerprints.order =~= Seq::<Seq<char>>::empty());
        assert(cache@.test_mappings.order =~= Seq::<Seq<char>>::empty());
        cache
    }

    /// The fingerprint held for a path, which thereby becomes the most
    /// recently used.
    pub fn get_fingerprint(&mut self, path: &str) -> (found: Option<Fingerprint>)
        ensures
            match found {
                Some(fp) => old(self)@.fingerprints.entries.contains_key(path@) && fp@ == old(
                    self,
                )@.fingerprints.entries[path@],
                None => !old(self)@.fingerprints.entries.contains_key(path@),
            },
            final(self)@.fingerprints == old(self)@.fingerprints.touched(path@),
            final(self)@.test_mappings == old(self)@.test_mappings,
            final(self)@.max_size == old(self)@.max_size,
    {
        let found: Option<Fingerprint> = fingerprint_lookup(&self.fingerprints, path);
        if found.is_some() {
            promote(&mut self.fingerprint_order, path.to_string());
        }
        found
    }

    /// Holds a fingerprint for a path, which becomes the most recently
    /// used. Where the map then holds more than `max_size` entries, the one
    /// used least recently is dropped.
    pub fn insert_fingerprint(&mut self, path: String, fp: Fingerprint)
        ensures
            final(self)@.fingerprints == old(self)@.fingerprints.stored(
                old(self)@.max_size as int,
                path@,
                fp@,
            ),
            final(self)@.test_mappings == old(self)@.test_mappings,
            final(self)@.max_size == old(self)@.max_size,
    {
        fingerprint_store(&mut self.fingerprints, path.clone(), fp);
        promote(&mut self.fingerprint_order, path);
        if self.fingerprint_order.len() > self.max_size {
            self.evict_fingerprints();
        }
    }

    /// The checksum list held for a test, which thereby becomes the most
    /// recently used.
    pub fn get_test_mapping(&mut self, test_name: &str) -> (found: Option<Vec<i32>>)
        ensures
            match found {
                Some(checksums) => old(self)@.test_mappings.entries.contains_key(test_name@)
                    && checksums@ == old(self)@.test_mappings.entries[test_name@],
                None => !old(self)@.test_mappings.entries.contains_key(test_name@),
            },
            final(self)@.test_mappings == old(self)@.test_mappings.touched(test_name@),
            final(self)@.fingerprints == old(self)@.fingerprints,
            final(self)@.max_size == old(self)@.max_size,
    {
        let found: Option<Vec<i32>> = mapping_lookup(&self.test_mappings, test_name);
        if found.is_some() {
            promote(&mut self.mapping_order, test_name.to_string());
        }
        found
    }

    /// Holds a checksum list for a test, which becomes the most recently
    /// used. Where the map then holds more than `max_size` entries, the one
    /// used least recently is dropped.
    pub fn insert_test_mapping(&mut self, test_name: String, checksums: Vec<i32>)
        ensures
            final(self)@.test_mappings == old(self)@.test_mappings.stored(
                old(self)@.max_size as int,
                test_name@,
                checksums@,
            ),
            final(self)@.fingerprints == old(self)@.fingerprints,
            final(self)@.max_size == old(self)@.max_size,
    {
        mapping_store(&mut self.test_mappings, test_name.clone(), checksums);
        promote(&mut self.mapping_order, test_name);
        if self.mapping_order.len() > self.max_size {
            let ghost order = texts(self.mapping_order@);
            let oldest: String = self.mapping_order.remove(0);
            mapping_discard(&mut self.test_mappings, oldest.as_str());
            assert(texts(self.mapping_order@) =~= order.drop_first());
        }
    }

    /// Drops the fingerprint that was used least recently.
    fn evict_fingerprints(&mut self)
        requires
            old(self).fingerprint_order@.len() > 0,
        ensures
            final(self)@.fingerprints == (Lru {
                entries: old(self)@.fingerprints.entries.remove(old(self)@.fingerprints.order[0]),
                order: old(self)@.fingerprints.order.drop_first(),
            }),
            final(self)@.test_mappings == old(self)@.test_mappings,
            final(self)@.max_size == old(self)@.max_size,
    {
        let oldest: String = self.fingerprint_order.remove(0);
        fingerprint_discard(&mut self.fingerprints, oldest.as_str());
        assert(texts(self.fingerprint_order@) =~= texts(old(self).fingerprint_order@).drop_first());
    }

    /// Drops everything that is held.
    pub fn clear(&mut self)
        ensures
            final(self)@.fingerprints == empty_lru::<FingerprintView>(),
            final(self)@.test_mappings == empty_lru::<Seq<i32>>(),
            final(self)@.max_size == old(self)@.max_size,
    {
        fingerprint_clear(&mut self.fingerprints);
        mapping_clear(&mut self.test_mappings);
        self.fingerprint_order.clear();
        self.mapping_order.clear();
        assert(texts(self.fingerprint_order@) =~= Seq::<Seq<char>>::empty());
        assert(texts(self.mapping_order@) =~= Seq::<Seq<char>>::empty());
    }
}

impl Default for Cache {
    /// An empty cache that holds up to 10,000 entries in each map.
    fn default() -> (cache: Cache)
        ensures
            cache@.max_size == DEFAULT_CAPACITY,
            cache@.fingerprints == empty_lru::<FingerprintView>(),
            cache@.test_mappings == empty_lru::<Seq<i32>>(),
    {
        Cache::new()
    }
}

} // verus!
