//! The cache of embeddings: for each content hash the vector that was
//! computed for the question with that hash.
//!
//! Entries are added or overwritten, never evicted. The cache is written to
//! disk as one keyed file for each embedding model; this module decides the
//! name of that file and what the cache holds, the caller reads and writes
//! the file.

use vstd::prelude::*;
use crate::qa::utils::{get_question_hash, sha256_hex};
use crate::text::{alphanumeric, is_alphanumeric, is_trim_of, push_char, trimmed_equals};

verus! {

broadcast use vstd::string::group_string_axioms;

struct CacheEntry {
    hash: String,
    vector: Vec<u64>,
}

/// The first position at or after `from` whose hash is `hash`.
spec fn slot_of(entries: Seq<CacheEntry>, hash: Seq<char>, from: int) -> Option<int>
    decreases entries.len() - from,
{
    if from < 0 || from >= entries.len() {
        None
    } else if entries[from].hash@ == hash {
        Some(from)
    } else {
        slot_of(entries, hash, from + 1)
    }
}

proof fn lemma_slot_of(entries: Seq<CacheEntry>, hash: Seq<char>, from: int)
    requires
        0 <= from,
    ensures
        match slot_of(entries, hash, from) {
            Some(at) => from <= at < entries.len() && entries[at].hash@ == hash && forall|i: int|
                from <= i < at ==> (#[trigger] entries[i]).hash@ != hash,
            None => forall|i: int| from <= i < entries.len() ==> (#[trigger] entries[i]).hash@ != hash,
        },
    decreases entries.len() - from,
{
    if from < entries.len() && entries[from].hash@ != hash {
        lemma_slot_of(entries, hash, from + 1);
    }
}

/// No hash has two entries.
spec fn distinct(entries: Seq<CacheEntry>) -> bool {
    forall|i: int, j: int|
        0 <= i < j < entries.len() ==> (#[trigger] entries[i]).hash@ != (#[trigger] entries[j]).hash@
}

/// In a list without doubles a hash is found in its entry and nowhere else.
proof fn lemma_lookup(entries: Seq<CacheEntry>, hash: Seq<char>)
    requires
        distinct(entries),
    ensures
        forall|i: int|
            0 <= i < entries.len() && (#[trigger] entries[i]).hash@ == hash ==> slot_of(
                entries,
                hash,
                0,
            ) == Some(i),
        slot_of(entries, hash, 0) matches Some(at) ==> 0 <= at < entries.len() && entries[at].hash@
            == hash,
{
    lemma_slot_of(entries, hash, 0);
}

/// The hashes of the first `upto` entries.
spec fn hashes_upto(entries: Seq<CacheEntry>, upto: int) -> Set<Seq<char>>
    decreases upto,
{
    if upto <= 0 {
        Set::empty()
    } else {
        hashes_upto(entries, upto - 1).insert(entries[upto - 1].hash@)
    }
}

/// In a list without doubles the first `upto` entries have `upto` hashes.
proof fn lemma_hashes_counted(entries: Seq<CacheEntry>, upto: int)
    requires
        distinct(entries),
        0 <= upto <= entries.len(),
    ensures
        hashes_upto(entries, upto).finite(),
        hashes_upto(entries, upto).len() == upto,
        forall|h: Seq<char>|
            hashes_upto(entries, upto).contains(h) <==> exists|k: int|
                0 <= k < upto && (#[trigger] entries[k]).hash@ == h,
    decreases upto,
{
    if upto > 0 {
        lemma_hashes_counted(entries, upto - 1);
        let before = hashes_upto(entries, upto - 1);
        let added = entries[upto - 1].hash@;
        if before.contains(added) {
            let k = choose|k: int| 0 <= k < upto - 1 && (#[trigger] entries[k]).hash@ == added;
            assert(entries[k].hash@ != entries[upto - 1].hash@);
        }
        assert forall|h: Seq<char>|
            hashes_upto(entries, upto).contains(h) <==> exists|k: int|
                0 <= k < upto && (#[trigger] entries[k]).hash@ == h by {
            if hashes_upto(entries, upto).contains(h) {
                if h == added {
                    assert(entries[upto - 1].hash@ == h);
                } else {
                    let k = choose|k: int| 0 <= k < upto - 1 && (#[trigger] entries[k]).hash@ == h;
                    assert(0 <= k < upto && entries[k].hash@ == h);
                }
            }
        }
    }
}

/// The cache of embeddings, keyed by content hash.
pub struct EmbeddingCache {
    entries: Vec<CacheEntry>,
}

impl View for EmbeddingCache {
    type V = Map<Seq<char>, Seq<u64>>;

    closed spec fn view(&self) -> Map<Seq<char>, Seq<u64>> {
        Map::new(
            |hash: Seq<char>| slot_of(self.entries@, hash, 0) is Some,
            |hash: Seq<char>| self.entries@[slot_of(self.entries@, hash, 0)->0].vector@,
        )
    }
}

impl EmbeddingCache {
    #[verifier::type_invariant]
    spec fn one_entry_for_each_hash(self) -> bool {
        distinct(self.entries@)
    }

    /// A cache without entries.
    pub fn new() -> (cache: Self)
        ensures
            cache@ == Map::<Seq<char>, Seq<u64>>::empty(),
    {
        let cache = EmbeddingCache { entries: Vec::new() };
        proof {
            assert(cache@ =~= Map::<Seq<char>, Seq<u64>>::empty());
        }
        cache
    }

    fn find(&self, hash: &String) -> (slot: Option<usize>)
        ensures
            match slot {
                Some(at) => slot_of(self.entries@, hash@, 0) == Some(at as int) && at
                    < self.entries@.len(),
                None => slot_of(self.entries@, hash@, 0) is None,
            },
    {
        let mut i: usize = 0;
        while i < self.entries.len()
            invariant
                i <= self.entries.len(),
                slot_of(self.entries@, hash@, 0) == slot_of(self.entries@, hash@, i as int),
            decreases self.entries.len() - i,
        {
            if self.entries[i].hash == *hash {
                return Some(i);
            }
            i += 1;
        }
        None
    }

    /// A copy of the vector cached under `hash`, if there is one.
    pub fn get(&self, hash: &str) -> (vector: Option<Vec<u64>>)
        ensures
            self@.dom().contains(hash@) <==> vector is Some,
            vector matches Some(v) ==> v@ == self@[hash@],
    {
        let wanted = hash.to_owned();
        match self.find(&wanted) {
            Some(at) => Some(self.entries[at].vector.clone()),
            None => None,
        }
    }

    /// Whether a vector is cached under `hash`.
    pub fn contains_key(&self, hash: &str) -> (yes: bool)
        ensures
            yes == self@.dom().contains(hash@),
    {
        let wanted = hash.to_owned();
        self.find(&wanted).is_some()
    }

    /// Caches `vector` under `hash`, in place of what was cached there.
    pub fn insert(&mut self, hash: String, vector: Vec<u64>)
        ensures
            final(self)@ == old(self)@.insert(hash@, vector@),
    {
        proof {
            use_type_invariant(&*self);
        }
        let ghost before = self.entries@;
        let found = self.find(&hash);
        let mut entries: Vec<CacheEntry> = Vec::new();
        std::mem::swap(&mut self.entries, &mut entries);
        let ghost key = hash@;
        let ghost value = vector@;
        match found {
            Some(at) => {
                entries[at].vector = vector;
            },
            None => {
                entries.push(CacheEntry { hash, vector });
            },
        }
        let ghost after = entries@;
        proof {
            lemma_slot_of(before, key, 0);
            // The entry of the hash after the insertion.
            let home: int = match found {
                Some(at) => at as int,
                None => before.len() as int,
            };
            assert(after[home].hash@ == key && after[home].vector@ == value);
            assert forall|p: int| 0 <= p < before.len() implies (#[trigger] after[p]).hash@
                == before[p].hash@ && (p != home ==> after[p].vector@ == before[p].vector@) by {}
            assert(distinct(after));
            assert forall|h: Seq<char>|
                (slot_of(after, h, 0) is Some <==> (h == key || slot_of(before, h, 0) is Some)) && (
                slot_of(after, h, 0) is Some ==> after[slot_of(after, h, 0)->0].vector@ == (if h
                    == key {
                    value
                } else {
                    before[slot_of(before, h, 0)->0].vector@
                })) by {
                lemma_lookup(after, h);
                lemma_lookup(before, h);
                lemma_lookup(after, key);
                if slot_of(before, h, 0) is Some {
                    let q = slot_of(before, h, 0)->0;
                    assert(after[q].hash@ == h);
                }
                if slot_of(after, h, 0) is Some {
                    let p = slot_of(after, h, 0)->0;
                    if p < before.len() {
                        assert(before[p].hash@ == h);
                    }
                }
            }
        }
        self.entries = entries;
        proof {
            assert(self@ =~= old(self)@.insert(key, value));
        }
    }

    /// How many hashes the cache holds a vector for.
    pub fn len(&self) -> (n: usize)
        ensures
            self@.dom().finite(),
            n == self@.dom().len(),
    {
        proof {
            use_type_invariant(self);
            lemma_hashes_counted(self.entries@, self.entries@.len() as int);
            let hashes = hashes_upto(self.entries@, self.entries@.len() as int);
            assert forall|h: Seq<char>| hashes.contains(h) <==> #[trigger] self@.dom().contains(
                h,
            ) by {
                lemma_lookup(self.entries@, h);
                if hashes.contains(h) {
                    let k = choose|k: int|
                        0 <= k < self.entries@.len() && (#[trigger] self.entries@[k]).hash@ == h;
                    assert(self.entries@[k].hash@ == h);
                }
                if self@.dom().contains(h) {
                    let at = slot_of(self.entries@, h, 0)->0;
                    assert(self.entries@[at].hash@ == h);
                }
            }
            assert(hashes =~= self@.dom());
        }
        self.entries.len()
    }

    /// The hash and vector of every entry, for writing the cache out. The
    /// pairs are the cache: reading them back with [`cache_from_pairs`]
    /// gives a cache with the same mapping.
    pub fn to_pairs(&self) -> (pairs: Vec<(String, Vec<u64>)>)
        ensures
            map_of_pairs(pairs@, pairs@.len() as int) == self@,
            forall|i: int, j: int|
                0 <= i < j < pairs@.len() ==> (#[trigger] pairs@[i]).0@ != (#[trigger] pairs@[j]).0@,
    {
        proof {
            use_type_invariant(self);
        }
        let mut pairs: Vec<(String, Vec<u64>)> = Vec::new();
        let mut i: usize = 0;
        while i < self.entries.len()
            invariant
                i <= self.entries.len(),
                pairs@.len() == i,
                forall|k: int|
                    0 <= k < i ==> (#[trigger] pairs@[k]).0@ == self.entries@[k].hash@ && pairs@[k].1@
                        == self.entries@[k].vector@,
            decreases self.entries.len() - i,
        {
            pairs.push((self.entries[i].hash.clone(), self.entries[i].vector.clone()));
            i += 1;
        }
        proof {
            let n = pairs@.len() as int;
            let rebuilt = map_of_pairs(pairs@, n);
            let held = self@;
            assert forall|h: Seq<char>| #[trigger]
                rebuilt.dom().contains(h) <==> held.dom().contains(h) by {
                lemma_map_of_pairs(pairs@, n, h);
                lemma_lookup(self.entries@, h);
                if rebuilt.dom().contains(h) {
                    let k = choose|k: int| 0 <= k < n && (#[trigger] pairs@[k]).0@ == h;
                    assert(self.entries@[k].hash@ == h);
                }
                if held.dom().contains(h) {
                    let at = slot_of(self.entries@, h, 0)->0;
                    assert(pairs@[at].0@ == h);
                }
            }
            assert forall|h: Seq<char>| held.dom().contains(h) implies #[trigger] rebuilt[h]
                == held[h] by {
                lemma_map_of_pairs(pairs@, n, h);
                lemma_lookup(self.entries@, h);
                let at = slot_of(self.entries@, h, 0)->0;
                assert(pairs@[at].0@ == h);
                assert forall|j: int| at < j < n implies (#[trigger] pairs@[j]).0@ != h by {
                    assert(self.entries@[j].hash@ == pairs@[j].0@);
                }
            }
            assert(map_of_pairs(pairs@, n) =~= self@);
        }
        pairs
    }
}

impl Clone for EmbeddingCache {
    /// A copy of the cache, made by way of its pairs: what is written out
    /// and read back is the cache again.
    fn clone(&self) -> (copy: Self)
        ensures
            copy@ == self@,
    {
        cache_from_pairs(self.to_pairs())
    }
}

/// What the first `upto` pairs map a hash to: the vector of the last pair
/// with that hash, and nothing without such a pair.
proof fn lemma_map_of_pairs(pairs: Seq<(String, Vec<u64>)>, upto: int, hash: Seq<char>)
    requires
        0 <= upto <= pairs.len(),
    ensures
        map_of_pairs(pairs, upto).dom().contains(hash) <==> exists|k: int|
            0 <= k < upto && (#[trigger] pairs[k]).0@ == hash,
        forall|k: int|
            0 <= k < upto && (#[trigger] pairs[k]).0@ == hash && (forall|j: int|
                k < j < upto ==> (#[trigger] pairs[j]).0@ != hash) ==> map_of_pairs(
                pairs,
                upto,
            )[hash] == pairs[k].1@,
    decreases upto,
{
    if upto > 0 {
        lemma_map_of_pairs(pairs, upto - 1, hash);
        if pairs[upto - 1].0@ == hash {
            assert(0 <= upto - 1 < upto && pairs[upto - 1].0@ == hash);
        } else {
            assert forall|k: int|
                0 <= k < upto && (#[trigger] pairs[k]).0@ == hash && (forall|j: int|
                    k < j < upto ==> (#[trigger] pairs[j]).0@ != hash) implies map_of_pairs(
                pairs,
                upto,
            )[hash] == pairs[k].1@ by {
                assert(k < upto - 1);
                assert forall|j: int| k < j < upto - 1 implies (#[trigger] pairs[j]).0@ != hash by {}
            }
        }
    }
}

/// The cache that holds the given pairs; where a hash occurs more than once,
/// its last pair counts.
pub open spec fn map_of_pairs(pairs: Seq<(String, Vec<u64>)>, upto: int) -> Map<Seq<char>, Seq<u64>>
    decreases upto,
{
    if upto <= 0 {
        Map::empty()
    } else {
        map_of_pairs(pairs, upto - 1).insert(pairs[upto - 1].0@, pairs[upto - 1].1@)
    }
}

/// Builds the cache from the pairs read from its file.
pub fn cache_from_pairs(pairs: Vec<(String, Vec<u64>)>) -> (cache: EmbeddingCache)
    ensures
        cache@ == map_of_pairs(pairs@, pairs@.len() as int),
{
    let mut cache = EmbeddingCache::new();
    let mut i: usize = 0;
    while i < pairs.len()
        invariant
            i <= pairs.len(),
            cache@ == map_of_pairs(pairs@, i as int),
        decreases pairs.len() - i,
    {
        cache.insert(pairs[i].0.clone(), pairs[i].1.clone());
        i += 1;
    }
    cache
}

/// Caches `embedding` as the vector of the question `question_text`, under
/// the content hash of that text.
pub fn add_embedding_to_cache(cache: &mut EmbeddingCache, question_text: &str, embedding: Vec<u64>)
    ensures
        final(cache)@ == old(cache)@.insert(sha256_hex(question_text@), embedding@),
{
    let question_hash = get_question_hash(question_text);
    cache.insert(question_hash, embedding);
}

/// Whether a cache that was stored together with the hash `stored_hash`
/// belongs to the data whose hash is `expected_hash`: the stored hash, white
/// space at its ends aside, is the expected one.
pub fn cache_is_current(stored_hash: &str, expected_hash: &str) -> (current: bool)
    ensures
        current == is_trim_of(expected_hash@, stored_hash@),
{
    trimmed_equals(stored_hash, expected_hash)
}

/// A model name made fit for a file name: every character that is neither
/// a letter nor a digit becomes an underscore.
pub open spec fn sanitized(model: Seq<char>) -> Seq<char> {
    Seq::new(
        model.len(),
        |i: int|
            if alphanumeric(model[i]) {
                model[i]
            } else {
                '_'
            },
    )
}

/// The name of the cache file of the embedding model `model`.
pub open spec fn cache_file_name_of(model: Seq<char>) -> Seq<char> {
    "embeddings_cache_"@ + sanitized(model) + ".json"@
}

/// The name of the file, inside the cache directory, that holds the cache
/// of the embedding model `model`. Each model has a file of its own.
pub fn cache_file_name(model: &str) -> (name: String)
    ensures
        name@ == cache_file_name_of(model@),
{
    let mut name = "embeddings_cache_".to_string();
    let n = model.unicode_len();
    let mut i: usize = 0;
    while i < n
        invariant
            i <= n,
            n == model@.len(),
            name@ == "embeddings_cache_"@ + sanitized(model@).take(i as int),
        decreases n - i,
    {
        let c = model.get_char(i);
        let ghost before = name@;
        if is_alphanumeric(c) {
            push_char(&mut name, c);
        } else {
            push_char(&mut name, '_');
        }
        proof {
            assert(sanitized(model@).take(i + 1) =~= sanitized(model@).take(i as int).push(
                sanitized(model@)[i as int],
            ));
            assert(name@ =~= "embeddings_cache_"@ + sanitized(model@).take(i + 1));
        }
        i += 1;
    }
    proof {
        assert(sanitized(model@).take(n as int) =~= sanitized(model@));
    }
    name.append(".json");
    name
}

} // verus!
