//! The bulk load of the index: every entry of the store gets the embedding
//! of its question, from the cache where the cache has it, from the provider
//! where it has not.
//!
//! The provider is the caller's to ask. A [`Rebuild`] walks through the
//! entries, takes what the cache has, stops at the first question that the
//! cache lacks, and goes on once the caller has supplied that embedding,
//! which it also puts into the cache. A question that occurs twice is
//! embedded once.

use vstd::prelude::*;
use crate::qa::persistence::EmbeddingCache;
use crate::qa::types::{embedding_views, item_views, ItemView, QAItem, QASystem};
use crate::qa::utils::{get_question_hash, sha256_hex};

verus! {

/// Milliseconds in a minute.
pub const MILLIS_PER_MINUTE: u64 = 60_000;

/// Milliseconds between provider calls when the credentials allow none.
pub const IDLE_SPACING_MILLIS: u64 = 3_600_000;

/// Milliseconds to leave between two provider calls so that `num_keys`
/// credentials with `rpm` requests a minute each are not overrun: a minute
/// divided by the requests that all credentials together allow in it,
/// rounded down; an hour when they allow none.
pub open spec fn request_spacing(rpm: u32, num_keys: usize) -> u64 {
    if rpm * num_keys > 0 {
        (MILLIS_PER_MINUTE as int / (rpm * num_keys)) as u64
    } else {
        IDLE_SPACING_MILLIS
    }
}

/// Milliseconds to leave between two provider calls during a bulk load, or
/// `None` when there is no credential to make them with.
pub fn request_spacing_millis(rpm: u32, num_keys: usize) -> (spacing: Option<u64>)
    ensures
        num_keys == 0 <==> spacing is None,
        spacing matches Some(millis) ==> millis == request_spacing(rpm, num_keys),
{
    if num_keys == 0 {
        return None;
    }
    if rpm == 0 {
        assert(rpm * num_keys == 0) by (nonlinear_arith)
            requires
                rpm == 0,
        ;
        return Some(IDLE_SPACING_MILLIS);
    }
    assert(rpm * num_keys >= rpm) by (nonlinear_arith)
        requires
            rpm > 0,
            num_keys >= 1,
    ;
    assert(rpm * num_keys >= num_keys) by (nonlinear_arith)
        requires
            rpm >= 1,
            num_keys > 0,
    ;
    if rpm as u64 > MILLIS_PER_MINUTE || num_keys > 60_000 {
        // More than sixty thousand requests a minute: less than a millisecond apart.
        assert(MILLIS_PER_MINUTE as int / (rpm * num_keys) == 0) by {
            vstd::arithmetic::div_mod::lemma_basic_div(MILLIS_PER_MINUTE as int, rpm * num_keys);
        }
        return Some(0);
    }
    assert(rpm * num_keys <= 60_000 * 60_000) by (nonlinear_arith)
        requires
            rpm <= 60_000,
            num_keys <= 60_000,
    ;
    let total_rpm: u64 = rpm as u64 * num_keys as u64;
    Some(MILLIS_PER_MINUTE / total_rpm)
}

/// The content hash of the question of `item`.
pub open spec fn question_hash(item: ItemView) -> Seq<char> {
    sha256_hex(item.question.text)
}

/// A bulk load as the contracts see it.
pub struct RebuildView {
    /// The entries of the store.
    pub entries: Seq<ItemView>,
    /// The cache as it stands.
    pub cache: Map<Seq<char>, Seq<u64>>,
    /// The embeddings found so far: those of the first entries.
    pub vectors: Seq<Seq<u64>>,
    /// Whether the cache has taken a new embedding since the start.
    pub cache_was_updated: bool,
}

/// The embeddings found so far are those that the cache holds for the first
/// entries.
pub open spec fn rebuild_wf(r: RebuildView) -> bool {
    &&& r.vectors.len() <= r.entries.len()
    &&& forall|i: int|
        0 <= i < r.vectors.len() ==> r.cache.dom().contains(question_hash(#[trigger] r.entries[i]))
            && r.cache[question_hash(r.entries[i])] == r.vectors[i]
}

/// Every entry has its embedding.
pub open spec fn complete(r: RebuildView) -> bool {
    r.vectors.len() == r.entries.len()
}

/// What the caller does next in a bulk load.
#[derive(Debug, PartialEq, Eq)]
pub enum RebuildStep {
    /// Embed this question and supply the result.
    Embed { question: String },
    /// Every entry has its embedding.
    Done,
}

/// A bulk load in progress.
pub struct Rebuild {
    items: Vec<QAItem>,
    cache: EmbeddingCache,
    vectors: Vec<Vec<u64>>,
    cache_was_updated: bool,
}

impl View for Rebuild {
    type V = RebuildView;

    closed spec fn view(&self) -> RebuildView {
        RebuildView {
            entries: item_views(self.items@),
            cache: self.cache@,
            vectors: embedding_views(self.vectors@),
            cache_was_updated: self.cache_was_updated,
        }
    }
}

impl Rebuild {
    /// The bookkeeping holds: see [`rebuild_wf`]. Every bulk load that this
    /// module hands out is in that state.
    pub open spec fn wf(&self) -> bool {
        rebuild_wf(self@)
    }

    /// Starts a bulk load of `items` with the cache as read from disk.
    pub fn new(items: Vec<QAItem>, cache: EmbeddingCache) -> (rebuild: Self)
        ensures
            rebuild.wf(),
            rebuild@ == (RebuildView {
                entries: item_views(items@),
                cache: cache@,
                vectors: Seq::empty(),
                cache_was_updated: false,
            }),
    {
        let rebuild = Rebuild { items, cache, vectors: Vec::new(), cache_was_updated: false };
        proof {
            assert(rebuild@.vectors =~= Seq::empty());
        }
        rebuild
    }

    /// Takes from the cache the embeddings of the entries that come next,
    /// as far as the cache has them, and says what is left to do: to embed
    /// the first question that the cache lacks, or nothing.
    pub fn advance(&mut self) -> (step: RebuildStep)
        requires
            old(self).wf(),
        ensures
            final(self).wf(),
            final(self)@.entries == old(self)@.entries,
            final(self)@.cache == old(self)@.cache,
            final(self)@.cache_was_updated == old(self)@.cache_was_updated,
            old(self)@.vectors.len() <= final(self)@.vectors.len(),
            final(self)@.vectors.subrange(0, old(self)@.vectors.len() as int) == old(self)@.vectors,
            match step {
                RebuildStep::Done => complete(final(self)@),
                RebuildStep::Embed { question } => {
                    let at = final(self)@.vectors.len() as int;
                    &&& at < final(self)@.entries.len()
                    &&& question@ == final(self)@.entries[at].question.text
                    &&& !final(self)@.cache.dom().contains(question_hash(final(self)@.entries[at]))
                },
            },
    {
        while self.vectors.len() < self.items.len()
            invariant
                self.wf(),
                self.items == old(self).items,
                self.cache == old(self).cache,
                self.cache_was_updated == old(self).cache_was_updated,
                old(self)@.vectors.len() <= self@.vectors.len(),
                self@.vectors.subrange(0, old(self)@.vectors.len() as int) == old(self)@.vectors,
            decreases self.items.len() - self.vectors.len(),
        {
            let at = self.vectors.len();
            let hash = get_question_hash(self.items[at].question.text.as_str());
            proof {
                assert(self@.entries[at as int] == self.items@[at as int]@);
            }
            match self.cache.get(hash.as_str()) {
                Some(vector) => {
                    let ghost before = self@.vectors;
                    self.vectors.push(vector);
                    proof {
                        assert(self@.vectors =~= before.push(vector@));
                        assert(self@.vectors.subrange(0, old(self)@.vectors.len() as int)
                            =~= before.subrange(0, old(self)@.vectors.len() as int));
                    }
                },
                None => {
                    return RebuildStep::Embed { question: self.items[at].question.text.clone() };
                },
            }
        }
        RebuildStep::Done
    }

    /// Takes `embedding` as the vector of the first entry without one and
    /// caches it under the hash of that entry's question. The embedding is
    /// turned away, and nothing changes, when every entry has its vector or
    /// when the cache already holds one for that question.
    pub fn supply(&mut self, embedding: Vec<u64>) -> (accepted: bool)
        requires
            old(self).wf(),
        ensures
            final(self).wf(),
            accepted <==> {
                let at = old(self)@.vectors.len() as int;
                at < old(self)@.entries.len() && !old(self)@.cache.dom().contains(
                    question_hash(old(self)@.entries[at]),
                )
            },
            !accepted ==> final(self)@ == old(self)@,
            accepted ==> final(self)@ == (RebuildView {
                entries: old(self)@.entries,
                cache: old(self)@.cache.insert(
                    question_hash(old(self)@.entries[old(self)@.vectors.len() as int]),
                    embedding@,
                ),
                vectors: old(self)@.vectors.push(embedding@),
                cache_was_updated: true,
            }),
    {
        let at = self.vectors.len();
        if at >= self.items.len() {
            return false;
        }
        let hash = get_question_hash(self.items[at].question.text.as_str());
        proof {
            assert(self@.entries[at as int] == self.items@[at as int]@);
        }
        if self.cache.contains_key(hash.as_str()) {
            return false;
        }
        let ghost before = self@;
        let copy = embedding.clone();
        self.vectors.push(embedding);
        self.cache.insert(hash, copy);
        self.cache_was_updated = true;
        proof {
            assert(self@.vectors =~= before.vectors.push(embedding@));
            assert forall|i: int| 0 <= i < self@.vectors.len() implies self@.cache.dom().contains(
                question_hash(#[trigger] self@.entries[i]),
            ) && self@.cache[question_hash(self@.entries[i])] == self@.vectors[i] by {
                if i < at {
                    assert(before.cache.dom().contains(question_hash(before.entries[i])));
                }
            }
        }
        true
    }

    /// How many entries have their embedding.
    pub fn embedded(&self) -> (n: usize)
        ensures
            n == self@.vectors.len(),
    {
        self.vectors.len()
    }

    /// How many entries the load covers.
    pub fn total(&self) -> (n: usize)
        ensures
            n == self@.entries.len(),
    {
        self.items.len()
    }

    /// Ends the bulk load: the paired entries and embeddings, the cache,
    /// and whether the cache has to be written out. A load that is not
    /// complete is handed back.
    pub fn finish(self) -> (outcome: Result<(QASystem, EmbeddingCache, bool), Rebuild>)
        requires
            self.wf(),
        ensures
            match outcome {
                Ok((system, cache, cache_was_updated)) => {
                    &&& complete(self@)
                    &&& system.paired()
                    &&& system@.entries == self@.entries
                    &&& system@.vectors == self@.vectors
                    &&& cache@ == self@.cache
                    &&& cache_was_updated == self@.cache_was_updated
                    &&& forall|i: int|
                        0 <= i < system@.entries.len() ==> cache@.dom().contains(
                            question_hash(#[trigger] system@.entries[i]),
                        ) && system@.vectors[i] == cache@[question_hash(system@.entries[i])]
                },
                Err(rebuild) => !complete(self@) && rebuild == self,
            },
    {
        if self.vectors.len() == self.items.len() {
            let system = QASystem { qa_data: self.items, question_embeddings: self.vectors };
            Ok((system, self.cache, self.cache_was_updated))
        } else {
            Err(self)
        }
    }
}

} // verus!
