//! The similarity index: the entries of the store and the embeddings of
//! their questions, kept paired position by position through every
//! mutation, with lookup by content hash and by similarity.
//!
//! Whatever needs the network or the disk stays with the caller: it embeds
//! the text, ranks the stored vectors against a query and writes the store
//! out. The index takes the results and decides what changes.

use vstd::prelude::*;
use crate::qa::persistence::EmbeddingCache;
use crate::qa::rebuild::{complete, question_hash, Rebuild};
use crate::qa::search::{find_best_match, is_best};
use crate::qa::types::{
    clone_items, embedding_views, item_views, FormattedText, ItemView, QAItem, QASystem, SystemView,
};
use crate::qa::utils::{get_question_hash, is_prefix, sha256_hex, starts_with};

verus! {

/// Every entry has its vector.
pub open spec fn paired(s: SystemView) -> bool {
    s.entries.len() == s.vectors.len()
}

/// The first position at or after `from` whose question has the content
/// hash `hash`.
pub open spec fn hash_position(entries: Seq<ItemView>, hash: Seq<char>, from: int) -> Option<int>
    decreases entries.len() - from,
{
    if from < 0 || from >= entries.len() {
        None
    } else if sha256_hex(entries[from].question.text) == hash {
        Some(from)
    } else {
        hash_position(entries, hash, from + 1)
    }
}

/// The first position at or after `from` whose content hash begins with
/// `prefix`.
pub open spec fn prefix_position(entries: Seq<ItemView>, prefix: Seq<char>, from: int) -> Option<int>
    decreases entries.len() - from,
{
    if from < 0 || from >= entries.len() {
        None
    } else if is_prefix(prefix, sha256_hex(entries[from].question.text)) {
        Some(from)
    } else {
        prefix_position(entries, prefix, from + 1)
    }
}

/// The index with `item` and its vector appended.
pub open spec fn inserted(s: SystemView, item: ItemView, vector: Seq<u64>) -> SystemView {
    SystemView { entries: s.entries.push(item), vectors: s.vectors.push(vector) }
}

/// The index without the first entry whose question hashes to `hash`, and
/// without that entry's vector. An unknown hash changes nothing.
pub open spec fn deleted(s: SystemView, hash: Seq<char>) -> SystemView {
    match hash_position(s.entries, hash, 0) {
        Some(at) => SystemView { entries: s.entries.remove(at), vectors: s.vectors.remove(at) },
        None => s,
    }
}

/// The index with `item` and `vector` in the place of the first entry whose
/// question hashes to `hash`. An unknown hash changes nothing.
pub open spec fn updated(s: SystemView, hash: Seq<char>, item: ItemView, vector: Seq<u64>) -> SystemView {
    match hash_position(s.entries, hash, 0) {
        Some(at) => SystemView {
            entries: s.entries.update(at, item),
            vectors: s.vectors.update(at, vector),
        },
        None => s,
    }
}

/// What a query answers: the entry at the best position together with its
/// score, provided the score reaches the threshold.
pub open spec fn query_answer(
    s: SystemView,
    scores: Seq<i64>,
    threshold: i64,
    answer: Option<(ItemView, i64)>,
) -> bool {
    match answer {
        Some((item, score)) => exists|at: int|
            #![trigger is_best(scores, at)]
            is_best(scores, at) && at < s.entries.len() && score == scores[at] && score >= threshold
                && item == s.entries[at],
        None => s.entries.len() == 0 || scores.len() == 0 || exists|at: int|
            #![trigger is_best(scores, at)]
            is_best(scores, at) && scores[at] < threshold,
    }
}

/// The similarity index.
pub struct QAService {
    system: QASystem,
}

impl View for QAService {
    type V = SystemView;

    closed spec fn view(&self) -> SystemView {
        self.system@
    }
}

impl QAService {
    #[verifier::type_invariant]
    spec fn entries_and_vectors_paired(self) -> bool {
        self.system.paired()
    }

    /// An index without entries.
    pub fn new() -> (service: Self)
        ensures
            service@.entries.len() == 0,
            service@.vectors.len() == 0,
            paired(service@),
    {
        QAService { system: QASystem::new() }
    }

    /// Takes the contents out for a mutation and leaves an empty index.
    fn take_system(&mut self) -> (system: QASystem)
        ensures
            system == old(self).system,
            system.paired(),
    {
        proof {
            use_type_invariant(&*self);
        }
        let mut system = QASystem::new();
        std::mem::swap(&mut self.system, &mut system);
        system
    }

    /// Ends a bulk load and makes its result the contents of the index:
    /// the entries of the store, each with the embedding of its question.
    /// The cache comes back together with the word whether it has to be
    /// written out. A bulk load that has entries left to embed is handed
    /// back, and the index stays as it was.
    pub fn load_and_embed_all(&mut self, rebuild: Rebuild) -> (outcome: Result<
        (EmbeddingCache, bool),
        Rebuild,
    >)
        requires
            rebuild.wf(),
        ensures
            paired(final(self)@),
            match outcome {
                Ok((cache, cache_was_updated)) => {
                    &&& complete(rebuild@)
                    &&& final(self)@.entries == rebuild@.entries
                    &&& final(self)@.vectors == rebuild@.vectors
                    &&& cache@ == rebuild@.cache
                    &&& cache_was_updated == rebuild@.cache_was_updated
                    &&& forall|i: int|
                        0 <= i < final(self)@.entries.len() ==> cache@.dom().contains(
                            question_hash(#[trigger] final(self)@.entries[i]),
                        ) && final(self)@.vectors[i] == cache@[question_hash(
                            final(self)@.entries[i],
                        )]
                },
                Err(unfinished) => {
                    &&& !complete(rebuild@)
                    &&& unfinished == rebuild
                    &&& final(self)@ == old(self)@
                },
            },
    {
        proof {
            use_type_invariant(&*self);
        }
        match rebuild.finish() {
            Ok((system, cache, cache_was_updated)) => {
                self.system = system;
                Ok((cache, cache_was_updated))
            },
            Err(unfinished) => Err(unfinished),
        }
    }

    /// The stored vectors, in the order of the entries, for ranking them
    /// against a query.
    pub fn question_embeddings(&self) -> (vectors: &Vec<Vec<u64>>)
        ensures
            embedding_views(vectors@) == self@.vectors,
            paired(self@),
    {
        proof {
            use_type_invariant(self);
        }
        &self.system.question_embeddings
    }

    /// Answers a query from the scores of the stored vectors against it:
    /// `scores[i]` ranks the vector of entry `i`. The entry with the greatest
    /// score is the answer if that score reaches `threshold`; among equal
    /// scores the earliest entry wins. An empty index answers nothing.
    pub fn find_matching_qa(&self, scores: &Vec<i64>, threshold: i64) -> (answer: Option<
        (QAItem, i64),
    >)
        requires
            scores@.len() == self@.entries.len(),
        ensures
            query_answer(
                self@,
                scores@,
                threshold,
                match answer {
                    Some((item, score)) => Some((item@, score)),
                    None => None,
                },
            ),
            self@.entries.len() == 0 ==> answer is None,
    {
        proof {
            use_type_invariant(self);
        }
        if self.system.question_embeddings.len() == 0 {
            return None;
        }
        match find_best_match(scores) {
            Some((index, similarity)) => {
                if similarity >= threshold {
                    let item = self.system.qa_data[index].clone();
                    proof {
                        assert(is_best(scores@, index as int));
                        assert(self@.entries[index as int] == item@);
                    }
                    Some((item, similarity))
                } else {
                    proof {
                        assert(is_best(scores@, index as int));
                    }
                    None
                }
            },
            None => None,
        }
    }

    /// Appends the pair of `question` and `answer` together with the
    /// embedding of the question.
    pub fn add_qa(&mut self, question: &FormattedText, answer: &FormattedText, embedding: Vec<u64>)
        ensures
            final(self)@ == inserted(
                old(self)@,
                ItemView { question: question@, answer: answer@ },
                embedding@,
            ),
            paired(final(self)@),
    {
        proof {
            use_type_invariant(&*self);
        }
        let new_item = QAItem { question: question.clone(), answer: answer.clone() };
        let mut system = self.take_system();
        system.qa_data.push(new_item);
        system.question_embeddings.push(embedding);
        self.system = system;
        proof {
            let target = inserted(
                old(self)@,
                ItemView { question: question@, answer: answer@ },
                embedding@,
            );
            assert(self@.entries =~= target.entries);
            assert(self@.vectors =~= target.vectors);
        }
    }

    /// The position of the first entry whose question hashes to
    /// `question_hash`.
    pub fn position_by_hash(&self, question_hash: &str) -> (found: Option<usize>)
        ensures
            match found {
                Some(at) => hash_position(self@.entries, question_hash@, 0) == Some(at as int) && at
                    < self@.entries.len(),
                None => hash_position(self@.entries, question_hash@, 0) is None,
            },
            paired(self@),
    {
        proof {
            use_type_invariant(self);
        }
        let wanted = question_hash.to_owned();
        let mut i: usize = 0;
        while i < self.system.qa_data.len()
            invariant
                i <= self.system.qa_data.len(),
                wanted@ == question_hash@,
                paired(self@),
                hash_position(self@.entries, question_hash@, 0) == hash_position(
                    self@.entries,
                    question_hash@,
                    i as int,
                ),
            decreases self.system.qa_data.len() - i,
        {
            let hash = get_question_hash(self.system.qa_data[i].question.text.as_str());
            proof {
                assert(self@.entries[i as int] == self.system.qa_data@[i as int]@);
            }
            if hash == wanted {
                return Some(i);
            }
            i += 1;
        }
        None
    }

    /// Removes the first entry whose question hashes to `question_hash`,
    /// and its vector with it. Says whether there was such an entry.
    pub fn delete_qa(&mut self, question_hash: &str) -> (found: bool)
        ensures
            final(self)@ == deleted(old(self)@, question_hash@),
            found == hash_position(old(self)@.entries, question_hash@, 0) is Some,
            paired(final(self)@),
    {
        proof {
            use_type_invariant(&*self);
        }
        match self.position_by_hash(question_hash) {
            Some(index) => {
                let mut system = self.take_system();
                system.qa_data.remove(index);
                system.question_embeddings.remove(index);
                self.system = system;
                proof {
                    let target = deleted(old(self)@, question_hash@);
                    assert(self@.entries =~= target.entries);
                    assert(self@.vectors =~= target.vectors);
                }
                true
            },
            None => false,
        }
    }

    /// Puts the pair of `new_question` and `new_answer`, with the embedding
    /// of the new question, in the place of the first entry whose question
    /// hashes to `old_question_hash`. Says whether there was such an entry.
    pub fn update_qa(
        &mut self,
        old_question_hash: &str,
        new_question: &FormattedText,
        new_answer: &FormattedText,
        embedding: Vec<u64>,
    ) -> (found: bool)
        ensures
            final(self)@ == updated(
                old(self)@,
                old_question_hash@,
                ItemView { question: new_question@, answer: new_answer@ },
                embedding@,
            ),
            found == hash_position(old(self)@.entries, old_question_hash@, 0) is Some,
            paired(final(self)@),
    {
        proof {
            use_type_invariant(&*self);
        }
        match self.position_by_hash(old_question_hash) {
            Some(index) => {
                let new_item = QAItem { question: new_question.clone(), answer: new_answer.clone() };
                let mut system = self.take_system();
                system.qa_data[index] = new_item;
                system.question_embeddings[index] = embedding;
                self.system = system;
                proof {
                    let target = updated(
                        old(self)@,
                        old_question_hash@,
                        ItemView { question: new_question@, answer: new_answer@ },
                        embedding@,
                    );
                    assert(self@.entries =~= target.entries);
                    assert(self@.vectors =~= target.vectors);
                }
                true
            },
            None => false,
        }
    }

    /// A copy of the entries, in their order.
    pub fn get_all_qa_items(&self) -> (items: Vec<QAItem>)
        ensures
            item_views(items@) == self@.entries,
    {
        clone_items(&self.system.qa_data)
    }

    /// The first entry whose content hash begins with `short_hash`, and
    /// that hash in full.
    pub fn find_by_short_hash(&self, short_hash: &str) -> (found: Option<(QAItem, String)>)
        ensures
            match found {
                Some((item, full_hash)) => {
                    &&& prefix_position(self@.entries, short_hash@, 0) matches Some(at)
                    &&& at < self@.entries.len()
                    &&& item@ == self@.entries[at]
                    &&& full_hash@ == sha256_hex(item@.question.text)
                    &&& is_prefix(short_hash@, full_hash@)
                },
                None => prefix_position(self@.entries, short_hash@, 0) is None,
            },
    {
        let mut i: usize = 0;
        while i < self.system.qa_data.len()
            invariant
                i <= self.system.qa_data.len(),
                prefix_position(self@.entries, short_hash@, 0) == prefix_position(
                    self@.entries,
                    short_hash@,
                    i as int,
                ),
            decreases self.system.qa_data.len() - i,
        {
            let full_hash = get_question_hash(self.system.qa_data[i].question.text.as_str());
            proof {
                assert(self@.entries[i as int] == self.system.qa_data@[i as int]@);
            }
            if starts_with(full_hash.as_str(), short_hash) {
                return Some((self.system.qa_data[i].clone(), full_hash));
            }
            i += 1;
        }
        None
    }

    /// The number of entries.
    pub fn qa_data_len(&self) -> (n: usize)
        ensures
            n == self@.entries.len(),
            n == self@.vectors.len(),
    {
        proof {
            use_type_invariant(self);
        }
        self.system.qa_data.len()
    }

    /// The number of vectors, which is the number of entries.
    pub fn question_embeddings_len(&self) -> (n: usize)
        ensures
            n == self@.vectors.len(),
            n == self@.entries.len(),
    {
        proof {
            use_type_invariant(self);
        }
        self.system.question_embeddings.len()
    }
}

} // verus!
