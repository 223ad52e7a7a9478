//! What holds of the similarity index whatever its contents: entries and
//! vectors stay paired through every mutation, a query has one answer, and
//! an insertion is undone by deleting what was inserted.

use vstd::prelude::*;
use crate::qa::search::{is_best, lemma_best_is_unique};
use crate::qa::service::{deleted, hash_position, inserted, paired, query_answer, updated};
use crate::qa::types::{ItemView, SystemView};
use crate::qa::utils::sha256_hex;

verus! {

/// A position found for a hash lies in the index, holds a question with
/// that hash, and no earlier position does.
pub proof fn lemma_hash_position(entries: Seq<ItemView>, hash: Seq<char>, from: int)
    requires
        0 <= from,
    ensures
        match hash_position(entries, hash, from) {
            Some(at) => {
                &&& from <= at < entries.len()
                &&& sha256_hex(entries[at].question.text) == hash
                &&& forall|i: int|
                    from <= i < at ==> sha256_hex((#[trigger] entries[i]).question.text) != hash
            },
            None => forall|i: int|
                from <= i < entries.len() ==> sha256_hex((#[trigger] entries[i]).question.text)
                    != hash,
        },
    decreases entries.len() - from,
{
    if from < entries.len() && sha256_hex(entries[from].question.text) != hash {
        lemma_hash_position(entries, hash, from + 1);
    }
}

/// Entries and vectors stay paired: an index in which every entry has its
/// vector is such an index again after an insertion, after a deletion and
/// after an update, whether or not the hash is known. An insertion adds
/// one entry, a deletion of a known hash takes one away, an update keeps
/// the number.
pub proof fn lemma_mutations_keep_pairs(
    s: SystemView,
    hash: Seq<char>,
    item: ItemView,
    vector: Seq<u64>,
)
    requires
        paired(s),
    ensures
        paired(inserted(s, item, vector)),
        inserted(s, item, vector).entries.len() == s.entries.len() + 1,
        paired(deleted(s, hash)),
        deleted(s, hash).entries.len() == if hash_position(s.entries, hash, 0) is Some {
            s.entries.len() - 1
        } else {
            s.entries.len() as int
        },
        paired(updated(s, hash, item, vector)),
        updated(s, hash, item, vector).entries.len() == s.entries.len(),
{
    lemma_hash_position(s.entries, hash, 0);
}

/// The pairing is by position: a mutation leaves every other entry with
/// the vector it had. After a deletion the entries behind the deleted one
/// have moved up by one place, together with their vectors.
pub proof fn lemma_mutations_keep_partners(
    s: SystemView,
    hash: Seq<char>,
    item: ItemView,
    vector: Seq<u64>,
)
    requires
        paired(s),
    ensures
        forall|i: int|
            0 <= i < s.entries.len() ==> #[trigger] inserted(s, item, vector).entries[i]
                == s.entries[i] && inserted(s, item, vector).vectors[i] == s.vectors[i],
        inserted(s, item, vector).entries.last() == item,
        inserted(s, item, vector).vectors.last() == vector,
        hash_position(s.entries, hash, 0) matches Some(at) ==> {
            &&& forall|i: int|
                0 <= i < at ==> #[trigger] deleted(s, hash).entries[i] == s.entries[i] && deleted(
                    s,
                    hash,
                ).vectors[i] == s.vectors[i]
            &&& forall|i: int|
                at <= i < s.entries.len() - 1 ==> #[trigger] deleted(s, hash).entries[i]
                    == s.entries[i + 1] && deleted(s, hash).vectors[i] == s.vectors[i + 1]
            &&& forall|i: int|
                0 <= i < s.entries.len() && i != at ==> #[trigger] updated(
                    s,
                    hash,
                    item,
                    vector,
                ).entries[i] == s.entries[i] && updated(s, hash, item, vector).vectors[i]
                    == s.vectors[i]
            &&& updated(s, hash, item, vector).entries[at] == item
            &&& updated(s, hash, item, vector).vectors[at] == vector
        },
{
    lemma_hash_position(s.entries, hash, 0);
}

/// A query has one answer: nothing when the index is empty, nothing when
/// the best score lies below the threshold, and otherwise the entry at the
/// best position with its score.
pub proof fn lemma_query_answer(
    s: SystemView,
    scores: Seq<i64>,
    threshold: i64,
    answer: Option<(ItemView, i64)>,
    at: int,
)
    requires
        scores.len() == s.entries.len(),
        query_answer(s, scores, threshold, answer),
    ensures
        s.entries.len() == 0 ==> answer is None,
        is_best(scores, at) && scores[at] < threshold ==> answer is None,
        is_best(scores, at) && scores[at] >= threshold ==> answer == Some((s.entries[at], scores[at])),
{
    if is_best(scores, at) {
        match answer {
            Some((item, score)) => {
                let found = choose|found: int|
                    #![trigger is_best(scores, found)]
                    is_best(scores, found) && found < s.entries.len() && score == scores[found]
                        && score >= threshold && item == s.entries[found];
                lemma_best_is_unique(scores, found, at);
            },
            None => {
                let found = choose|found: int|
                    #![trigger is_best(scores, found)]
                    is_best(scores, found) && scores[found] < threshold;
                lemma_best_is_unique(scores, found, at);
            },
        }
    }
}

/// Some position is the best one as soon as there is a score.
pub proof fn lemma_best_exists(scores: Seq<i64>) -> (at: int)
    requires
        scores.len() > 0,
    ensures
        is_best(scores, at),
    decreases scores.len(),
{
    if scores.len() == 1 {
        0
    } else {
        let rest = scores.drop_last();
        let before = lemma_best_exists(rest);
        assert forall|j: int| 0 <= j < rest.len() implies rest[j] == scores[j] by {}
        if scores.last() > scores[before] {
            (scores.len() - 1) as int
        } else {
            before
        }
    }
}

/// Deleting what was just inserted brings the index back to the number of
/// entries it had, and to the very index it was if no entry before had a
/// question with the same hash.
pub proof fn lemma_delete_undoes_insert(s: SystemView, item: ItemView, vector: Seq<u64>)
    requires
        paired(s),
    ensures
        deleted(inserted(s, item, vector), sha256_hex(item.question.text)).entries.len()
            == s.entries.len(),
        paired(deleted(inserted(s, item, vector), sha256_hex(item.question.text))),
        hash_position(s.entries, sha256_hex(item.question.text), 0) is None ==> deleted(
            inserted(s, item, vector),
            sha256_hex(item.question.text),
        ) == s,
{
    let hash = sha256_hex(item.question.text);
    let grown = inserted(s, item, vector);
    lemma_hash_position(grown.entries, hash, 0);
    lemma_hash_position(s.entries, hash, 0);
    assert(grown.entries[s.entries.len() as int] == item);
    if hash_position(s.entries, hash, 0) is None {
        let at = hash_position(grown.entries, hash, 0)->0;
        if at < s.entries.len() {
            assert(grown.entries[at] == s.entries[at]);
        }
        assert(at == s.entries.len());
        assert(grown.entries.remove(at) =~= s.entries);
        assert(grown.vectors.remove(at) =~= s.vectors);
    }
}

} // verus!
