//! Choosing among the entries of the index: the best match by similarity
//! score, and the matches of a keyword.
//!
//! A score is an `i64` that stands for a similarity: a greater score is a
//! greater similarity, equal scores are equal similarities. The caller
//! computes similarities and ranks them; this module decides which entry
//! wins.

use vstd::prelude::*;
use crate::qa::types::{item_views, ItemView, QAItem};
use crate::text::{contains, lowercase, occurs_in, to_lowercase};

verus! {

/// Position `at` holds the greatest score, and no position before it holds
/// a score as great: among equal scores the earliest wins.
pub open spec fn is_best(scores: Seq<i64>, at: int) -> bool {
    &&& 0 <= at < scores.len()
    &&& forall|j: int| 0 <= j < scores.len() ==> scores[j] <= scores[at]
    &&& forall|j: int| 0 <= j < at ==> scores[j] < scores[at]
}

/// There is one best position at most.
pub proof fn lemma_best_is_unique(scores: Seq<i64>, a: int, b: int)
    requires
        is_best(scores, a),
        is_best(scores, b),
    ensures
        a == b,
{
    if a < b {
        assert(scores[a] < scores[b]);
    } else if b < a {
        assert(scores[b] < scores[a]);
    }
}

/// The position of the best score and that score, or `None` when there are
/// no scores.
pub fn find_best_match(scores: &Vec<i64>) -> (best: Option<(usize, i64)>)
    ensures
        best is None <==> scores@.len() == 0,
        best matches Some((at, score)) ==> is_best(scores@, at as int) && score == scores@[at as int],
{
    if scores.len() == 0 {
        return None;
    }
    let mut at: usize = 0;
    let mut i: usize = 1;
    while i < scores.len()
        invariant
            1 <= i <= scores.len(),
            at < i,
            forall|j: int| 0 <= j < i ==> scores@[j] <= scores@[at as int],
            forall|j: int| 0 <= j < at ==> scores@[j] < scores@[at as int],
        decreases scores.len() - i,
    {
        if scores[i] > scores[at] {
            at = i;
        }
        i += 1;
    }
    Some((at, scores[at]))
}

/// Most matches that a keyword search returns.
pub const MAX_KEYWORD_MATCHES: usize = 10;

/// Whether the question of `item` mentions `keywords`, letter case aside.
pub open spec fn mentions(item: ItemView, keywords: Seq<char>) -> bool {
    occurs_in(lowercase(keywords), lowercase(item.question.text))
}

/// The positions of the first `limit` entries among the first `upto` that
/// mention `keywords`, in their order.
pub open spec fn keyword_hits(entries: Seq<ItemView>, keywords: Seq<char>, upto: int, limit: int) -> Seq<int>
    decreases upto,
{
    if upto <= 0 {
        Seq::empty()
    } else {
        let before = keyword_hits(entries, keywords, upto - 1, limit);
        if before.len() < limit && mentions(entries[upto - 1], keywords) {
            before.push(upto - 1)
        } else {
            before
        }
    }
}

/// `found` holds copies of the entries of `store` at the positions `hits`,
/// in that order.
pub open spec fn copies_of(found: Seq<QAItem>, store: Seq<QAItem>, hits: Seq<int>) -> bool {
    &&& found.len() == hits.len()
    &&& forall|k: int|
        0 <= k < hits.len() ==> 0 <= #[trigger] hits[k] < store.len() && found[k]@ == store[hits[k]]@
}

/// The entries whose question contains `keywords`, letter case aside: the
/// first ten of them, in the order of the store. Empty keywords match
/// nothing.
pub fn search_by_keyword(qa_data: &Vec<QAItem>, keywords: &str) -> (found: Vec<QAItem>)
    ensures
        keywords@.len() == 0 ==> found@.len() == 0,
        keywords@.len() > 0 ==> copies_of(
            found@,
            qa_data@,
            keyword_hits(
                item_views(qa_data@),
                keywords@,
                qa_data@.len() as int,
                MAX_KEYWORD_MATCHES as int,
            ),
        ),
        found@.len() <= MAX_KEYWORD_MATCHES,
{
    let mut found: Vec<QAItem> = Vec::new();
    if keywords.is_empty() {
        return found;
    }
    let lower_keywords = to_lowercase(keywords);
    let ghost entries = item_views(qa_data@);
    let mut i: usize = 0;
    while i < qa_data.len()
        invariant
            i <= qa_data.len(),
            entries == item_views(qa_data@),
            lower_keywords@ == lowercase(keywords@),
            found@.len() <= MAX_KEYWORD_MATCHES,
            copies_of(
                found@,
                qa_data@,
                keyword_hits(entries, keywords@, i as int, MAX_KEYWORD_MATCHES as int),
            ),
        decreases qa_data.len() - i,
    {
        let ghost before = keyword_hits(entries, keywords@, i as int, MAX_KEYWORD_MATCHES as int);
        let ghost found_before = found@;
        let lower_question = to_lowercase(qa_data[i].question.text.as_str());
        if found.len() < MAX_KEYWORD_MATCHES && contains(
            lower_question.as_str(),
            lower_keywords.as_str(),
        ) {
            found.push(qa_data[i].clone());
        }
        proof {
            assert(entries[i as int] == qa_data@[i as int]@);
            let after = keyword_hits(entries, keywords@, i + 1, MAX_KEYWORD_MATCHES as int);
            assert forall|k: int| 0 <= k < after.len() implies 0 <= #[trigger] after[k]
                < qa_data@.len() && found@[k]@ == qa_data@[after[k]]@ by {
                if k < before.len() {
                    assert(after[k] == before[k]);
                    assert(found@[k] == found_before[k]);
                }
            }
        }
        i += 1;
    }
    found
}

/// The hits are positions of entries that mention the keywords, in
/// ascending order, no more than the limit.
pub proof fn lemma_keyword_hits_sorted(entries: Seq<ItemView>, keywords: Seq<char>, upto: int, limit: int)
    requires
        0 <= upto <= entries.len(),
    ensures
        keyword_hits(entries, keywords, upto, limit).len() <= upto,
        limit >= 0 ==> keyword_hits(entries, keywords, upto, limit).len() <= limit,
        forall|k: int|
            0 <= k < keyword_hits(entries, keywords, upto, limit).len() ==> {
                let at = #[trigger] keyword_hits(entries, keywords, upto, limit)[k];
                0 <= at < upto && mentions(entries[at], keywords)
            },
        forall|j: int, k: int|
            0 <= j < k < keyword_hits(entries, keywords, upto, limit).len() ==> keyword_hits(
                entries,
                keywords,
                upto,
                limit,
            )[j] < keyword_hits(entries, keywords, upto, limit)[k],
    decreases upto,
{
    if upto > 0 {
        lemma_keyword_hits_sorted(entries, keywords, upto - 1, limit);
    }
}

} // verus!
