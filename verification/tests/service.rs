use telembed::qa::persistence::EmbeddingCache;
use telembed::qa::rebuild::{Rebuild, RebuildStep};
use telembed::qa::search::find_best_match;
use telembed::qa::service::QAService;
use telembed::qa::types::{EntityKind, FormattedText, QAItem, QASystem, TextEntity};
use telembed::qa::utils::get_question_hash;

fn cosine(a: &[f64], b: &[f64]) -> f64 {
    let dot: f64 = a.iter().zip(b.iter()).map(|(x, y)| x * y).sum();
    let norm_a = a.iter().map(|x| x * x).sum::<f64>().sqrt();
    let norm_b = b.iter().map(|x| x * x).sum::<f64>().sqrt();
    if norm_a == 0.0 || norm_b == 0.0 {
        return 0.0;
    }
    dot / (norm_a * norm_b)
}

/// An integer that orders as the similarity does.
fn rank(similarity: f64) -> i64 {
    if similarity.is_nan() {
        return i64::MIN;
    }
    let bits = (similarity + 0.0).to_bits() as i64;
    bits ^ (((bits >> 63) as u64) >> 1) as i64
}

fn bits(v: &[f64]) -> Vec<u64> {
    v.iter().map(|x| x.to_bits()).collect()
}

fn floats(v: &[u64]) -> Vec<f64> {
    v.iter().map(|x| f64::from_bits(*x)).collect()
}

fn query(service: &QAService, vector: &[f64], threshold: f64) -> Option<(QAItem, f64)> {
    let scores: Vec<i64> = service
        .question_embeddings()
        .iter()
        .map(|stored| rank(cosine(vector, &floats(stored))))
        .collect();
    let stored: Vec<f64> = service
        .question_embeddings()
        .iter()
        .map(|stored| cosine(vector, &floats(stored)))
        .collect();
    service
        .find_matching_qa(&scores, rank(threshold))
        .map(|(item, score)| {
            let at = scores.iter().position(|s| *s == score).unwrap();
            (item, stored[at])
        })
}

fn text(s: &str) -> FormattedText {
    FormattedText::plain(s)
}

fn check_paired(service: &QAService) {
    assert_eq!(service.qa_data_len(), service.question_embeddings_len());
    assert_eq!(service.get_all_qa_items().len(), service.question_embeddings().len());
}

#[test]
fn rank_orders_as_similarities_do() {
    let values = [-1.0, -0.5, -1e-300, 0.0, 1e-300, 0.25, 0.8, 0.95, 1.0];
    for a in values {
        for b in values {
            assert_eq!(a < b, rank(a) < rank(b));
            assert_eq!(a == b, rank(a) == rank(b));
        }
    }
    assert_eq!(rank(-0.0), rank(0.0));
}

#[test]
fn empty_index_answers_nothing() {
    let service = QAService::new();
    assert!(query(&service, &[1.0, 0.0, 0.0], 0.8).is_none());
    assert_eq!(service.qa_data_len(), 0);
    assert_eq!(service.question_embeddings_len(), 0);
}

#[test]
fn single_entry_matches_itself() {
    let mut service = QAService::new();
    service.add_qa(&text("q"), &text("a"), bits(&[1.0, 0.0]));
    let (item, similarity) = query(&service, &[1.0, 0.0], 0.95).unwrap();
    assert_eq!(item.question.text, "q");
    assert_eq!(item.answer.text, "a");
    assert_eq!(similarity, 1.0);
}

#[test]
fn best_below_threshold_is_no_match() {
    let mut service = QAService::new();
    service.add_qa(&text("q"), &text("a"), bits(&[1.0, 0.0]));
    // cos = 1/sqrt(2), about 0.707
    assert!(query(&service, &[1.0, 1.0], 0.8).is_none());
    let (item, similarity) = query(&service, &[1.0, 1.0], 0.7).unwrap();
    assert_eq!(item.question.text, "q");
    assert!((similarity - 0.5f64.sqrt()).abs() < 1e-12);
}

#[test]
fn threshold_is_reached_by_an_equal_score() {
    let mut service = QAService::new();
    service.add_qa(&text("q"), &text("a"), bits(&[1.0, 0.0]));
    let scores = vec![42];
    assert!(service.find_matching_qa(&scores, 42).is_some());
    assert!(service.find_matching_qa(&scores, 43).is_none());
    assert_eq!(service.find_matching_qa(&scores, 41).unwrap().1, 42);
}

#[test]
fn greatest_similarity_wins() {
    let mut service = QAService::new();
    service.add_qa(&text("east"), &text("1"), bits(&[1.0, 0.0]));
    service.add_qa(&text("north"), &text("2"), bits(&[0.0, 1.0]));
    service.add_qa(&text("north-east"), &text("3"), bits(&[1.0, 1.0]));
    let (item, _) = query(&service, &[0.1, 1.0], 0.5).unwrap();
    assert_eq!(item.question.text, "north");
    let (item, _) = query(&service, &[1.0, 0.9], 0.5).unwrap();
    assert_eq!(item.question.text, "north-east");
}

#[test]
fn ties_go_to_the_earliest_entry() {
    let mut service = QAService::new();
    service.add_qa(&text("first"), &text("1"), bits(&[2.0, 0.0]));
    service.add_qa(&text("second"), &text("2"), bits(&[1.0, 0.0]));
    service.add_qa(&text("third"), &text("3"), bits(&[3.0, 0.0]));
    let (item, similarity) = query(&service, &[1.0, 0.0], 0.9).unwrap();
    assert_eq!(item.question.text, "first");
    assert_eq!(similarity, 1.0);
    assert_eq!(find_best_match(&vec![5, 7, 7, 3, 7]), Some((1, 7)));
    assert_eq!(find_best_match(&vec![i64::MIN, i64::MIN]), Some((0, i64::MIN)));
    assert_eq!(find_best_match(&vec![]), None);
    assert_eq!(find_best_match(&vec![-3]), Some((0, -3)));
    assert_eq!(find_best_match(&vec![1, 2, 3]), Some((2, 3)));
}

#[test]
fn zero_vector_has_similarity_zero() {
    let mut service = QAService::new();
    service.add_qa(&text("nothing"), &text("a"), bits(&[0.0, 0.0]));
    assert!(query(&service, &[1.0, 0.0], 0.1).is_none());
    let (_, similarity) = query(&service, &[1.0, 0.0], 0.0).unwrap();
    assert_eq!(similarity, 0.0);
}

#[test]
fn insert_then_delete_restores_the_index() {
    let mut service = QAService::new();
    service.add_qa(&text("kept"), &text("a"), bits(&[1.0, 0.0]));
    let before = service.qa_data_len();
    service.add_qa(&text("What is Rust?"), &text("A language."), bits(&[0.0, 1.0]));
    check_paired(&service);
    assert_eq!(service.qa_data_len(), before + 1);
    let hash = get_question_hash("What is Rust?");
    assert_eq!(hash, "ab0952c6c08750a6621270e03336bd53c916584954a33c20cd7166ae75e417ed");
    assert!(service.find_by_short_hash(&hash).is_some());
    assert!(service.delete_qa(&hash));
    check_paired(&service);
    assert_eq!(service.qa_data_len(), before);
    assert!(service.find_by_short_hash(&hash).is_none());
    assert_eq!(service.get_all_qa_items()[0].question.text, "kept");
    assert_eq!(service.question_embeddings()[0], bits(&[1.0, 0.0]));
}

#[test]
fn delete_unknown_hash_changes_nothing() {
    let mut service = QAService::new();
    service.add_qa(&text("q"), &text("a"), bits(&[1.0]));
    assert!(!service.delete_qa("no such hash"));
    assert!(!service.delete_qa(""));
    assert_eq!(service.qa_data_len(), 1);
    check_paired(&service);
}

#[test]
fn delete_keeps_the_pairing_of_the_others() {
    let mut service = QAService::new();
    for (i, q) in ["a", "b", "c", "d"].iter().enumerate() {
        service.add_qa(&text(q), &text("x"), bits(&[i as f64]));
    }
    assert!(service.delete_qa(&get_question_hash("b")));
    let items = service.get_all_qa_items();
    let questions: Vec<&str> = items.iter().map(|i| i.question.text.as_str()).collect();
    assert_eq!(questions, vec!["a", "c", "d"]);
    assert_eq!(
        service.question_embeddings().clone(),
        vec![bits(&[0.0]), bits(&[2.0]), bits(&[3.0])]
    );
    check_paired(&service);
}

#[test]
fn delete_removes_only_the_first_of_equal_questions() {
    let mut service = QAService::new();
    service.add_qa(&text("dup"), &text("one"), bits(&[1.0]));
    service.add_qa(&text("dup"), &text("two"), bits(&[2.0]));
    assert!(service.delete_qa(&get_question_hash("dup")));
    assert_eq!(service.qa_data_len(), 1);
    assert_eq!(service.get_all_qa_items()[0].answer.text, "two");
    assert_eq!(service.question_embeddings()[0], bits(&[2.0]));
}

#[test]
fn update_replaces_entry_and_vector_in_place() {
    let mut service = QAService::new();
    service.add_qa(&text("a"), &text("1"), bits(&[1.0]));
    service.add_qa(&text("b"), &text("2"), bits(&[2.0]));
    service.add_qa(&text("c"), &text("3"), bits(&[3.0]));
    assert!(service.update_qa(&get_question_hash("b"), &text("B"), &text("two"), bits(&[9.0])));
    let items = service.get_all_qa_items();
    assert_eq!(items[1].question.text, "B");
    assert_eq!(items[1].answer.text, "two");
    assert_eq!(items[0].question.text, "a");
    assert_eq!(items[2].question.text, "c");
    assert_eq!(
        service.question_embeddings().clone(),
        vec![bits(&[1.0]), bits(&[9.0]), bits(&[3.0])]
    );
    check_paired(&service);
    // The entry now answers to the hash of its new question only.
    assert!(service.position_by_hash(&get_question_hash("b")).is_none());
    assert_eq!(service.position_by_hash(&get_question_hash("B")), Some(1));
}

#[test]
fn update_unknown_hash_changes_nothing() {
    let mut service = QAService::new();
    service.add_qa(&text("a"), &text("1"), bits(&[1.0]));
    assert!(!service.update_qa("nope", &text("x"), &text("y"), bits(&[5.0])));
    assert_eq!(service.get_all_qa_items()[0].question.text, "a");
    assert_eq!(service.question_embeddings()[0], bits(&[1.0]));
}

#[test]
fn short_hash_finds_the_first_entry_with_that_prefix() {
    let mut service = QAService::new();
    service.add_qa(&text("What is Rust?"), &text("A language."), bits(&[1.0]));
    service.add_qa(&text("What is Cargo?"), &text("A tool."), bits(&[2.0]));
    let (item, full) = service.find_by_short_hash("81c20693e2f77f64").unwrap();
    assert_eq!(item.question.text, "What is Cargo?");
    assert_eq!(full, "81c20693e2f77f64eb32a92395e4745d6e5047187a7a8fdd0ff777507241a06a");
    // The empty prefix is the beginning of every hash.
    let (item, _) = service.find_by_short_hash("").unwrap();
    assert_eq!(item.question.text, "What is Rust?");
    assert!(service.find_by_short_hash("zz").is_none());
    let too_long = format!("{}0", full);
    assert!(service.find_by_short_hash(&too_long).is_none());
}

#[test]
fn entries_keep_their_annotations() {
    let question = FormattedText {
        text: "see here".to_string(),
        entities: vec![TextEntity {
            kind: EntityKind::TextLink,
            argument: Some("https://example.com/".to_string()),
            offset: 4,
            length: 4,
        }],
    };
    let mut service = QAService::new();
    service.add_qa(&question, &text("a"), bits(&[1.0]));
    let stored = service.get_all_qa_items();
    assert_eq!(stored[0].question, question);
    assert_eq!(stored[0].clone(), stored[0]);
}

#[test]
fn bulk_load_installs_entries_with_their_embeddings() {
    let mut service = QAService::new();
    service.add_qa(&text("old"), &text("x"), bits(&[1.0]));

    // A load with a question left to embed is handed back.
    let items = vec![QAItem { question: text("q"), answer: text("a") }];
    let unfinished = Rebuild::new(items, EmbeddingCache::new());
    let mut rebuild = service.load_and_embed_all(unfinished).err().unwrap();
    assert_eq!(service.get_all_qa_items()[0].question.text, "old");
    assert_eq!(service.qa_data_len(), 1);

    assert_eq!(rebuild.advance(), RebuildStep::Embed { question: "q".to_string() });
    assert!(rebuild.supply(bits(&[0.5, 0.5])));
    assert_eq!(rebuild.advance(), RebuildStep::Done);
    let (cache, updated) = service.load_and_embed_all(rebuild).ok().unwrap();
    assert!(updated);
    assert_eq!(cache.get(&get_question_hash("q")), Some(bits(&[0.5, 0.5])));
    assert_eq!(service.qa_data_len(), 1);
    assert_eq!(service.get_all_qa_items()[0].question.text, "q");
    assert_eq!(service.question_embeddings()[0], bits(&[0.5, 0.5]));
    check_paired(&service);

    let empty = QASystem::new();
    assert!(empty.qa_data.is_empty() && empty.question_embeddings.is_empty());
}
