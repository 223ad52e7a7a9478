use telembed::qa::persistence::{
    add_embedding_to_cache, cache_file_name, cache_from_pairs, cache_is_current, EmbeddingCache,
};
use telembed::qa::utils::get_question_hash;

#[test]
fn new_cache_is_empty() {
    let cache = EmbeddingCache::new();
    assert_eq!(cache.len(), 0);
    assert!(cache.get("anything").is_none());
    assert!(!cache.contains_key("anything"));
    assert!(cache.to_pairs().is_empty());
}

#[test]
fn insert_then_get_returns_the_vector() {
    let mut cache = EmbeddingCache::new();
    cache.insert("h1".to_string(), vec![1, 2, 3]);
    cache.insert("h2".to_string(), vec![]);
    assert_eq!(cache.get("h1"), Some(vec![1, 2, 3]));
    assert_eq!(cache.get("h2"), Some(vec![]));
    assert_eq!(cache.get("h3"), None);
    assert!(cache.contains_key("h2"));
    assert_eq!(cache.len(), 2);
}

#[test]
fn insert_overwrites_the_entry_of_the_same_hash() {
    let mut cache = EmbeddingCache::new();
    cache.insert("h".to_string(), vec![1]);
    cache.insert("other".to_string(), vec![7]);
    cache.insert("h".to_string(), vec![2, 2]);
    assert_eq!(cache.get("h"), Some(vec![2, 2]));
    assert_eq!(cache.get("other"), Some(vec![7]));
    assert_eq!(cache.len(), 2);
}

#[test]
fn pairs_round_trip_through_the_cache() {
    let pairs = vec![
        ("a".to_string(), vec![1u64, 2]),
        ("b".to_string(), vec![3]),
        ("c".to_string(), vec![0.5f64.to_bits(), (-1.25f64).to_bits()]),
    ];
    let cache = cache_from_pairs(pairs.clone());
    let mut out = cache.to_pairs();
    out.sort();
    assert_eq!(out, pairs);
    let again = cache_from_pairs(out);
    for (hash, vector) in &pairs {
        assert_eq!(again.get(hash), Some(vector.clone()));
    }
}

#[test]
fn later_pair_of_a_hash_counts() {
    let cache = cache_from_pairs(vec![
        ("a".to_string(), vec![1]),
        ("b".to_string(), vec![2]),
        ("a".to_string(), vec![3]),
    ]);
    assert_eq!(cache.get("a"), Some(vec![3]));
    assert_eq!(cache.len(), 2);
}

#[test]
fn embedding_is_cached_under_the_hash_of_the_question() {
    let mut cache = EmbeddingCache::new();
    add_embedding_to_cache(&mut cache, "What is Rust?", vec![9, 9]);
    assert_eq!(cache.get(&get_question_hash("What is Rust?")), Some(vec![9, 9]));
    assert_eq!(
        cache.get("ab0952c6c08750a6621270e03336bd53c916584954a33c20cd7166ae75e417ed"),
        Some(vec![9, 9])
    );
    assert!(cache.get("What is Rust?").is_none());
}

#[test]
fn cache_file_name_replaces_what_is_not_a_letter_or_digit() {
    assert_eq!(
        cache_file_name("gemini-embedding-exp-03-07"),
        "embeddings_cache_gemini_embedding_exp_03_07.json"
    );
    assert_eq!(cache_file_name("test_model_cache"), "embeddings_cache_test_model_cache.json");
    assert_eq!(cache_file_name("a/b.c d"), "embeddings_cache_a_b_c_d.json");
    assert_eq!(cache_file_name(""), "embeddings_cache_.json");
    assert_eq!(cache_file_name("модель-2"), "embeddings_cache_модель_2.json");
}

#[test]
fn stored_hash_is_compared_without_surrounding_white_space() {
    assert!(cache_is_current("test_hash_abc_123", "test_hash_abc_123"));
    assert!(cache_is_current("  test_hash_abc_123\n", "test_hash_abc_123"));
    assert!(!cache_is_current("incorrect_hash_xyz_789", "test_hash_abc_123"));
    assert!(!cache_is_current("test_hash_abc_123", " test_hash_abc_123"));
    assert!(cache_is_current("   ", ""));
}
