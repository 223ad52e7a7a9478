use telembed::config::{CacheConfig, EmbeddingConfig, LogLevel, MessageConfig, QaConfig, TelegramConfig};

#[test]
fn default_sections_describe_a_fresh_installation() {
    let telegram = TelegramConfig::default();
    assert_eq!(telegram.token, "YOUR_TELEGRAM_BOT_TOKEN");
    assert!(telegram.super_admins.is_empty());
    assert!(telegram.allowed_group_ids.is_empty());

    let embedding = EmbeddingConfig::default();
    assert_eq!(embedding.api_keys, vec!["YOUR_API_KEY".to_string()]);
    assert_eq!(embedding.model, "gemini-embedding-exp-03-07");
    assert_eq!(embedding.ndims, 3072);
    assert_eq!(embedding.rpm, 5);
    assert_eq!(embedding.rpd, 100);

    assert_eq!(CacheConfig::default().dir, "cache");
    let message = MessageConfig::default();
    assert_eq!(message.delete_delay, 10);
    assert_eq!(message.timeout, 60);
    assert_eq!(LogLevel::default(), LogLevel::Info);
    assert_eq!(QaConfig::default().qa_json_path, "data/QA.json");
}
