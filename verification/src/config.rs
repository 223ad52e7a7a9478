//! Settings consumed by the question-answering core.
//!
//! Every section has a default that describes a fresh installation; the
//! contracts of the `default` functions state those values exactly.

use vstd::prelude::*;

verus! {

broadcast use vstd::string::group_string_axioms;

/// Chat transport settings.
#[derive(Clone, Debug)]
pub struct TelegramConfig {
    pub token: String,
    pub super_admins: Vec<i64>,
    pub allowed_group_ids: Vec<i64>,
}

impl Default for TelegramConfig {
    fn default() -> (cfg: Self)
        ensures
            cfg.token@ == "YOUR_TELEGRAM_BOT_TOKEN"@,
            cfg.super_admins@ == Seq::<i64>::empty(),
            cfg.allowed_group_ids@ == Seq::<i64>::empty(),
    {
        TelegramConfig {
            token: "YOUR_TELEGRAM_BOT_TOKEN".to_string(),
            super_admins: Vec::new(),
            allowed_group_ids: Vec::new(),
        }
    }
}

/// Embedding provider settings: the credentials, the model and its vector
/// dimension, and the per-credential request budgets.
#[derive(Clone, Debug)]
pub struct EmbeddingConfig {
    pub api_keys: Vec<String>,
    pub model: String,
    pub ndims: usize,
    /// Requests allowed per credential within one minute.
    pub rpm: u32,
    /// Requests allowed per credential within one day.
    pub rpd: u32,
}

impl Default for EmbeddingConfig {
    fn default() -> (cfg: Self)
        ensures
            cfg.api_keys@.len() == 1,
            cfg.api_keys@[0]@ == "YOUR_API_KEY"@,
            cfg.model@ == "gemini-embedding-exp-03-07"@,
            cfg.ndims == 3072,
            cfg.rpm == 5,
            cfg.rpd == 100,
    {
        let mut api_keys: Vec<String> = Vec::new();
        api_keys.push("YOUR_API_KEY".to_string());
        EmbeddingConfig {
            api_keys,
            model: "gemini-embedding-exp-03-07".to_string(),
            ndims: 3072,
            rpm: 5,
            rpd: 100,
        }
    }
}

/// Where the embedding cache lives.
#[derive(Clone, Debug)]
pub struct CacheConfig {
    pub dir: String,
}

impl Default for CacheConfig {
    fn default() -> (cfg: Self)
        ensures
            cfg.dir@ == "cache"@,
    {
        CacheConfig { dir: "cache".to_string() }
    }
}

/// Message lifecycle settings, both in seconds.
#[derive(Clone, Copy, Debug, PartialEq, Eq, Structural)]
pub struct MessageConfig {
    pub delete_delay: u64,
    pub timeout: i64,
}

impl Default for MessageConfig {
    fn default() -> (cfg: Self)
        ensures
            cfg.delete_delay == 10,
            cfg.timeout == 60,
    {
        MessageConfig { delete_delay: 10, timeout: 60 }
    }
}

/// Verbosity of the diagnostic log.
#[derive(Clone, Copy, Debug, PartialEq, Eq, Structural)]
pub enum LogLevel {
    Trace,
    Debug,
    Info,
    Warn,
    Error,
}

impl Default for LogLevel {
    fn default() -> (level: Self)
        ensures
            level == LogLevel::Info,
    {
        LogLevel::Info
    }
}

/// Where the question/answer store lives.
#[derive(Clone, Debug)]
pub struct QaConfig {
    pub qa_json_path: String,
}

impl Default for QaConfig {
    fn default() -> (cfg: Self)
        ensures
            cfg.qa_json_path@ == "data/QA.json"@,
    {
        QaConfig { qa_json_path: "data/QA.json".to_string() }
    }
}

} // verus!
