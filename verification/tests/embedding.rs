use telembed::gemini::key_manager::GeminiKeyManager;
use telembed::qa::embedding::{
    after_failure, after_failure_at, classify_failure, Attempt, Backoff, EmbeddingRetry,
    ProviderFailure, FAILURE_DELAY_SECS, MAX_ATTEMPTS, NO_KEY_DELAY_SECS,
};

const NEW_YEAR: i64 = 1_704_067_200_000_000;
const DAY: i64 = 86_400_000_000;

fn pool(keys: &[&str]) -> GeminiKeyManager {
    GeminiKeyManager::new(keys.iter().map(|k| k.to_string()).collect(), 1000, 1000)
}

#[test]
fn policy_constants() {
    assert_eq!(MAX_ATTEMPTS, 10);
    assert_eq!(NO_KEY_DELAY_SECS, 60);
    assert_eq!(FAILURE_DELAY_SECS, 5);
}

#[test]
fn quota_failures_are_recognised_by_their_message() {
    assert_eq!(classify_failure("HTTP 429 Too Many Requests"), ProviderFailure::RateLimited);
    assert_eq!(
        classify_failure("ProviderError: Resource has been exhausted (e.g. check quota)."),
        ProviderFailure::RateLimited
    );
    assert_eq!(classify_failure("RESOURCE HAS BEEN EXHAUSTED"), ProviderFailure::RateLimited);
    assert_eq!(classify_failure("code=1429"), ProviderFailure::RateLimited);
}

#[test]
fn other_failures_are_transient() {
    assert_eq!(classify_failure("connection reset by peer"), ProviderFailure::Other);
    assert_eq!(classify_failure("No embedding generated"), ProviderFailure::Other);
    assert_eq!(classify_failure(""), ProviderFailure::Other);
    assert_eq!(classify_failure("resource exhausted"), ProviderFailure::Other);
    assert_eq!(classify_failure("4 2 9"), ProviderFailure::Other);
}

#[test]
fn attempt_with_a_credential_calls_the_provider() {
    let mut keys = pool(&["a", "b"]);
    let mut run = EmbeddingRetry::new();
    assert_eq!(run.attempts(), 0);
    assert_eq!(
        run.next_attempt_at(&mut keys, NEW_YEAR),
        Attempt::CallProvider { key: "b".to_string() }
    );
    assert_eq!(run.attempts(), 1);
}

#[test]
fn attempt_without_a_credential_waits_a_minute_and_counts() {
    let mut keys = pool(&[]);
    let mut run = EmbeddingRetry::new();
    assert_eq!(run.next_attempt_at(&mut keys, NEW_YEAR), Attempt::Wait { seconds: 60 });
    assert_eq!(run.attempts(), 1);
}

#[test]
fn run_is_exhausted_after_ten_attempts() {
    let mut keys = pool(&["a"]);
    let mut run = EmbeddingRetry::new();
    let mut calls = 0;
    loop {
        match run.next_attempt_at(&mut keys, NEW_YEAR) {
            Attempt::CallProvider { key } => {
                assert_eq!(key, "a");
                calls += 1;
            }
            Attempt::Wait { .. } => panic!("the pool has a usable credential"),
            Attempt::Exhausted => break,
        }
        assert!(calls <= 10);
    }
    assert_eq!(calls, 10);
    assert_eq!(run.attempts(), 10);
    // An exhausted run stays exhausted and leaves the pool alone.
    assert_eq!(run.next_attempt_at(&mut keys, NEW_YEAR), Attempt::Exhausted);
    assert_eq!(run.attempts(), 10);
}

#[test]
fn waits_count_towards_the_ceiling() {
    let mut keys = pool(&[]);
    let mut run = EmbeddingRetry::new();
    for _ in 0..10 {
        assert_eq!(run.next_attempt_at(&mut keys, NEW_YEAR), Attempt::Wait { seconds: 60 });
    }
    assert_eq!(run.next_attempt_at(&mut keys, NEW_YEAR), Attempt::Exhausted);
}

#[test]
fn rate_limit_disables_the_credential_and_retries_at_once() {
    let mut keys = pool(&["a", "b"]);
    assert_eq!(
        after_failure_at(&mut keys, "b", ProviderFailure::RateLimited, NEW_YEAR),
        Backoff::Immediately
    );
    let mut run = EmbeddingRetry::new();
    assert_eq!(
        run.next_attempt_at(&mut keys, NEW_YEAR + 1),
        Attempt::CallProvider { key: "a".to_string() }
    );
    assert_eq!(
        run.next_attempt_at(&mut keys, NEW_YEAR + 2),
        Attempt::CallProvider { key: "a".to_string() }
    );
    assert_eq!(
        run.next_attempt_at(&mut keys, NEW_YEAR + DAY),
        Attempt::CallProvider { key: "b".to_string() }
    );
}

#[test]
fn other_failure_waits_five_seconds_and_keeps_the_credential() {
    let mut keys = pool(&["a"]);
    assert_eq!(
        after_failure_at(&mut keys, "a", ProviderFailure::Other, NEW_YEAR),
        Backoff::Wait { seconds: 5 }
    );
    let mut run = EmbeddingRetry::new();
    assert_eq!(
        run.next_attempt_at(&mut keys, NEW_YEAR),
        Attempt::CallProvider { key: "a".to_string() }
    );
}

#[test]
fn clock_driven_run_follows_the_same_policy() {
    let mut keys = pool(&["a", "b"]);
    let mut run = EmbeddingRetry::new();
    assert_eq!(run.next_attempt(&mut keys), Attempt::CallProvider { key: "b".to_string() });
    assert_eq!(after_failure(&mut keys, "b", ProviderFailure::RateLimited), Backoff::Immediately);
    assert_eq!(run.next_attempt(&mut keys), Attempt::CallProvider { key: "a".to_string() });
    assert_eq!(after_failure(&mut keys, "a", ProviderFailure::Other), Backoff::Wait { seconds: 5 });
    assert_eq!(run.next_attempt(&mut keys), Attempt::CallProvider { key: "a".to_string() });
    assert_eq!(run.attempts(), 3);
}
