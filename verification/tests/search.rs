use telembed::qa::search::{search_by_keyword, MAX_KEYWORD_MATCHES};
use telembed::qa::types::{FormattedText, QAItem};

fn item(question: &str) -> QAItem {
    QAItem { question: FormattedText::plain(question), answer: FormattedText::plain("a") }
}

fn questions(found: &[QAItem]) -> Vec<String> {
    found.iter().map(|i| i.question.text.clone()).collect()
}

#[test]
fn keyword_search_ignores_letter_case() {
    let data = vec![item("How to install Rust?"), item("What is cargo?"), item("RUSTUP update")];
    assert_eq!(
        questions(&search_by_keyword(&data, "rust")),
        vec!["How to install Rust?", "RUSTUP update"]
    );
    assert_eq!(questions(&search_by_keyword(&data, "CARGO")), vec!["What is cargo?"]);
    assert!(search_by_keyword(&data, "python").is_empty());
}

#[test]
fn empty_keywords_match_nothing() {
    let data = vec![item("anything")];
    assert!(search_by_keyword(&data, "").is_empty());
    assert!(search_by_keyword(&Vec::new(), "x").is_empty());
}

#[test]
fn keyword_search_returns_the_first_ten_matches() {
    let data: Vec<QAItem> = (0..25).map(|i| item(&format!("question {}", i))).collect();
    let found = search_by_keyword(&data, "Question");
    assert_eq!(found.len(), MAX_KEYWORD_MATCHES);
    let expected: Vec<String> = (0..10).map(|i| format!("question {}", i)).collect();
    assert_eq!(questions(&found), expected);
}

#[test]
fn keyword_search_looks_at_questions_only() {
    let data = vec![QAItem {
        question: FormattedText::plain("alpha"),
        answer: FormattedText::plain("beta"),
    }];
    assert!(search_by_keyword(&data, "beta").is_empty());
    assert_eq!(search_by_keyword(&data, "lph").len(), 1);
}

#[test]
fn keyword_search_handles_text_beyond_ascii() {
    let data = vec![item("Größe ändern"), item("如何安装？")];
    assert_eq!(questions(&search_by_keyword(&data, "GRÖSSE")), Vec::<String>::new());
    assert_eq!(questions(&search_by_keyword(&data, "größe")), vec!["Größe ändern"]);
    assert_eq!(questions(&search_by_keyword(&data, "ÄNDERN")), vec!["Größe ändern"]);
    assert_eq!(questions(&search_by_keyword(&data, "安装")), vec!["如何安装？"]);
}
