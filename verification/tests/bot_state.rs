use telembed::bot::state::{
    is_group_allowed, is_message_stale, snooze_minutes, AppState, ButtonOutcome, CaptureButton, PendingQAInfo,
    PendingQAs, QAStatus, ReplyOutcome, DEFAULT_SNOOZE_MINUTES,
};
use telembed::config::{MessageConfig, TelegramConfig};
use telembed::qa::types::FormattedText;

fn text(s: &str) -> FormattedText {
    FormattedText::plain(s)
}

fn answer_state(q: &str) -> PendingQAInfo {
    PendingQAInfo { status: QAStatus::Answer { question: text(q) } }
}

#[test]
fn fresh_state_waits_for_the_index() {
    let state = AppState::new();
    assert!(!state.is_qa_ready);
    assert!(state.snoozed_until.is_none());
    assert!(state.pending_qas.get(1, 1).is_none());
    assert_eq!(DEFAULT_SNOOZE_MINUTES, 60);
}

#[test]
fn reply_to_a_question_awaits_confirmation() {
    let status = QAStatus::Answer { question: text("q") };
    assert_eq!(
        status.on_reply(text("a")),
        ReplyOutcome::AwaitConfirmation {
            next: QAStatus::Confirmation { question: text("q"), answer: text("a") }
        }
    );
}

#[test]
fn reply_to_an_edit_prompt_updates_the_entry() {
    let status = QAStatus::EditQuestion {
        old_question_hash: "h".to_string(),
        original_answer: text("old answer"),
    };
    assert_eq!(
        status.on_reply(text("new question")),
        ReplyOutcome::Update {
            old_question_hash: "h".to_string(),
            question: text("new question"),
            answer: text("old answer"),
        }
    );
    let status = QAStatus::EditAnswer {
        old_question_hash: "h".to_string(),
        original_question: text("old question"),
    };
    assert_eq!(
        status.on_reply(text("new answer")),
        ReplyOutcome::Update {
            old_question_hash: "h".to_string(),
            question: text("old question"),
            answer: text("new answer"),
        }
    );
}

#[test]
fn reply_during_confirmation_is_ignored() {
    let status = QAStatus::Confirmation { question: text("q"), answer: text("a") };
    assert_eq!(
        status.on_reply(text("more")),
        ReplyOutcome::Ignored {
            unchanged: QAStatus::Confirmation { question: text("q"), answer: text("a") }
        }
    );
}

#[test]
fn buttons_act_on_a_pair_that_awaits_confirmation() {
    let confirmation = || QAStatus::Confirmation { question: text("q"), answer: text("a") };
    assert_eq!(
        confirmation().on_button(CaptureButton::Confirm),
        ButtonOutcome::Add { question: text("q"), answer: text("a") }
    );
    assert_eq!(
        confirmation().on_button(CaptureButton::Reedit),
        ButtonOutcome::AwaitAnswer { next: QAStatus::Answer { question: text("q") } }
    );
    assert_eq!(confirmation().on_button(CaptureButton::Cancel), ButtonOutcome::Cancelled);
}

#[test]
fn confirm_and_reedit_do_nothing_elsewhere() {
    let waiting = || QAStatus::Answer { question: text("q") };
    assert_eq!(
        waiting().on_button(CaptureButton::Confirm),
        ButtonOutcome::Ignored { unchanged: waiting() }
    );
    assert_eq!(
        waiting().on_button(CaptureButton::Reedit),
        ButtonOutcome::Ignored { unchanged: waiting() }
    );
    assert_eq!(waiting().on_button(CaptureButton::Cancel), ButtonOutcome::Cancelled);
}

#[test]
fn conversations_are_kept_by_chat_and_message() {
    let mut pending = PendingQAs::new();
    pending.insert(-100, 1, answer_state("one"));
    pending.insert(-100, 2, answer_state("two"));
    pending.insert(-200, 1, answer_state("three"));
    assert_eq!(pending.get(-100, 1), Some(&answer_state("one")));
    assert_eq!(pending.get(-100, 2), Some(&answer_state("two")));
    assert_eq!(pending.get(-200, 1), Some(&answer_state("three")));
    assert_eq!(pending.get(-200, 2), None);
    pending.insert(-100, 1, answer_state("again"));
    assert_eq!(pending.get(-100, 1), Some(&answer_state("again")));
    assert_eq!(pending.get(-100, 2), Some(&answer_state("two")));
    assert_eq!(pending.remove(-100, 1), Some(answer_state("again")));
    assert_eq!(pending.remove(-100, 1), None);
    assert_eq!(pending.get(-100, 1), None);
    assert_eq!(pending.get(-100, 2), Some(&answer_state("two")));
    assert_eq!(pending.get(-200, 1), Some(&answer_state("three")));
    assert_eq!(pending.remove(-200, 1), Some(answer_state("three")));
    assert_eq!(pending.remove(-100, 2), Some(answer_state("two")));
    assert_eq!(pending.get(-100, 2), None);
}

#[test]
fn snooze_lasts_until_its_end() {
    let mut state = AppState::new();
    let now = 1_704_067_200_000_000;
    state.snooze(60, now);
    assert_eq!(state.snoozed_until, Some(now + 3_600_000_000));
    assert!(state.is_snoozed_at(now));
    assert!(state.is_snoozed_at(now + 3_599_999_999));
    assert!(state.snoozed_until.is_some());
    assert!(!state.is_snoozed_at(now + 3_600_000_000));
    assert!(state.snoozed_until.is_none());
    assert!(!state.is_snoozed_at(now));
}

#[test]
fn snooze_is_cut_off_at_the_last_instant() {
    let mut state = AppState::new();
    state.snooze(u64::MAX, 0);
    assert_eq!(state.snoozed_until, Some(i64::MAX));
    state.snooze(1, i64::MAX - 1);
    assert_eq!(state.snoozed_until, Some(i64::MAX));
    state.snooze(0, -5);
    assert_eq!(state.snoozed_until, Some(-5));
    state.snooze(153_722_867_280, i64::MIN);
    assert_eq!(state.snoozed_until, Some(i64::MIN + 153_722_867_280 * 60_000_000));
}

#[test]
fn resume_says_whether_there_was_a_pause() {
    let mut state = AppState::new();
    assert!(!state.resume());
    state.snooze(5, 0);
    assert!(state.resume());
    assert!(state.snoozed_until.is_none());
    assert!(!state.resume());
}

#[test]
fn groups_are_allowed_by_list() {
    let open = TelegramConfig { token: String::new(), super_admins: vec![], allowed_group_ids: vec![] };
    assert!(is_group_allowed(-1001, &open));
    let listed = TelegramConfig {
        token: String::new(),
        super_admins: vec![],
        allowed_group_ids: vec![-1001, -1002],
    };
    assert!(is_group_allowed(-1001, &listed));
    assert!(is_group_allowed(-1002, &listed));
    assert!(!is_group_allowed(-1003, &listed));
}

#[test]
fn messages_older_than_the_timeout_are_stale() {
    let config = MessageConfig { delete_delay: 10, timeout: 60 };
    assert!(!is_message_stale(1000, 1000, &config));
    assert!(!is_message_stale(1060, 1000, &config));
    assert!(is_message_stale(1061, 1000, &config));
    assert!(!is_message_stale(1000, 2000, &config));
    assert!(is_message_stale(i64::MAX, i64::MIN, &config));
    assert!(!is_message_stale(i64::MIN, i64::MAX, &config));
    let negative = MessageConfig { delete_delay: 10, timeout: -5 };
    assert!(is_message_stale(1000, 1000, &negative));
    assert!(!is_message_stale(1000, 1005, &negative));
}

#[test]
fn snooze_argument_is_a_number_of_minutes() {
    assert_eq!(snooze_minutes("5"), 5);
    assert_eq!(snooze_minutes("120"), 120);
    assert_eq!(snooze_minutes("+15"), 15);
    assert_eq!(snooze_minutes("007"), 7);
    assert_eq!(snooze_minutes("0"), 0);
    assert_eq!(snooze_minutes("18446744073709551615"), u64::MAX);
}

#[test]
fn snooze_argument_without_a_number_means_an_hour() {
    assert_eq!(snooze_minutes(""), 60);
    assert_eq!(snooze_minutes("+"), 60);
    assert_eq!(snooze_minutes("-5"), 60);
    assert_eq!(snooze_minutes("5m"), 60);
    assert_eq!(snooze_minutes(" 5"), 60);
    assert_eq!(snooze_minutes("++5"), 60);
    assert_eq!(snooze_minutes("1.5"), 60);
    assert_eq!(snooze_minutes("５"), 60);
    assert_eq!(snooze_minutes("18446744073709551616"), 60);
    assert_eq!(snooze_minutes("99999999999999999999999"), 60);
}

#[test]
fn snooze_argument_is_read_as_the_standard_library_reads_it() {
    for text in ["", "0", "+0", "-0", "42", "+", "4 2", "184467440737095516150", "٣"] {
        assert_eq!(snooze_minutes(text), text.parse::<u64>().unwrap_or(60), "{:?}", text);
    }
}
