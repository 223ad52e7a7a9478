use telembed::bot::utils::{
    bold, combine_texts, ensure_blockquote, format_answer_html, is_super_admin, utf16_length,
};
use telembed::config::TelegramConfig;
use telembed::qa::types::{EntityKind, FormattedText, TextEntity};

fn entity(kind: EntityKind, offset: usize, length: usize) -> TextEntity {
    TextEntity { kind, argument: None, offset, length }
}

fn admins(ids: &[i64]) -> TelegramConfig {
    TelegramConfig { token: String::new(), super_admins: ids.to_vec(), allowed_group_ids: vec![] }
}

#[test]
fn super_admin_is_a_listed_user() {
    let config = admins(&[11, 42, 7]);
    assert!(is_super_admin(42, &config));
    assert!(is_super_admin(7, &config));
    assert!(!is_super_admin(8, &config));
    assert!(!is_super_admin(0, &admins(&[])));
}

#[test]
fn user_identifiers_beyond_i64_wrap_round() {
    let config = admins(&[-1, i64::MIN]);
    assert!(is_super_admin(u64::MAX, &config));
    assert!(is_super_admin(1 << 63, &config));
    assert!(!is_super_admin((1 << 63) + 1, &config));
    assert!(is_super_admin(i64::MAX as u64, &admins(&[i64::MAX])));
}

#[test]
fn utf16_length_counts_code_units() {
    assert_eq!(utf16_length(""), 0);
    assert_eq!(utf16_length("abc"), 3);
    assert_eq!(utf16_length("é"), 1);
    assert_eq!(utf16_length("问题"), 2);
    assert_eq!(utf16_length("😀"), 2);
    assert_eq!(utf16_length("a😀b"), 4);
    assert_eq!(utf16_length("\u{ffff}\u{10000}"), 3);
    for text in ["", "plain", "❓ 问题已捕获\n\n", "🗑️ Delete"] {
        assert_eq!(utf16_length(text), text.encode_utf16().count());
    }
}

#[test]
fn bold_covers_the_whole_text() {
    let b = bold("Q:\n");
    assert_eq!(b.text, "Q:\n");
    assert_eq!(b.entities, vec![entity(EntityKind::Bold, 0, 3)]);
    let b = bold("❓ 问题");
    assert_eq!(b.entities, vec![entity(EntityKind::Bold, 0, 4)]);
    let b = bold("😀");
    assert_eq!(b.entities, vec![entity(EntityKind::Bold, 0, 2)]);
}

#[test]
fn bold_of_nothing_has_no_annotation() {
    let b = bold("");
    assert_eq!(b.text, "");
    assert!(b.entities.is_empty());
}

#[test]
fn blockquote_is_added_in_front() {
    let ft = FormattedText {
        text: "answer 😀".to_string(),
        entities: vec![entity(EntityKind::Italic, 0, 6)],
    };
    let shown = ensure_blockquote(ft, EntityKind::ExpandableBlockquote);
    assert_eq!(shown.text, "answer 😀");
    assert_eq!(
        shown.entities,
        vec![entity(EntityKind::ExpandableBlockquote, 0, 9), entity(EntityKind::Italic, 0, 6)]
    );
}

#[test]
fn blockquote_of_another_kind_falls_back_to_the_ordinary_one() {
    let shown = ensure_blockquote(FormattedText::plain("abc"), EntityKind::Bold);
    assert_eq!(shown.entities, vec![entity(EntityKind::Blockquote, 0, 3)]);
    let shown = ensure_blockquote(FormattedText::plain("abc"), EntityKind::Blockquote);
    assert_eq!(shown.entities, vec![entity(EntityKind::Blockquote, 0, 3)]);
}

#[test]
fn existing_blockquote_is_kept() {
    for kind in [EntityKind::Blockquote, EntityKind::ExpandableBlockquote] {
        let ft = FormattedText {
            text: "abc".to_string(),
            entities: vec![entity(EntityKind::Bold, 0, 1), entity(kind, 1, 2)],
        };
        let shown = ensure_blockquote(ft.clone(), EntityKind::ExpandableBlockquote);
        assert_eq!(shown, ft);
    }
}

#[test]
fn empty_text_gets_no_blockquote() {
    let shown = ensure_blockquote(FormattedText::plain(""), EntityKind::Blockquote);
    assert_eq!(shown, FormattedText::plain(""));
}

#[test]
fn combine_joins_texts_and_moves_annotations() {
    let title = bold("Q:\n");
    let question = FormattedText {
        text: "😀 why?".to_string(),
        entities: vec![entity(EntityKind::Italic, 3, 4)],
    };
    let header = bold("\n\nA:\n");
    let answer = FormattedText {
        text: "because".to_string(),
        entities: vec![TextEntity {
            kind: EntityKind::TextLink,
            argument: Some("https://example.com/".to_string()),
            offset: 0,
            length: 7,
        }],
    };
    let whole = combine_texts(&[&title, &question, &header, &answer]);
    assert_eq!(whole.text, "Q:\n😀 why?\n\nA:\nbecause");
    assert_eq!(
        whole.entities,
        vec![
            entity(EntityKind::Bold, 0, 3),
            entity(EntityKind::Italic, 6, 4),
            entity(EntityKind::Bold, 10, 5),
            TextEntity {
                kind: EntityKind::TextLink,
                argument: Some("https://example.com/".to_string()),
                offset: 15,
                length: 7,
            },
        ]
    );
}

#[test]
fn combine_of_nothing_is_empty() {
    assert_eq!(combine_texts(&[]), FormattedText::plain(""));
    let only = bold("x");
    assert_eq!(combine_texts(&[&only]), only);
    let empty = FormattedText::plain("");
    assert_eq!(combine_texts(&[&empty, &only, &empty]), only);
}

#[test]
fn combine_cuts_offsets_off_at_the_greatest_number() {
    let head = FormattedText::plain("ab");
    let tail = FormattedText {
        text: "c".to_string(),
        entities: vec![entity(EntityKind::Bold, usize::MAX - 1, 1)],
    };
    let whole = combine_texts(&[&head, &tail]);
    assert_eq!(whole.entities, vec![entity(EntityKind::Bold, usize::MAX, 1)]);
}

#[test]
fn answer_is_escaped_and_quoted() {
    assert_eq!(
        format_answer_html("A systems programming language."),
        "<blockquote>A systems programming language.</blockquote>"
    );
    assert_eq!(
        format_answer_html("a<b>&c \"d\" 'e'"),
        "<blockquote>a&lt;b&gt;&amp;c \"d\" 'e'</blockquote>"
    );
    assert_eq!(format_answer_html(""), "<blockquote></blockquote>");
    assert_eq!(format_answer_html("&amp;"), "<blockquote>&amp;amp;</blockquote>");
}
