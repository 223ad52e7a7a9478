//! The inline keyboards of the chat front end, as plain data: rows of
//! buttons, each with its label and the action it stands for.

use vstd::prelude::*;
use crate::bot::types::{CallbackData, CallbackView};
use crate::qa::types::{item_views, ItemView, QAItem};
use crate::qa::utils::{get_question_hash, sha256_hex, HASH_LEN};

verus! {

broadcast use vstd::string::group_string_axioms;

/// A button of an inline keyboard.
#[derive(Debug, PartialEq, Eq)]
pub struct Button {
    pub text: String,
    pub data: CallbackData,
}

/// A [`Button`] as the contracts see it.
pub struct ButtonView {
    pub text: Seq<char>,
    pub data: CallbackView,
}

impl View for Button {
    type V = ButtonView;

    open spec fn view(&self) -> ButtonView {
        ButtonView { text: self.text@, data: self.data@ }
    }
}

/// The views of a row of buttons.
pub open spec fn row_view(row: Seq<Button>) -> Seq<ButtonView> {
    Seq::new(row.len(), |i: int| row[i]@)
}

/// The views of the rows of a keyboard.
pub open spec fn keyboard_view(rows: Seq<Vec<Button>>) -> Seq<Seq<ButtonView>> {
    Seq::new(rows.len(), |i: int| row_view(rows[i]@))
}

fn one_row(buttons: Vec<Button>) -> (rows: Vec<Vec<Button>>)
    ensures
        keyboard_view(rows@) == seq![row_view(buttons@)],
{
    let mut rows: Vec<Vec<Button>> = Vec::new();
    rows.push(buttons);
    proof {
        assert(keyboard_view(rows@) =~= seq![row_view(buttons@)]);
    }
    rows
}

/// The button that abandons what is going on.
pub fn cancel_button() -> (button: Button)
    ensures
        button@ == (ButtonView { text: "❌ Cancel"@, data: CallbackView::Cancel }),
{
    Button { text: "❌ Cancel".to_string(), data: CallbackData::Cancel }
}

/// The button that accepts the new pair.
pub fn confirm_button() -> (button: Button)
    ensures
        button@ == (ButtonView { text: "✅ Confirm"@, data: CallbackView::Confirm }),
{
    Button { text: "✅ Confirm".to_string(), data: CallbackData::Confirm }
}

/// The button that goes back to entering the answer.
pub fn reedit_answer_button() -> (button: Button)
    ensures
        button@ == (ButtonView { text: "📝 Re-edit Answer"@, data: CallbackView::Reedit }),
{
    Button { text: "📝 Re-edit Answer".to_string(), data: CallbackData::Reedit }
}

/// The keyboard under a new pair that awaits confirmation: confirm,
/// re-edit, cancel, in one row.
pub fn confirm_reedit_cancel_keyboard() -> (rows: Vec<Vec<Button>>)
    ensures
        keyboard_view(rows@) == seq![
            seq![
                ButtonView { text: "✅ Confirm"@, data: CallbackView::Confirm },
                ButtonView { text: "📝 Re-edit Answer"@, data: CallbackView::Reedit },
                ButtonView { text: "❌ Cancel"@, data: CallbackView::Cancel },
            ],
        ],
{
    let mut row: Vec<Button> = Vec::new();
    row.push(confirm_button());
    row.push(reedit_answer_button());
    row.push(cancel_button());
    proof {
        assert(row_view(row@) =~= seq![
            ButtonView { text: "✅ Confirm"@, data: CallbackView::Confirm },
            ButtonView { text: "📝 Re-edit Answer"@, data: CallbackView::Reedit },
            ButtonView { text: "❌ Cancel"@, data: CallbackView::Cancel },
        ]);
    }
    one_row(row)
}

/// The keyboard under an entry of the store: edit the question, edit the
/// answer, and below them delete.
pub fn qa_management_keyboard(short_hash: &str) -> (rows: Vec<Vec<Button>>)
    ensures
        keyboard_view(rows@) == seq![
            seq![
                ButtonView {
                    text: "📝 Edit Question"@,
                    data: CallbackView::EditQuestionPrompt { short_hash: short_hash@ },
                },
                ButtonView {
                    text: "📝 Edit Answer"@,
                    data: CallbackView::EditAnswerPrompt { short_hash: short_hash@ },
                },
            ],
            seq![
                ButtonView {
                    text: "🗑️ Delete"@,
                    data: CallbackView::DeletePrompt { short_hash: short_hash@ },
                },
            ],
        ],
{
    let mut edit: Vec<Button> = Vec::new();
    edit.push(
        Button {
            text: "📝 Edit Question".to_string(),
            data: CallbackData::EditQuestionPrompt { short_hash: short_hash.to_owned() },
        },
    );
    edit.push(
        Button {
            text: "📝 Edit Answer".to_string(),
            data: CallbackData::EditAnswerPrompt { short_hash: short_hash.to_owned() },
        },
    );
    let mut delete: Vec<Button> = Vec::new();
    delete.push(
        Button {
            text: "🗑️ Delete".to_string(),
            data: CallbackData::DeletePrompt { short_hash: short_hash.to_owned() },
        },
    );
    let ghost edit_view = row_view(edit@);
    let ghost delete_view = row_view(delete@);
    proof {
        assert(edit_view =~= seq![
            ButtonView {
                text: "📝 Edit Question"@,
                data: CallbackView::EditQuestionPrompt { short_hash: short_hash@ },
            },
            ButtonView {
                text: "📝 Edit Answer"@,
                data: CallbackView::EditAnswerPrompt { short_hash: short_hash@ },
            },
        ]);
        assert(delete_view =~= seq![
            ButtonView {
                text: "🗑️ Delete"@,
                data: CallbackView::DeletePrompt { short_hash: short_hash@ },
            },
        ]);
    }
    let mut rows: Vec<Vec<Button>> = Vec::new();
    rows.push(edit);
    rows.push(delete);
    proof {
        assert(keyboard_view(rows@) =~= seq![edit_view, delete_view]);
    }
    rows
}

/// The keyboard that asks whether an entry is to be deleted: yes deletes,
/// no goes back to the entry.
pub fn delete_confirmation_keyboard(short_hash: &str) -> (rows: Vec<Vec<Button>>)
    ensures
        keyboard_view(rows@) == seq![
            seq![
                ButtonView {
                    text: "✅ Yes, Delete"@,
                    data: CallbackView::DeleteConfirm { short_hash: short_hash@ },
                },
                ButtonView {
                    text: "❌ No, Cancel"@,
                    data: CallbackView::ViewQa { short_hash: short_hash@ },
                },
            ],
        ],
{
    let mut row: Vec<Button> = Vec::new();
    row.push(
        Button {
            text: "✅ Yes, Delete".to_string(),
            data: CallbackData::DeleteConfirm { short_hash: short_hash.to_owned() },
        },
    );
    row.push(
        Button {
            text: "❌ No, Cancel".to_string(),
            data: CallbackData::ViewQa { short_hash: short_hash.to_owned() },
        },
    );
    proof {
        assert(row_view(row@) =~= seq![
            ButtonView {
                text: "✅ Yes, Delete"@,
                data: CallbackView::DeleteConfirm { short_hash: short_hash@ },
            },
            ButtonView {
                text: "❌ No, Cancel"@,
                data: CallbackView::ViewQa { short_hash: short_hash@ },
            },
        ]);
    }
    one_row(row)
}

/// The keyboard shown while an edit awaits its text: cancel goes back to
/// the entry.
pub fn cancel_edit_keyboard(short_hash: &str) -> (rows: Vec<Vec<Button>>)
    ensures
        keyboard_view(rows@) == seq![
            seq![
                ButtonView {
                    text: "❌ Cancel"@,
                    data: CallbackView::ViewQa { short_hash: short_hash@ },
                },
            ],
        ],
{
    let mut row: Vec<Button> = Vec::new();
    row.push(
        Button {
            text: "❌ Cancel".to_string(),
            data: CallbackData::ViewQa { short_hash: short_hash.to_owned() },
        },
    );
    proof {
        assert(row_view(row@) =~= seq![
            ButtonView {
                text: "❌ Cancel"@,
                data: CallbackView::ViewQa { short_hash: short_hash@ },
            },
        ]);
    }
    one_row(row)
}

/// The keyboard with the cancel button alone, shown while a new pair
/// awaits its answer.
pub fn simple_cancel_keyboard() -> (rows: Vec<Vec<Button>>)
    ensures
        keyboard_view(rows@) == seq![
            seq![ButtonView { text: "❌ Cancel"@, data: CallbackView::Cancel }],
        ],
{
    let mut row: Vec<Button> = Vec::new();
    row.push(cancel_button());
    proof {
        assert(row_view(row@) =~= seq![
            ButtonView { text: "❌ Cancel"@, data: CallbackView::Cancel },
        ]);
    }
    one_row(row)
}

/// The keyboard shown while the answer of a new pair is entered again: the
/// cancel button alone.
pub fn reedit_keyboard() -> (rows: Vec<Vec<Button>>)
    ensures
        keyboard_view(rows@) == seq![
            seq![ButtonView { text: "❌ Cancel"@, data: CallbackView::Cancel }],
        ],
{
    simple_cancel_keyboard()
}

/// Characters of a question shown on its button.
pub const LABEL_CHARS: usize = 40;

/// Characters of a content hash that a button carries.
pub const SHORT_HASH_CHARS: usize = 16;

/// The first `limit` characters of `text`, or all of it if it has fewer.
pub open spec fn head(text: Seq<char>, limit: int) -> Seq<char> {
    if limit < text.len() {
        text.take(limit)
    } else {
        text
    }
}

/// The first `limit` characters of `text`.
pub fn leading_chars(text: &str, limit: usize) -> (start: String)
    ensures
        start@ == head(text@, limit as int),
{
    let n = text.unicode_len();
    if limit < n {
        let start = text.substring_char(0, limit).to_owned();
        proof {
            assert(text@.subrange(0, limit as int) =~= text@.take(limit as int));
        }
        start
    } else {
        text.to_owned()
    }
}

/// The button that shows the entry `item`: the beginning of its question as
/// the label, the beginning of its content hash as the target.
pub open spec fn entry_button(item: ItemView) -> ButtonView {
    ButtonView {
        text: head(item.question.text, LABEL_CHARS as int),
        data: CallbackView::ViewQa {
            short_hash: sha256_hex(item.question.text).take(SHORT_HASH_CHARS as int),
        },
    }
}

/// The keyboard that lists entries of the store: one row for each entry,
/// with one button that shows it.
pub fn make_qa_keyboard(list: &Vec<QAItem>) -> (rows: Vec<Vec<Button>>)
    ensures
        keyboard_view(rows@) == Seq::new(
            list@.len(),
            |i: int| seq![entry_button(item_views(list@)[i])],
        ),
{
    let mut rows: Vec<Vec<Button>> = Vec::new();
    let mut i: usize = 0;
    while i < list.len()
        invariant
            i <= list.len(),
            rows@.len() == i,
            forall|j: int|
                0 <= j < i ==> #[trigger] keyboard_view(rows@)[j] == seq![
                    entry_button(item_views(list@)[j]),
                ],
        decreases list.len() - i,
    {
        let question = list[i].question.text.as_str();
        let question_hash = get_question_hash(question);
        let short_hash = leading_chars(question_hash.as_str(), SHORT_HASH_CHARS);
        let label = leading_chars(question, LABEL_CHARS);
        let mut row: Vec<Button> = Vec::new();
        row.push(Button { text: label, data: CallbackData::ViewQa { short_hash } });
        let ghost before = keyboard_view(rows@);
        proof {
            assert(item_views(list@)[i as int] == list@[i as int]@);
            assert(row_view(row@) =~= seq![entry_button(item_views(list@)[i as int])]);
        }
        rows.push(row);
        proof {
            assert forall|j: int| 0 <= j < i + 1 implies #[trigger] keyboard_view(rows@)[j] == seq![
                entry_button(item_views(list@)[j]),
            ] by {
                if j < i {
                    assert(keyboard_view(rows@)[j] == before[j]);
                }
            }
        }
        i += 1;
    }
    proof {
        assert(keyboard_view(rows@) =~= Seq::new(
            list@.len(),
            |i: int| seq![entry_button(item_views(list@)[i])],
        ));
    }
    rows
}

} // verus!
