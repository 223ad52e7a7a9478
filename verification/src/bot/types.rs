//! What a press on an inline button asks for.

use vstd::prelude::*;

verus! {

/// The action behind an inline button. Actions on an entry of the store
/// name it by the beginning of its content hash.
#[derive(Debug, PartialEq, Eq)]
pub enum CallbackData {
    /// Show the entry.
    ViewQa { short_hash: String },
    /// Ask whether the entry is to be deleted.
    DeletePrompt { short_hash: String },
    /// Delete the entry.
    DeleteConfirm { short_hash: String },
    /// Ask for a new question.
    EditQuestionPrompt { short_hash: String },
    /// Ask for a new answer.
    EditAnswerPrompt { short_hash: String },
    /// Accept the new pair.
    Confirm,
    /// Go back to entering the answer of the new pair.
    Reedit,
    /// Abandon what is going on.
    Cancel,
}

/// A [`CallbackData`] as the contracts see it.
pub enum CallbackView {
    ViewQa { short_hash: Seq<char> },
    DeletePrompt { short_hash: Seq<char> },
    DeleteConfirm { short_hash: Seq<char> },
    EditQuestionPrompt { short_hash: Seq<char> },
    EditAnswerPrompt { short_hash: Seq<char> },
    Confirm,
    Reedit,
    Cancel,
}

impl View for CallbackData {
    type V = CallbackView;

    open spec fn view(&self) -> CallbackView {
        match *self {
            CallbackData::ViewQa { short_hash } => CallbackView::ViewQa { short_hash: short_hash@ },
            CallbackData::DeletePrompt { short_hash } => CallbackView::DeletePrompt {
                short_hash: short_hash@,
            },
            CallbackData::DeleteConfirm { short_hash } => CallbackView::DeleteConfirm {
                short_hash: short_hash@,
            },
            CallbackData::EditQuestionPrompt { short_hash } => CallbackView::EditQuestionPrompt {
                short_hash: short_hash@,
            },
            CallbackData::EditAnswerPrompt { short_hash } => CallbackView::EditAnswerPrompt {
                short_hash: short_hash@,
            },
            CallbackData::Confirm => CallbackView::Confirm,
            CallbackData::Reedit => CallbackView::Reedit,
            CallbackData::Cancel => CallbackView::Cancel,
        }
    }
}

/// The hash prefix that an action names, if it names one.
pub open spec fn target_of(data: CallbackView) -> Option<Seq<char>> {
    match data {
        CallbackView::ViewQa { short_hash } => Some(short_hash),
        CallbackView::DeletePrompt { short_hash } => Some(short_hash),
        CallbackView::DeleteConfirm { short_hash } => Some(short_hash),
        CallbackView::EditQuestionPrompt { short_hash } => Some(short_hash),
        CallbackView::EditAnswerPrompt { short_hash } => Some(short_hash),
        CallbackView::Confirm => None,
        CallbackView::Reedit => None,
        CallbackView::Cancel => None,
    }
}

impl Clone for CallbackData {
    fn clone(&self) -> (copy: Self)
        ensures
            copy@ == self@,
    {
        match self {
            CallbackData::ViewQa { short_hash } => CallbackData::ViewQa {
                short_hash: short_hash.clone(),
            },
            CallbackData::DeletePrompt { short_hash } => CallbackData::DeletePrompt {
                short_hash: short_hash.clone(),
            },
            CallbackData::DeleteConfirm { short_hash } => CallbackData::DeleteConfirm {
                short_hash: short_hash.clone(),
            },
            CallbackData::EditQuestionPrompt { short_hash } => CallbackData::EditQuestionPrompt {
                short_hash: short_hash.clone(),
            },
            CallbackData::EditAnswerPrompt { short_hash } => CallbackData::EditAnswerPrompt {
                short_hash: short_hash.clone(),
            },
            CallbackData::Confirm => CallbackData::Confirm,
            CallbackData::Reedit => CallbackData::Reedit,
            CallbackData::Cancel => CallbackData::Cancel,
        }
    }
}

impl CallbackData {
    /// The hash prefix of the entry that the action is about, if it is
    /// about one.
    pub fn short_hash(&self) -> (target: Option<&String>)
        ensures
            match target {
                Some(prefix) => target_of(self@) == Some(prefix@),
                None => target_of(self@) is None,
            },
    {
        match self {
            CallbackData::ViewQa { short_hash } => Some(short_hash),
            CallbackData::DeletePrompt { short_hash } => Some(short_hash),
            CallbackData::DeleteConfirm { short_hash } => Some(short_hash),
            CallbackData::EditQuestionPrompt { short_hash } => Some(short_hash),
            CallbackData::EditAnswerPrompt { short_hash } => Some(short_hash),
            CallbackData::Confirm => None,
            CallbackData::Reedit => None,
            CallbackData::Cancel => None,
        }
    }
}

} // verus!
