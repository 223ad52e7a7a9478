//! The state of the chat front end: the conversations that capture or edit
//! a question/answer pair, the pause of automatic answers, and the rules
//! by which a message is taken up or passed over.

use vstd::prelude::*;
use crate::clock::MICROS_PER_MINUTE;
use crate::config::{MessageConfig, TelegramConfig};
use crate::qa::types::FormattedText;

verus! {

/// Where a conversation about a pair stands.
#[derive(Debug, PartialEq, Eq)]
pub enum QAStatus {
    /// The question is known; an administrator is to reply with the answer.
    Answer { question: FormattedText },
    /// Question and answer are known; an administrator is to confirm them.
    Confirmation { question: FormattedText, answer: FormattedText },
    /// An administrator is to reply with the new question of an entry.
    EditQuestion { old_question_hash: String, original_answer: FormattedText },
    /// An administrator is to reply with the new answer of an entry.
    EditAnswer { old_question_hash: String, original_question: FormattedText },
}

/// A conversation about a pair.
#[derive(Debug, PartialEq, Eq)]
pub struct PendingQAInfo {
    pub status: QAStatus,
}

/// What follows from an administrator's reply in a conversation.
#[derive(Debug, PartialEq, Eq)]
pub enum ReplyOutcome {
    /// The conversation goes on in this state; the pair is to be shown for
    /// confirmation.
    AwaitConfirmation { next: QAStatus },
    /// The entry with this hash is to get this question and this answer;
    /// the conversation is over.
    Update { old_question_hash: String, question: FormattedText, answer: FormattedText },
    /// The reply changes nothing; the conversation stays as it is.
    Ignored { unchanged: QAStatus },
}

/// What follows from a reply with the text `text` in a conversation in the
/// state `status`: a reply to the question is the answer and awaits
/// confirmation; a reply to an edit prompt is the new question or the new
/// answer of the entry; while a pair awaits confirmation a reply changes
/// nothing.
pub open spec fn reply_outcome(status: QAStatus, text: FormattedText) -> ReplyOutcome {
    match status {
        QAStatus::Answer { question } => ReplyOutcome::AwaitConfirmation {
            next: QAStatus::Confirmation { question, answer: text },
        },
        QAStatus::EditQuestion { old_question_hash, original_answer } => ReplyOutcome::Update {
            old_question_hash,
            question: text,
            answer: original_answer,
        },
        QAStatus::EditAnswer { old_question_hash, original_question } => ReplyOutcome::Update {
            old_question_hash,
            question: original_question,
            answer: text,
        },
        QAStatus::Confirmation { question, answer } => ReplyOutcome::Ignored {
            unchanged: QAStatus::Confirmation { question, answer },
        },
    }
}

/// What follows from pressing a button under a pair that is being
/// captured.
#[derive(Debug, PartialEq, Eq)]
pub enum ButtonOutcome {
    /// The pair is to be added to the store; the conversation is over.
    Add { question: FormattedText, answer: FormattedText },
    /// The conversation goes back to waiting for the answer.
    AwaitAnswer { next: QAStatus },
    /// The conversation is abandoned.
    Cancelled,
    /// The button changes nothing; the conversation stays as it is.
    Ignored { unchanged: QAStatus },
}

/// The three buttons under a pair that is being captured.
#[derive(Clone, Copy, Debug, PartialEq, Eq, Structural)]
pub enum CaptureButton {
    Confirm,
    Reedit,
    Cancel,
}

/// What follows from pressing `button` in the state `status`: cancel always
/// abandons; confirm and re-edit act on a pair that awaits confirmation and
/// change nothing otherwise.
pub open spec fn button_outcome(status: QAStatus, button: CaptureButton) -> ButtonOutcome {
    match button {
        CaptureButton::Cancel => ButtonOutcome::Cancelled,
        CaptureButton::Confirm => match status {
            QAStatus::Confirmation { question, answer } => ButtonOutcome::Add { question, answer },
            other => ButtonOutcome::Ignored { unchanged: other },
        },
        CaptureButton::Reedit => match status {
            QAStatus::Confirmation { question, answer } => ButtonOutcome::AwaitAnswer {
                next: QAStatus::Answer { question },
            },
            other => ButtonOutcome::Ignored { unchanged: other },
        },
    }
}

impl QAStatus {
    /// Takes an administrator's reply.
    pub fn on_reply(self, text: FormattedText) -> (outcome: ReplyOutcome)
        ensures
            outcome == reply_outcome(self, text),
    {
        match self {
            QAStatus::Answer { question } => ReplyOutcome::AwaitConfirmation {
                next: QAStatus::Confirmation { question, answer: text },
            },
            QAStatus::EditQuestion { old_question_hash, original_answer } => ReplyOutcome::Update {
                old_question_hash,
                question: text,
                answer: original_answer,
            },
            QAStatus::EditAnswer { old_question_hash, original_question } => ReplyOutcome::Update {
                old_question_hash,
                question: original_question,
                answer: text,
            },
            QAStatus::Confirmation { question, answer } => ReplyOutcome::Ignored {
                unchanged: QAStatus::Confirmation { question, answer },
            },
        }
    }

    /// Takes a press on one of the buttons under the pair.
    pub fn on_button(self, button: CaptureButton) -> (outcome: ButtonOutcome)
        ensures
            outcome == button_outcome(self, button),
    {
        match button {
            CaptureButton::Cancel => ButtonOutcome::Cancelled,
            CaptureButton::Confirm => match self {
                QAStatus::Confirmation { question, answer } => ButtonOutcome::Add {
                    question,
                    answer,
                },
                other => ButtonOutcome::Ignored { unchanged: other },
            },
            CaptureButton::Reedit => match self {
                QAStatus::Confirmation { question, answer } => ButtonOutcome::AwaitAnswer {
                    next: QAStatus::Answer { question },
                },
                other => ButtonOutcome::Ignored { unchanged: other },
            },
        }
    }
}

struct PendingSlot {
    chat_id: i64,
    message_id: i32,
    info: PendingQAInfo,
}

/// The first position at or after `from` that belongs to the message.
spec fn slot_of(slots: Seq<PendingSlot>, chat_id: i64, message_id: i32, from: int) -> Option<int>
    decreases slots.len() - from,
{
    if from < 0 || from >= slots.len() {
        None
    } else if slots[from].chat_id == chat_id && slots[from].message_id == message_id {
        Some(from)
    } else {
        slot_of(slots, chat_id, message_id, from + 1)
    }
}

proof fn lemma_slot_of(slots: Seq<PendingSlot>, chat_id: i64, message_id: i32, from: int)
    requires
        0 <= from,
    ensures
        match slot_of(slots, chat_id, message_id, from) {
            Some(at) => from <= at < slots.len() && slots[at].chat_id == chat_id
                && slots[at].message_id == message_id,
            None => forall|i: int|
                from <= i < slots.len() ==> !((#[trigger] slots[i]).chat_id == chat_id
                    && slots[i].message_id == message_id),
        },
    decreases slots.len() - from,
{
    if from < slots.len() && !(slots[from].chat_id == chat_id && slots[from].message_id
        == message_id) {
        lemma_slot_of(slots, chat_id, message_id, from + 1);
    }
}

/// No message has two slots.
spec fn distinct(slots: Seq<PendingSlot>) -> bool {
    forall|i: int, j: int|
        0 <= i < j < slots.len() ==> !((#[trigger] slots[i]).chat_id == (#[trigger] slots[j]).chat_id
            && slots[i].message_id == slots[j].message_id)
}

/// In a list without doubles a message is found in its slot and nowhere
/// else.
proof fn lemma_lookup(slots: Seq<PendingSlot>, chat_id: i64, message_id: i32)
    requires
        distinct(slots),
    ensures
        forall|i: int|
            0 <= i < slots.len() && (#[trigger] slots[i]).chat_id == chat_id && slots[i].message_id
                == message_id ==> slot_of(slots, chat_id, message_id, 0) == Some(i),
        slot_of(slots, chat_id, message_id, 0) matches Some(at) ==> 0 <= at < slots.len()
            && slots[at].chat_id == chat_id && slots[at].message_id == message_id,
{
    lemma_slot_of(slots, chat_id, message_id, 0);
}

/// The conversations in progress, each attached to the message under which
/// it takes place: a chat and a message within it.
pub struct PendingQAs {
    slots: Vec<PendingSlot>,
}

impl View for PendingQAs {
    type V = Map<(i64, i32), PendingQAInfo>;

    closed spec fn view(&self) -> Map<(i64, i32), PendingQAInfo> {
        Map::new(
            |key: (i64, i32)| slot_of(self.slots@, key.0, key.1, 0) is Some,
            |key: (i64, i32)| self.slots@[slot_of(self.slots@, key.0, key.1, 0)->0].info,
        )
    }
}

fn position(slots: &Vec<PendingSlot>, chat_id: i64, message_id: i32) -> (slot: Option<usize>)
    ensures
        match slot {
            Some(at) => slot_of(slots@, chat_id, message_id, 0) == Some(at as int) && at
                < slots@.len() && slots@[at as int].chat_id == chat_id
                && slots@[at as int].message_id == message_id,
            None => slot_of(slots@, chat_id, message_id, 0) is None,
        },
{
    let mut i: usize = 0;
    while i < slots.len()
        invariant
            i <= slots.len(),
            slot_of(slots@, chat_id, message_id, 0) == slot_of(slots@, chat_id, message_id, i as int),
        decreases slots.len() - i,
    {
        if slots[i].chat_id == chat_id && slots[i].message_id == message_id {
            return Some(i);
        }
        i += 1;
    }
    None
}

impl PendingQAs {
    #[verifier::type_invariant]
    spec fn one_slot_for_each_message(self) -> bool {
        distinct(self.slots@)
    }

    /// No conversation.
    pub fn new() -> (pending: Self)
        ensures
            pending@ == Map::<(i64, i32), PendingQAInfo>::empty(),
    {
        let pending = PendingQAs { slots: Vec::new() };
        proof {
            assert(pending@ =~= Map::<(i64, i32), PendingQAInfo>::empty());
        }
        pending
    }

    /// The conversation under the message, if there is one.
    pub fn get(&self, chat_id: i64, message_id: i32) -> (found: Option<&PendingQAInfo>)
        ensures
            match found {
                Some(info) => self@.dom().contains((chat_id, message_id)) && *info == self@[(
                    chat_id,
                    message_id,
                )],
                None => !self@.dom().contains((chat_id, message_id)),
            },
    {
        match position(&self.slots, chat_id, message_id) {
            Some(at) => Some(&self.slots[at].info),
            None => None,
        }
    }

    /// Attaches a conversation to the message, in place of the one that was
    /// attached to it.
    pub fn insert(&mut self, chat_id: i64, message_id: i32, info: PendingQAInfo)
        ensures
            final(self)@ == old(self)@.insert((chat_id, message_id), info),
    {
        proof {
            use_type_invariant(&*self);
        }
        let ghost before = self.slots@;
        let mut slots: Vec<PendingSlot> = Vec::new();
        std::mem::swap(&mut self.slots, &mut slots);
        let found = position(&slots, chat_id, message_id);
        match found {
            Some(at) => {
                slots[at].info = info;
            },
            None => {
                slots.push(PendingSlot { chat_id, message_id, info });
            },
        }
        let ghost after = slots@;
        proof {
            lemma_slot_of(before, chat_id, message_id, 0);
            // The slot of the message after the insertion.
            let home: int = match found {
                Some(at) => at as int,
                None => before.len() as int,
            };
            assert(after[home].chat_id == chat_id && after[home].message_id == message_id
                && after[home].info == info);
            assert forall|p: int| 0 <= p < before.len() implies (#[trigger] after[p]).chat_id
                == before[p].chat_id && after[p].message_id == before[p].message_id && (p != home
                ==> after[p].info == before[p].info) by {}
            assert(distinct(after));
            assert forall|key: (i64, i32)|
                (slot_of(after, key.0, key.1, 0) is Some <==> (key == (chat_id, message_id)
                    || slot_of(before, key.0, key.1, 0) is Some)) && (slot_of(
                    after,
                    key.0,
                    key.1,
                    0,
                ) is Some ==> after[slot_of(after, key.0, key.1, 0)->0].info == (if key == (
                    chat_id,
                    message_id,
                ) {
                    info
                } else {
                    before[slot_of(before, key.0, key.1, 0)->0].info
                })) by {
                lemma_lookup(after, key.0, key.1);
                lemma_lookup(before, key.0, key.1);
                lemma_lookup(after, chat_id, message_id);
                if slot_of(before, key.0, key.1, 0) is Some {
                    let q = slot_of(before, key.0, key.1, 0)->0;
                    assert(after[q].chat_id == key.0 && after[q].message_id == key.1);
                }
                if slot_of(after, key.0, key.1, 0) is Some {
                    let p = slot_of(after, key.0, key.1, 0)->0;
                    if p < before.len() {
                        assert(before[p].chat_id == key.0 && before[p].message_id == key.1);
                    }
                }
            }
        }
        self.slots = slots;
        proof {
            assert(self@ =~= old(self)@.insert((chat_id, message_id), info));
        }
    }

    /// Ends the conversation under the message and hands it out, if there
    /// is one.
    pub fn remove(&mut self, chat_id: i64, message_id: i32) -> (removed: Option<PendingQAInfo>)
        ensures
            final(self)@ == old(self)@.remove((chat_id, message_id)),
            match removed {
                Some(info) => old(self)@.dom().contains((chat_id, message_id)) && info == old(
                    self,
                )@[(chat_id, message_id)],
                None => !old(self)@.dom().contains((chat_id, message_id)),
            },
    {
        proof {
            use_type_invariant(&*self);
        }
        let ghost before = self.slots@;
        let mut slots: Vec<PendingSlot> = Vec::new();
        std::mem::swap(&mut self.slots, &mut slots);
        let found = position(&slots, chat_id, message_id);
        let removed = match found {
            Some(at) => Some(slots.remove(at).info),
            None => None,
        };
        let ghost after = slots@;
        proof {
            // Where a slot of the list after the removal stood before it.
            let origin = |p: int|
                if found matches Some(at) && p >= at {
                    p + 1
                } else {
                    p
                };
            assert forall|p: int| 0 <= p < after.len() implies #[trigger] after[p] == before[origin(
                p,
            )] && 0 <= origin(p) < before.len() by {}
            assert(distinct(after)) by {
                assert forall|i: int, j: int| 0 <= i < j < after.len() implies !((
                #[trigger] after[i]).chat_id == (#[trigger] after[j]).chat_id && after[i].message_id
                    == after[j].message_id) by {
                    assert(after[i] == before[origin(i)]);
                    assert(after[j] == before[origin(j)]);
                }
            }
            assert forall|key: (i64, i32)|
                (slot_of(after, key.0, key.1, 0) is Some <==> (key != (chat_id, message_id)
                    && slot_of(before, key.0, key.1, 0) is Some)) && (slot_of(
                    after,
                    key.0,
                    key.1,
                    0,
                ) is Some ==> after[slot_of(after, key.0, key.1, 0)->0].info == before[slot_of(
                    before,
                    key.0,
                    key.1,
                    0,
                )->0].info) by {
                lemma_lookup(after, key.0, key.1);
                lemma_lookup(before, key.0, key.1);
                lemma_lookup(before, chat_id, message_id);
                if slot_of(after, key.0, key.1, 0) is Some {
                    let p = slot_of(after, key.0, key.1, 0)->0;
                    assert(after[p] == before[origin(p)]);
                }
                if slot_of(before, key.0, key.1, 0) is Some && key != (chat_id, message_id) {
                    let q = slot_of(before, key.0, key.1, 0)->0;
                    let p = if found matches Some(at) && q > at {
                        q - 1
                    } else {
                        q
                    };
                    assert(after[p] == before[q]);
                }
            }
        }
        self.slots = slots;
        proof {
            assert(self@ =~= old(self)@.remove((chat_id, message_id)));
        }
        removed
    }
}

/// The state shared by the handlers of the chat front end.
pub struct AppState {
    /// The conversations in progress.
    pub pending_qas: PendingQAs,
    /// While this instant lies ahead, ordinary messages get no answer.
    pub snoozed_until: Option<i64>,
    /// Whether the bulk load of the index has ended.
    pub is_qa_ready: bool,
}

/// Minutes of a pause for which no length was given.
pub const DEFAULT_SNOOZE_MINUTES: u64 = 60;

/// Whether `c` is one of the ten decimal digits.
pub open spec fn is_digit(c: char) -> bool {
    '0' <= c && c <= '9'
}

/// The number that the decimal digits `digits` write.
pub open spec fn decimal_value(digits: Seq<char>) -> nat
    decreases digits.len(),
{
    if digits.len() == 0 {
        0
    } else {
        decimal_value(digits.drop_last()) * 10 + (digits.last() as u32 - '0' as u32) as nat
    }
}

/// Whether every character is a decimal digit.
pub open spec fn all_digits(digits: Seq<char>) -> bool {
    forall|i: int| 0 <= i < digits.len() ==> is_digit(#[trigger] digits[i])
}

/// The text without the plus sign in front, if it has one.
pub open spec fn unsigned_part(text: Seq<char>) -> Seq<char> {
    if text.len() > 0 && text[0] == '+' {
        text.drop_first()
    } else {
        text
    }
}

/// The number of minutes that `text` writes: one or more decimal digits,
/// with or without a plus sign in front, that stay within a `u64`. Other
/// text writes no number.
pub open spec fn written_minutes(text: Seq<char>) -> Option<u64> {
    let digits = unsigned_part(text);
    if digits.len() > 0 && all_digits(digits) && decimal_value(digits) <= u64::MAX {
        Some(decimal_value(digits) as u64)
    } else {
        None
    }
}

/// More digits write a greater number.
proof fn lemma_decimal_value_grows(digits: Seq<char>, upto: int)
    requires
        0 <= upto <= digits.len(),
    ensures
        decimal_value(digits.take(upto)) <= decimal_value(digits),
    decreases digits.len() - upto,
{
    if upto < digits.len() {
        lemma_decimal_value_grows(digits, upto + 1);
        assert(digits.take(upto + 1).drop_last() == digits.take(upto));
    } else {
        assert(digits.take(upto) == digits);
    }
}

/// The length of the pause that the argument of the snooze command asks
/// for, in minutes: the number it writes, and sixty where it writes none.
pub fn snooze_minutes(argument: &str) -> (minutes: u64)
    ensures
        minutes == match written_minutes(argument@) {
            Some(n) => n,
            None => DEFAULT_SNOOZE_MINUTES,
        },
{
    let n = argument.unicode_len();
    let first: usize = if n > 0 && argument.get_char(0) == '+' {
        1
    } else {
        0
    };
    let ghost digits = unsigned_part(argument@);
    proof {
        assert(digits =~= argument@.skip(first as int));
    }
    if first >= n {
        return DEFAULT_SNOOZE_MINUTES;
    }
    let mut value: u64 = 0;
    let mut i: usize = first;
    while i < n
        invariant
            first <= i <= n,
            n == argument@.len(),
            digits == argument@.skip(first as int),
            digits.len() == n - first,
            digits == unsigned_part(argument@),
            forall|j: int| 0 <= j < i - first ==> is_digit(#[trigger] digits[j]),
            value == decimal_value(digits.take(i - first)),
        decreases n - i,
    {
        let c = argument.get_char(i);
        assert(digits[i - first] == c);
        if !('0' <= c && c <= '9') {
            assert(!is_digit(digits[i - first]));
            return DEFAULT_SNOOZE_MINUTES;
        }
        let digit: u64 = (c as u32 - '0' as u32) as u64;
        proof {
            assert(digits.take(i - first + 1).drop_last() == digits.take(i - first));
            assert(digits.take(i - first + 1).last() == c);
        }
        let next = match value.checked_mul(10) {
            Some(tenfold) => tenfold.checked_add(digit),
            None => None,
        };
        match next {
            Some(sum) => {
                value = sum;
            },
            None => {
                proof {
                    // The digits so far write too great a number already.
                    assert(decimal_value(digits.take(i - first + 1)) == value * 10 + digit);
                    lemma_decimal_value_grows(digits, i - first + 1);
                }
                return DEFAULT_SNOOZE_MINUTES;
            },
        }
        i += 1;
    }
    proof {
        assert(digits.take(n - first) == digits);
    }
    value
}

/// The instant `minutes` after `now`, or the last instant there is when
/// that lies beyond it.
pub open spec fn snooze_end(now: i64, minutes: u64) -> i64 {
    if now + minutes * MICROS_PER_MINUTE > i64::MAX {
        i64::MAX
    } else {
        (now + minutes * MICROS_PER_MINUTE) as i64
    }
}

impl AppState {
    /// The state at start: no conversation, no pause, the index not loaded.
    pub fn new() -> (state: Self)
        ensures
            state.pending_qas@ == Map::<(i64, i32), PendingQAInfo>::empty(),
            state.snoozed_until is None,
            !state.is_qa_ready,
    {
        AppState { pending_qas: PendingQAs::new(), snoozed_until: None, is_qa_ready: false }
    }

    /// Pauses automatic answers for `minutes` from `now`.
    pub fn snooze(&mut self, minutes: u64, now: i64)
        ensures
            final(self).snoozed_until == Some(snooze_end(now, minutes)),
            final(self).pending_qas == old(self).pending_qas,
            final(self).is_qa_ready == old(self).is_qa_ready,
    {
        assert(0 <= minutes * MICROS_PER_MINUTE <= 0xffff_ffff_ffff_ffff * 60_000_000)
            by (nonlinear_arith)
            requires
                0 <= minutes <= 0xffff_ffff_ffff_ffff,
                MICROS_PER_MINUTE == 60_000_000,
        ;
        let end: i128 = now as i128 + (minutes as i128) * (MICROS_PER_MINUTE as i128);
        let until: i64 = if end > i64::MAX as i128 {
            i64::MAX
        } else {
            end as i64
        };
        self.snoozed_until = Some(until);
    }

    /// Ends the pause. Says whether there was one.
    pub fn resume(&mut self) -> (was_snoozed: bool)
        ensures
            was_snoozed == old(self).snoozed_until is Some,
            final(self).snoozed_until is None,
            final(self).pending_qas == old(self).pending_qas,
            final(self).is_qa_ready == old(self).is_qa_ready,
    {
        let was_snoozed = self.snoozed_until.is_some();
        self.snoozed_until = None;
        was_snoozed
    }

    /// Whether automatic answers are paused at `now`. A pause that has run
    /// out is lifted on the way.
    pub fn is_snoozed_at(&mut self, now: i64) -> (paused: bool)
        ensures
            paused == (old(self).snoozed_until matches Some(until) && now < until),
            final(self).snoozed_until == if paused {
                old(self).snoozed_until
            } else {
                None
            },
            final(self).pending_qas == old(self).pending_qas,
            final(self).is_qa_ready == old(self).is_qa_ready,
    {
        match self.snoozed_until {
            Some(until) => {
                if now < until {
                    true
                } else {
                    self.snoozed_until = None;
                    false
                }
            },
            None => false,
        }
    }
}

/// Whether messages from the group `chat_id` are taken up: every group is
/// allowed while the list of allowed groups is empty, and only the listed
/// ones otherwise.
pub fn is_group_allowed(chat_id: i64, config: &TelegramConfig) -> (allowed: bool)
    ensures
        allowed <==> config.allowed_group_ids@.len() == 0 || config.allowed_group_ids@.contains(
            chat_id,
        ),
{
    if config.allowed_group_ids.len() == 0 {
        return true;
    }
    let mut i: usize = 0;
    while i < config.allowed_group_ids.len()
        invariant
            i <= config.allowed_group_ids.len(),
            forall|j: int| 0 <= j < i ==> config.allowed_group_ids@[j] != chat_id,
        decreases config.allowed_group_ids.len() - i,
    {
        if config.allowed_group_ids[i] == chat_id {
            proof {
                assert(config.allowed_group_ids@[i as int] == chat_id);
            }
            return true;
        }
        i += 1;
    }
    false
}

/// Whether a message sent at `sent_secs` is too old to be answered at
/// `now_secs`: older than the configured timeout, all in seconds.
pub fn is_message_stale(now_secs: i64, sent_secs: i64, config: &MessageConfig) -> (stale: bool)
    ensures
        stale <==> now_secs - sent_secs > config.timeout,
{
    match now_secs.checked_sub(sent_secs) {
        Some(age) => age > config.timeout,
        // The age does not fit: it lies beyond every timeout if the message
        // is older than the present, and below every timeout if not.
        None => now_secs > sent_secs,
    }
}

} // verus!
