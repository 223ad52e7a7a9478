//! The data of the question/answer store: formatted text, question/answer
//! pairs, and the pairs together with the embeddings of their questions.
//!
//! An embedding is a `Vec<u64>`: each component is the IEEE 754 binary64 bit
//! pattern of one coordinate. This crate stores, copies and pairs embeddings;
//! it never does arithmetic on them.

use vstd::prelude::*;

verus! {

/// What an annotation says about its stretch of text.
#[derive(Clone, Copy, Debug, PartialEq, Eq, Structural)]
pub enum EntityKind {
    Mention,
    Hashtag,
    Cashtag,
    BotCommand,
    Url,
    Email,
    PhoneNumber,
    Bold,
    Blockquote,
    ExpandableBlockquote,
    Italic,
    Underline,
    Strikethrough,
    Spoiler,
    Code,
    /// Preformatted text; the argument is the programming language, if known.
    Pre,
    /// A link; the argument is the address.
    TextLink,
    /// A mention of a user without a user name; the argument describes the user.
    TextMention,
    /// A custom emoji; the argument is its identifier.
    CustomEmoji,
}

/// A rich-text annotation: a kind, the argument that some kinds carry, and
/// the stretch of text it covers, in UTF-16 code units.
#[derive(Debug, PartialEq, Eq)]
pub struct TextEntity {
    pub kind: EntityKind,
    pub argument: Option<String>,
    pub offset: usize,
    pub length: usize,
}

/// A [`TextEntity`] as the contracts see it.
pub struct EntityView {
    pub kind: EntityKind,
    pub argument: Option<Seq<char>>,
    pub offset: usize,
    pub length: usize,
}

impl View for TextEntity {
    type V = EntityView;

    open spec fn view(&self) -> EntityView {
        EntityView {
            kind: self.kind,
            argument: match self.argument {
                Some(a) => Some(a@),
                None => None,
            },
            offset: self.offset,
            length: self.length,
        }
    }
}

impl Clone for TextEntity {
    fn clone(&self) -> (copy: Self)
        ensures
            copy@ == self@,
    {
        TextEntity {
            kind: self.kind,
            argument: match &self.argument {
                Some(a) => Some(a.clone()),
                None => None,
            },
            offset: self.offset,
            length: self.length,
        }
    }
}

/// The views of a sequence of annotations.
pub open spec fn entity_views(entities: Seq<TextEntity>) -> Seq<EntityView> {
    Seq::new(entities.len(), |i: int| entities[i]@)
}

/// A copy of `entities`.
pub fn clone_entities(entities: &Vec<TextEntity>) -> (copy: Vec<TextEntity>)
    ensures
        entity_views(copy@) == entity_views(entities@),
{
    let mut copy: Vec<TextEntity> = Vec::new();
    let mut i: usize = 0;
    while i < entities.len()
        invariant
            i <= entities.len(),
            copy@.len() == i,
            forall|j: int| 0 <= j < i ==> (#[trigger] copy@[j])@ == entities@[j]@,
        decreases entities.len() - i,
    {
        copy.push(entities[i].clone());
        i += 1;
    }
    proof {
        assert(entity_views(copy@) =~= entity_views(entities@));
    }
    copy
}

/// Text that may carry rich-text annotations.
#[derive(Debug, PartialEq, Eq)]
pub struct FormattedText {
    pub text: String,
    pub entities: Vec<TextEntity>,
}

/// A [`FormattedText`] as the contracts see it.
pub struct TextView {
    pub text: Seq<char>,
    pub entities: Seq<EntityView>,
}

impl View for FormattedText {
    type V = TextView;

    open spec fn view(&self) -> TextView {
        TextView { text: self.text@, entities: entity_views(self.entities@) }
    }
}

impl Clone for FormattedText {
    fn clone(&self) -> (copy: Self)
        ensures
            copy@ == self@,
    {
        FormattedText { text: self.text.clone(), entities: clone_entities(&self.entities) }
    }
}

impl Default for FormattedText {
    fn default() -> (empty: Self)
        ensures
            empty@ == (TextView { text: Seq::empty(), entities: Seq::empty() }),
    {
        let empty = FormattedText { text: String::new(), entities: Vec::new() };
        proof {
            assert(entity_views(empty.entities@) =~= Seq::empty());
        }
        empty
    }
}

impl FormattedText {
    /// Text without annotations.
    pub fn plain(text: &str) -> (plain: Self)
        ensures
            plain@ == (TextView { text: text@, entities: Seq::empty() }),
    {
        let plain = FormattedText { text: text.to_owned(), entities: Vec::new() };
        proof {
            assert(entity_views(plain.entities@) =~= Seq::empty());
        }
        plain
    }
}

/// A question with its answer. Its identity is not stored: it is the content
/// hash of the question's text.
#[derive(Debug, PartialEq, Eq)]
pub struct QAItem {
    pub question: FormattedText,
    pub answer: FormattedText,
}

/// A [`QAItem`] as the contracts see it.
pub struct ItemView {
    pub question: TextView,
    pub answer: TextView,
}

impl View for QAItem {
    type V = ItemView;

    open spec fn view(&self) -> ItemView {
        ItemView { question: self.question@, answer: self.answer@ }
    }
}

impl Clone for QAItem {
    fn clone(&self) -> (copy: Self)
        ensures
            copy@ == self@,
    {
        QAItem { question: self.question.clone(), answer: self.answer.clone() }
    }
}

/// The views of a sequence of pairs.
pub open spec fn item_views(items: Seq<QAItem>) -> Seq<ItemView> {
    Seq::new(items.len(), |i: int| items[i]@)
}

/// The views of a sequence of embeddings.
pub open spec fn embedding_views(vectors: Seq<Vec<u64>>) -> Seq<Seq<u64>> {
    Seq::new(vectors.len(), |i: int| vectors[i]@)
}

/// A copy of `items`.
pub fn clone_items(items: &Vec<QAItem>) -> (copy: Vec<QAItem>)
    ensures
        item_views(copy@) == item_views(items@),
{
    let mut copy: Vec<QAItem> = Vec::new();
    let mut i: usize = 0;
    while i < items.len()
        invariant
            i <= items.len(),
            copy@.len() == i,
            forall|j: int| 0 <= j < i ==> (#[trigger] copy@[j])@ == items@[j]@,
        decreases items.len() - i,
    {
        copy.push(items[i].clone());
        i += 1;
    }
    proof {
        assert(item_views(copy@) =~= item_views(items@));
    }
    copy
}

/// The pairs of the store and, beside them, the embeddings of their
/// questions: `question_embeddings[i]` belongs to `qa_data[i]`.
#[derive(Debug)]
pub struct QASystem {
    pub qa_data: Vec<QAItem>,
    pub question_embeddings: Vec<Vec<u64>>,
}

/// A [`QASystem`] as the contracts see it.
pub struct SystemView {
    pub entries: Seq<ItemView>,
    pub vectors: Seq<Seq<u64>>,
}

impl View for QASystem {
    type V = SystemView;

    open spec fn view(&self) -> SystemView {
        SystemView {
            entries: item_views(self.qa_data@),
            vectors: embedding_views(self.question_embeddings@),
        }
    }
}

impl QASystem {
    /// Every pair has its embedding: the two sequences have one length.
    pub open spec fn paired(&self) -> bool {
        self.qa_data@.len() == self.question_embeddings@.len()
    }

    /// A system without pairs.
    pub fn new() -> (system: Self)
        ensures
            system@.entries == Seq::<ItemView>::empty(),
            system@.vectors == Seq::<Seq<u64>>::empty(),
            system.paired(),
    {
        let system = QASystem { qa_data: Vec::new(), question_embeddings: Vec::new() };
        proof {
            assert(system@.entries =~= Seq::<ItemView>::empty());
            assert(system@.vectors =~= Seq::<Seq<u64>>::empty());
        }
        system
    }
}

impl Default for QASystem {
    fn default() -> (system: Self)
        ensures
            system@.entries == Seq::<ItemView>::empty(),
            system@.vectors == Seq::<Seq<u64>>::empty(),
            system.paired(),
    {
        QASystem::new()
    }
}

} // verus!
