//! Who may manage the store, and how formatted text is put together.
//!
//! Annotations address text in UTF-16 code units. Offsets and lengths are
//! `usize`; a count that does not fit is cut off at `usize::MAX`.

use vstd::prelude::*;
use crate::config::TelegramConfig;
use crate::qa::types::{entity_views, EntityKind, EntityView, FormattedText, TextEntity, TextView};
use crate::text::{lemma_utf16_len_concat, utf16_len, utf16_units};

verus! {

broadcast use vstd::string::group_string_axioms;

/// The identifier of a user as it stands in a list of 64-bit signed
/// numbers: identifiers beyond `i64::MAX` wrap round to negative numbers.
pub open spec fn listed_id(user_id: u64) -> int {
    if user_id <= i64::MAX {
        user_id as int
    } else {
        user_id - 0x1_0000_0000_0000_0000
    }
}

/// Whether the user is one of the configured super administrators.
pub fn is_super_admin(user_id: u64, config: &TelegramConfig) -> (yes: bool)
    ensures
        yes <==> exists|i: int|
            0 <= i < config.super_admins@.len() && #[trigger] config.super_admins@[i] == listed_id(
                user_id,
            ),
{
    let wanted: i64 = if user_id <= 0x7fff_ffff_ffff_ffff {
        user_id as i64
    } else {
        // The identifier lies in the upper half of the range: take the half
        // off, then count up from the least negative number.
        let above_half: u64 = user_id - 0x8000_0000_0000_0000;
        i64::MIN + (above_half as i64)
    };
    let mut i: usize = 0;
    while i < config.super_admins.len()
        invariant
            i <= config.super_admins.len(),
            wanted == listed_id(user_id),
            forall|j: int| 0 <= j < i ==> config.super_admins@[j] != wanted,
        decreases config.super_admins.len() - i,
    {
        if config.super_admins[i] == wanted {
            return true;
        }
        i += 1;
    }
    false
}

/// A count cut off at `usize::MAX`.
pub open spec fn clip(n: int) -> usize {
    if n > usize::MAX {
        usize::MAX
    } else if n < 0 {
        0
    } else {
        n as usize
    }
}

/// The number of UTF-16 code units that encode `text`, cut off at
/// `usize::MAX`.
pub fn utf16_length(text: &str) -> (units: usize)
    ensures
        units == clip(utf16_len(text@) as int),
{
    let n = text.unicode_len();
    let mut units: usize = 0;
    let mut i: usize = 0;
    while i < n
        invariant
            i <= n,
            n == text@.len(),
            units == clip(utf16_len(text@.take(i as int)) as int),
        decreases n - i,
    {
        let c = text.get_char(i);
        let width: usize = if c as u32 >= 0x10000 {
            2
        } else {
            1
        };
        proof {
            assert(text@.take(i + 1).drop_last() == text@.take(i as int));
            assert(text@.take(i + 1).last() == c);
            assert(width == utf16_units(c));
        }
        units = units.saturating_add(width);
        i += 1;
    }
    proof {
        assert(text@.take(n as int) == text@);
    }
    units
}

/// `text` in bold type: one annotation over all of it, none when it is
/// empty.
pub open spec fn bold_of(text: Seq<char>) -> TextView {
    TextView {
        text,
        entities: if text.len() == 0 {
            Seq::empty()
        } else {
            seq![
                EntityView {
                    kind: EntityKind::Bold,
                    argument: None,
                    offset: 0,
                    length: clip(utf16_len(text) as int),
                },
            ]
        },
    }
}

/// Wraps `text` in bold type.
pub fn bold(text: &str) -> (formatted: FormattedText)
    ensures
        formatted@ == bold_of(text@),
{
    let mut entities: Vec<TextEntity> = Vec::new();
    if !text.is_empty() {
        entities.push(
            TextEntity { kind: EntityKind::Bold, argument: None, offset: 0, length: utf16_length(text) },
        );
    }
    let formatted = FormattedText { text: text.to_owned(), entities };
    proof {
        assert(formatted@.entities =~= bold_of(text@).entities);
    }
    formatted
}

/// Whether the kind is one of the two quotation kinds.
pub open spec fn is_quote(kind: EntityKind) -> bool {
    kind == EntityKind::Blockquote || kind == EntityKind::ExpandableBlockquote
}

/// Whether some annotation marks a quotation.
pub open spec fn has_quote(entities: Seq<EntityView>) -> bool {
    exists|i: int| 0 <= i < entities.len() && is_quote(#[trigger] entities[i].kind)
}

/// The text as a quotation: text that is empty or already holds a quotation
/// stays as it is; other text gets, in front of its annotations, a quotation
/// over all of it, of the kind asked for if that is a quotation kind and an
/// ordinary quotation if not.
pub open spec fn quoted(ft: TextView, kind: EntityKind) -> TextView {
    if has_quote(ft.entities) || ft.text.len() == 0 {
        ft
    } else {
        TextView {
            text: ft.text,
            entities: seq![
                EntityView {
                    kind: if is_quote(kind) {
                        kind
                    } else {
                        EntityKind::Blockquote
                    },
                    argument: None,
                    offset: 0,
                    length: clip(utf16_len(ft.text) as int),
                },
            ] + ft.entities,
        }
    }
}

fn kind_is_quote(kind: EntityKind) -> (yes: bool)
    ensures
        yes == is_quote(kind),
{
    match kind {
        EntityKind::Blockquote => true,
        EntityKind::ExpandableBlockquote => true,
        _ => false,
    }
}

/// Makes sure that the text is shown as a quotation.
pub fn ensure_blockquote(ft: FormattedText, kind: EntityKind) -> (shown: FormattedText)
    ensures
        shown@ == quoted(ft@, kind),
{
    let mut has_blockquote = false;
    let mut i: usize = 0;
    while i < ft.entities.len()
        invariant
            i <= ft.entities.len(),
            has_blockquote <==> exists|j: int|
                0 <= j < i && is_quote(#[trigger] entity_views(ft.entities@)[j].kind),
        decreases ft.entities.len() - i,
    {
        if kind_is_quote(ft.entities[i].kind) {
            has_blockquote = true;
            proof {
                assert(is_quote(entity_views(ft.entities@)[i as int].kind));
            }
        }
        i += 1;
    }
    if has_blockquote || ft.text.as_str().is_empty() {
        return ft;
    }
    let blockquote_kind = if kind_is_quote(kind) {
        kind
    } else {
        EntityKind::Blockquote
    };
    let length = utf16_length(ft.text.as_str());
    let mut ft = ft;
    let ghost before = ft@;
    ft.entities.insert(0, TextEntity { kind: blockquote_kind, argument: None, offset: 0, length });
    proof {
        assert(ft@.entities =~= quoted(before, kind).entities);
    }
    ft
}

/// The annotations moved `by` code units towards the end of the text.
pub open spec fn shifted(entities: Seq<EntityView>, by: usize) -> Seq<EntityView> {
    Seq::new(
        entities.len(),
        |i: int|
            EntityView {
                kind: entities[i].kind,
                argument: entities[i].argument,
                offset: clip(entities[i].offset + by),
                length: entities[i].length,
            },
    )
}

/// The first `upto` parts joined into one text: the texts one after the
/// other, and the annotations of each part moved by the length of the text
/// before it.
pub open spec fn combined(parts: Seq<TextView>, upto: int) -> TextView
    decreases upto,
{
    if upto <= 0 {
        TextView { text: Seq::empty(), entities: Seq::empty() }
    } else {
        let before = combined(parts, upto - 1);
        TextView {
            text: before.text + parts[upto - 1].text,
            entities: before.entities + shifted(
                parts[upto - 1].entities,
                clip(utf16_len(before.text) as int),
            ),
        }
    }
}

/// The views of a list of parts.
pub open spec fn part_views(parts: Seq<&FormattedText>) -> Seq<TextView> {
    Seq::new(parts.len(), |i: int| parts[i]@)
}

/// Joins the parts into one formatted text.
pub fn combine_texts(parts: &[&FormattedText]) -> (whole: FormattedText)
    ensures
        whole@ == combined(part_views(parts@), parts@.len() as int),
{
    let mut final_text = String::new();
    let mut final_entities: Vec<TextEntity> = Vec::new();
    let mut current_offset: usize = 0;
    let ghost views = part_views(parts@);
    let mut p: usize = 0;
    while p < parts.len()
        invariant
            p <= parts.len(),
            views == part_views(parts@),
            final_text@ == combined(views, p as int).text,
            entity_views(final_entities@) == combined(views, p as int).entities,
            current_offset == clip(utf16_len(final_text@) as int),
        decreases parts.len() - p,
    {
        let part = parts[p];
        let ghost joined = entity_views(final_entities@);
        let mut e: usize = 0;
        while e < part.entities.len()
            invariant
                e <= part.entities.len(),
                entity_views(final_entities@) == joined + shifted(
                    entity_views(part.entities@),
                    current_offset,
                ).take(e as int),
            decreases part.entities.len() - e,
        {
            let entity = &part.entities[e];
            let ghost so_far = entity_views(final_entities@);
            final_entities.push(
                TextEntity {
                    kind: entity.kind,
                    argument: match &entity.argument {
                        Some(a) => Some(a.clone()),
                        None => None,
                    },
                    offset: entity.offset.saturating_add(current_offset),
                    length: entity.length,
                },
            );
            proof {
                let moved = shifted(entity_views(part.entities@), current_offset);
                assert(moved.take(e + 1) =~= moved.take(e as int).push(moved[e as int]));
                assert(entity_views(final_entities@) =~= so_far.push(moved[e as int]));
            }
            e += 1;
        }
        proof {
            let moved = shifted(entity_views(part.entities@), current_offset);
            assert(moved.take(part.entities@.len() as int) =~= moved);
            assert(views[p as int] == part@);
            lemma_utf16_len_concat(final_text@, part.text@);
        }
        final_text.append(part.text.as_str());
        current_offset = current_offset.saturating_add(utf16_length(part.text.as_str()));
        p += 1;
    }
    FormattedText { text: final_text, entities: final_entities }
}

/// What stands for a character in HTML text: the ampersand and the two
/// angle brackets are written as entities, every other character as itself.
pub open spec fn escaped_char(c: char) -> Seq<char> {
    if c == '&' {
        "&amp;"@
    } else if c == '<' {
        "&lt;"@
    } else if c == '>' {
        "&gt;"@
    } else {
        seq![c]
    }
}

/// `text` with every character written as it stands in HTML text.
pub open spec fn html_escaped(text: Seq<char>) -> Seq<char>
    decreases text.len(),
{
    if text.len() == 0 {
        Seq::empty()
    } else {
        html_escaped(text.drop_last()) + escaped_char(text.last())
    }
}

/// Escapes `text` with `teloxide::utils::html::escape`, which goes through
/// the characters in their order and writes `&amp;` for `&`, `&lt;` for `<`,
/// `&gt;` for `>` and every other character unchanged.
#[verifier::external_body]
fn escape_html(text: &str) -> (escaped: String)
    ensures
        escaped@ == html_escaped(text@),
{
    teloxide::utils::html::escape(text)
}

/// An answer as an HTML block quotation.
pub fn format_answer_html(answer: &str) -> (html: String)
    ensures
        html@ == "<blockquote>"@ + html_escaped(answer@) + "</blockquote>"@,
{
    let mut html = "<blockquote>".to_string();
    let escaped_answer = escape_html(answer);
    html.append(escaped_answer.as_str());
    html.append("</blockquote>");
    html
}

} // verus!
