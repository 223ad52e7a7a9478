//! Text operations that the standard library performs and this crate
//! specifies: letter case, search, and building a string character by
//! character.

use vstd::prelude::*;

verus! {

/// `text` in lower case, as `str::to_lowercase` of the standard library
/// writes it.
pub uninterp spec fn lowercase(text: Seq<char>) -> Seq<char>;

/// Whether `c` is a letter or a digit, as `char::is_alphanumeric` of the
/// standard library decides it.
pub uninterp spec fn alphanumeric(c: char) -> bool;

/// Whether `c` is white space, as `char::is_whitespace` of the standard
/// library decides it.
pub uninterp spec fn white_space(c: char) -> bool;

/// Whether `inner` is `text` without the white space at its two ends.
pub open spec fn is_trim_of(inner: Seq<char>, text: Seq<char>) -> bool {
    exists|start: int, end: int| #[trigger] trims_to(text, start, end) && inner == text.subrange(start, end)
}

/// Whether the stretch from `start` to `end` is what is left of `text` when
/// the white space at its two ends is cut off: white space alone lies
/// outside the stretch, and the stretch neither begins nor ends with it.
pub open spec fn trims_to(text: Seq<char>, start: int, end: int) -> bool {
    &&& 0 <= start <= end <= text.len()
    &&& forall|j: int| 0 <= j < start ==> white_space(#[trigger] text[j])
    &&& forall|j: int| end <= j < text.len() ==> white_space(#[trigger] text[j])
    &&& start < end ==> !white_space(text[start]) && !white_space(text[end - 1])
}

/// Whether `needle` occurs in `hay` as a run of consecutive characters.
pub open spec fn occurs_in(needle: Seq<char>, hay: Seq<char>) -> bool {
    exists|at: int|
        0 <= at && at + needle.len() <= hay.len() && #[trigger] hay.subrange(
            at,
            at + needle.len(),
        ) == needle
}

/// Lower-cases `text` with `str::to_lowercase`. The conversion follows the
/// Unicode tables of the standard library, so the result is only named.
#[verifier::external_body]
pub(crate) fn to_lowercase(text: &str) -> (lower: String)
    ensures
        lower@ == lowercase(text@),
{
    text.to_lowercase()
}

/// Searches `hay` for `needle` with `str::contains`, which is true exactly
/// when the pattern matches a sub-slice of the text.
#[verifier::external_body]
pub(crate) fn contains(hay: &str, needle: &str) -> (found: bool)
    ensures
        found == occurs_in(needle@, hay@),
{
    hay.contains(needle)
}

/// Asks `char::is_alphanumeric`, which goes by the Unicode tables of the
/// standard library, so the answer is only named.
#[verifier::external_body]
pub(crate) fn is_alphanumeric(c: char) -> (yes: bool)
    ensures
        yes == alphanumeric(c),
{
    c.is_alphanumeric()
}

/// Asks `char::is_whitespace`, which goes by the Unicode property
/// `White_Space`, so the answer is only named.
#[verifier::external_body]
pub(crate) fn is_whitespace(c: char) -> (yes: bool)
    ensures
        yes == white_space(c),
{
    c.is_whitespace()
}

/// Appends `c` to `text` with `String::push`.
#[verifier::external_body]
pub(crate) fn push_char(text: &mut String, c: char)
    ensures
        final(text)@ == old(text)@.push(c),
{
    text.push(c)
}

/// Number of UTF-16 code units that encode `c`: two outside the Basic
/// Multilingual Plane, one inside.
pub open spec fn utf16_units(c: char) -> nat {
    if c as u32 >= 0x10000 {
        2
    } else {
        1
    }
}

/// Number of UTF-16 code units that encode `text`.
pub open spec fn utf16_len(text: Seq<char>) -> nat
    decreases text.len(),
{
    if text.len() == 0 {
        0
    } else {
        utf16_len(text.drop_last()) + utf16_units(text.last())
    }
}

/// The encoding of a concatenation is as long as the two encodings together.
pub proof fn lemma_utf16_len_concat(a: Seq<char>, b: Seq<char>)
    ensures
        utf16_len(a + b) == utf16_len(a) + utf16_len(b),
    decreases b.len(),
{
    if b.len() == 0 {
        assert(a + b == a);
    } else {
        lemma_utf16_len_concat(a, b.drop_last());
        assert((a + b).drop_last() == a + b.drop_last());
        assert((a + b).last() == b.last());
    }
}

/// Whether `text` without the white space at its two ends is `expected`.
pub fn trimmed_equals(text: &str, expected: &str) -> (same: bool)
    ensures
        same == is_trim_of(expected@, text@),
{
    let n = text.unicode_len();
    let mut start: usize = 0;
    while start < n && is_whitespace(text.get_char(start))
        invariant
            start <= n,
            n == text@.len(),
            forall|j: int| 0 <= j < start ==> white_space(#[trigger] text@[j]),
        decreases n - start,
    {
        start += 1;
    }
    let mut end: usize = n;
    while end > start && is_whitespace(text.get_char(end - 1))
        invariant
            start <= end <= n,
            n == text@.len(),
            forall|j: int| end <= j < n ==> white_space(#[trigger] text@[j]),
        decreases end,
    {
        end -= 1;
    }
    let inner = text.substring_char(start, end).to_owned();
    let wanted = expected.to_owned();
    let same = inner == wanted;
    proof {
        assert(trims_to(text@, start as int, end as int));
        if !same && is_trim_of(expected@, text@) {
            let (s, e) = choose|s: int, e: int| #[trigger]
                trims_to(text@, s, e) && expected@ == text@.subrange(s, e);
            if s < e {
                // A stretch that begins and ends with something other than
                // white space is the one found above.
                if start == end {
                    assert(white_space(text@[s]));
                }
                assert(s == start && e == end) by {
                    if s < start {
                        assert(white_space(text@[s]));
                    }
                    if start < s {
                        assert(white_space(text@[start as int]));
                    }
                    if e > end {
                        assert(white_space(text@[e - 1]));
                    }
                    if end > e {
                        assert(white_space(text@[end - 1]));
                    }
                }
            } else {
                // An empty stretch means that the text is white space
                // throughout, and then the stretch found above is empty too.
                if start < end {
                    assert(white_space(text@[start as int]));
                }
                assert(text@.subrange(s, e) =~= text@.subrange(start as int, end as int));
            }
        }
    }
    same
}

} // verus!
