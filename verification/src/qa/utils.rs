//! Content hashes of questions.

use sha2::Digest;
use vstd::prelude::*;

verus! {

/// The SHA-256 digest of the UTF-8 encoding of `text`, written as lower-case
/// hexadecimal digits.
pub uninterp spec fn sha256_hex(text: Seq<char>) -> Seq<char>;

/// A digit of lower-case hexadecimal notation.
pub open spec fn is_lower_hex(c: char) -> bool {
    ('0' <= c && c <= '9') || ('a' <= c && c <= 'f')
}

/// Number of characters in a content hash.
pub const HASH_LEN: usize = 64;

/// Hashes `text` with `sha2::Sha256::digest` and formats the 32 bytes of the
/// digest with the `{:x}` of `generic_array`, two digits for each byte.
///
/// The digest itself is only named; what is claimed beyond the name is the
/// shape of the text: 64 digits out of `0-9a-f`.
#[verifier::external_body]
fn digest_hex(text: &str) -> (hex: String)
    ensures
        hex@ == sha256_hex(text@),
        hex@.len() == HASH_LEN,
        forall|i: int| 0 <= i < hex@.len() ==> is_lower_hex(#[trigger] hex@[i]),
{
    format!("{:x}", sha2::Sha256::digest(text.as_bytes()))
}

/// The content hash of a question: the key under which its embedding is
/// cached and by which the entry is addressed from outside.
pub fn get_question_hash(question: &str) -> (hash: String)
    ensures
        hash@ == sha256_hex(question@),
        hash@.len() == HASH_LEN,
        forall|i: int| 0 <= i < hash@.len() ==> is_lower_hex(#[trigger] hash@[i]),
{
    digest_hex(question)
}

/// Whether `prefix` is how `text` begins.
pub open spec fn is_prefix(prefix: Seq<char>, text: Seq<char>) -> bool {
    prefix.len() <= text.len() && text.subrange(0, prefix.len() as int) == prefix
}

/// Whether `text` begins with `prefix`.
pub fn starts_with(text: &str, prefix: &str) -> (yes: bool)
    ensures
        yes == is_prefix(prefix@, text@),
{
    let n = prefix.unicode_len();
    if n > text.unicode_len() {
        return false;
    }
    let mut i: usize = 0;
    while i < n
        invariant
            i <= n,
            n == prefix@.len(),
            n <= text@.len(),
            forall|j: int| 0 <= j < i ==> text@[j] == prefix@[j],
        decreases n - i,
    {
        if text.get_char(i) != prefix.get_char(i) {
            proof {
                assert(text@.subrange(0, n as int)[i as int] == text@[i as int]);
            }
            return false;
        }
        i += 1;
    }
    proof {
        assert(text@.subrange(0, n as int) =~= prefix@);
    }
    true
}

} // verus!
