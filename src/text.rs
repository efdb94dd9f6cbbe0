//! Substring matching on text.

use vstd::prelude::*;

verus! {

/// `needle` occurs in `hay` as a contiguous run of characters.
pub open spec fn contains_chars(hay: Seq<char>, needle: Seq<char>) -> bool {
    exists|i: int|
        0 <= i && i + needle.len() <= hay.len() && #[trigger] hay.subrange(i, i + needle.len())
            == needle
}

/// Relies on `str::contains` with a `&str` pattern: true exactly when the pattern
/// occurs in the string as a contiguous sub-slice.
#[verifier::external_body]
pub(crate) fn str_contains(hay: &str, needle: &str) -> (r: bool)
    ensures
        r == contains_chars(hay@, needle@),
{
    hay.contains(needle)
}

/// Lower-case form of a text, as `str::to_lowercase` computes it.
pub uninterp spec fn lower_of(s: Seq<char>) -> Seq<char>;

/// Relies on `str::to_lowercase`: the result depends on the characters alone, and an
/// empty text stays empty.
#[verifier::external_body]
fn lowercase(s: &str) -> (r: String)
    ensures
        r@ == lower_of(s@),
        s@.len() == 0 ==> r@.len() == 0,
{
    s.to_lowercase()
}

/// Some word of `banlist` occurs in `text`.
pub open spec fn has_banned_word(text: Seq<char>, banlist: Seq<String>) -> bool {
    exists|k: int| 0 <= k < banlist.len() && contains_chars(text, #[trigger] banlist[k]@)
}

/// Whether some word of `banlist` occurs in `folded`, a text already in lower case.
pub fn contains_any_word(folded: &str, banlist: &Vec<String>) -> (r: bool)
    ensures
        r == has_banned_word(folded@, banlist@),
{
    let mut k: usize = 0;
    while k < banlist.len()
        invariant
            k <= banlist@.len(),
            forall|j: int| 0 <= j < k ==> !contains_chars(folded@, #[trigger] banlist@[j]@),
        decreases banlist@.len() - k,
    {
        if str_contains(folded, banlist[k].as_str()) {
            return true;
        }
        k = k + 1;
    }
    false
}

/// Whether some word of `banlist` occurs in the lower-case form of `checked`.
pub fn contains_banned_words(checked: &str, banlist: &Vec<String>) -> (r: bool)
    ensures
        r == has_banned_word(lower_of(checked@), banlist@),
{
    let folded = lowercase(checked);
    contains_any_word(folded.as_str(), banlist)
}

} // verus!
