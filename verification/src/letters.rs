//! Letter case. The lower-case forms come from the standard library's
//! Unicode tables; this module gives them names and fetches them.

use vstd::prelude::*;

verus! {

/// The lower-case mapping of a character, as the standard library's Unicode
/// tables give it.
pub uninterp spec fn char_lowercase(c: char) -> Seq<char>;

/// The lower-case form of a whole text, as the standard library gives it.
pub uninterp spec fn lowercase(text: Seq<char>) -> Seq<char>;

/// Two characters are the same letter when their lower-case mappings agree.
pub open spec fn same_letter(a: char, b: char) -> bool {
    char_lowercase(a) == char_lowercase(b)
}

/// The lower-case mapping of each character of a text: its letter keys.
pub open spec fn letter_keys(text: Seq<char>) -> Seq<Seq<char>> {
    Seq::new(text.len(), |i: int| char_lowercase(text[i]))
}

/// The letter keys of each text of a list.
pub open spec fn key_rows(texts: Seq<Seq<char>>) -> Seq<Seq<Seq<char>>> {
    Seq::new(texts.len(), |j: int| letter_keys(texts[j]))
}

/// The texts of a list of strings.
pub open spec fn texts(strings: Seq<String>) -> Seq<Seq<char>> {
    Seq::new(strings.len(), |i: int| strings[i]@)
}

/// Trusted: `char::to_lowercase`, with the characters that its iterator
/// yields collected into a string. The standard library documents the mapping
/// as independent of context and language, so the result is a function of the
/// character alone: `char_lowercase` of it. Nothing more is claimed.
#[verifier::external_body]
fn lower_char(c: char) -> (lower: String)
    ensures
        lower@ == char_lowercase(c),
{
    c.to_lowercase().collect()
}

/// Trusted: `str::to_lowercase`. It reads the text and no locale, so the
/// result is a function of the text alone: `lowercase` of it. Nothing more is
/// claimed.
#[verifier::external_body]
pub(crate) fn to_lowercase(text: &str) -> (lower: String)
    ensures
        lower@ == lowercase(text@),
{
    text.to_lowercase()
}

/// The characters of `text`, in order.
pub fn chars_of(text: &str) -> (chars: Vec<char>)
    ensures
        chars@ == text@,
{
    let mut chars: Vec<char> = Vec::new();
    for c in it: text.chars()
        invariant
            it.seq() == text@,
            chars@ == text@.take(it.index()),
    {
        chars.push(c);
    }
    chars
}

/// The letter keys of `text`, one string for each of its characters.
pub fn letter_keys_of(text: &str) -> (keys: Vec<String>)
    ensures
        keys.deep_view() == letter_keys(text@),
{
    let mut keys: Vec<String> = Vec::new();
    for c in it: text.chars()
        invariant
            it.seq() == text@,
            keys.len() == it.index(),
            forall|i: int| 0 <= i < keys.len() ==> (#[trigger] keys[i])@ == char_lowercase(text@[i]),
    {
        keys.push(lower_char(c));
    }
    keys
}

} // verus!
