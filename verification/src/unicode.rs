//! What Unicode says of characters and strings: classes, grapheme clusters
//! and display width. The tables live in the standard library and in the
//! `unicode-segmentation` and `unicode-width` crates.

use unicode_segmentation::UnicodeSegmentation;
use unicode_width::UnicodeWidthStr;
use vstd::prelude::*;
use vstd::utf8::encode_utf8;

verus! {

/// Whether a character has the `White_Space` property.
pub open spec fn char_is_whitespace(ch: char) -> bool {
    ||| '\u{9}' <= ch <= '\u{d}'
    ||| ch == ' '
    ||| ch == '\u{85}'
    ||| ch == '\u{a0}'
    ||| ch == '\u{1680}'
    ||| '\u{2000}' <= ch <= '\u{200a}'
    ||| '\u{2028}' <= ch <= '\u{2029}'
    ||| ch == '\u{202f}'
    ||| ch == '\u{205f}'
    ||| ch == '\u{3000}'
}

/// Whether a character is an ASCII letter or digit.
pub open spec fn ascii_alphanumeric(ch: char) -> bool {
    '0' <= ch <= '9' || 'A' <= ch <= 'Z' || 'a' <= ch <= 'z'
}

/// Whether a character is alphabetic or numeric.
pub uninterp spec fn char_is_alphanumeric(ch: char) -> bool;

/// The extended grapheme clusters of a string, in order.
pub uninterp spec fn grapheme_clusters(text: Seq<char>) -> Seq<Seq<char>>;

/// The terminal columns that a string takes.
pub uninterp spec fn display_width(text: Seq<char>) -> nat;

/// `char::is_whitespace` tells whether a character has Unicode's `White_Space`
/// property, which is the short list above.
pub assume_specification[ char::is_whitespace ](ch: char) -> (yes: bool)
    ensures
        yes == char_is_whitespace(ch),
;

/// `char::is_alphanumeric` is a property of the character alone. Of the ASCII
/// characters, letters and digits have it; which others do is Unicode's table
/// and stays unsaid.
pub assume_specification[ char::is_alphanumeric ](ch: char) -> (yes: bool)
    ensures
        yes == char_is_alphanumeric(ch),
        ch <= '\u{7f}' ==> yes == ascii_alphanumeric(ch),
;

/// The first `n` parts in a row.
pub open spec fn joined(parts: Seq<Seq<char>>, n: int) -> Seq<char>
    decreases n,
{
    if n <= 0 {
        Seq::empty()
    } else {
        joined(parts, n - 1) + parts[n - 1]
    }
}

/// The texts of indexed parts.
pub open spec fn part_texts(parts: Seq<(usize, &str)>) -> Seq<Seq<char>> {
    Seq::new(parts.len(), |i: int| parts[i].1@)
}

/// Whether `parts` split `text`: none is empty, in a row they are `text`, and
/// each carries the byte offset at which it starts.
pub open spec fn splits(parts: Seq<(usize, &str)>, text: Seq<char>) -> bool {
    &&& forall|i: int| 0 <= i < parts.len() ==> (#[trigger] parts[i]).1@.len() > 0
    &&& forall|i: int|
        0 <= i < parts.len() ==> (#[trigger] parts[i]).0 == encode_utf8(
            joined(part_texts(parts), i),
        ).len()
    &&& joined(part_texts(parts), parts.len() as int) == text
}

/// `UnicodeSegmentation::grapheme_indices` with extended clusters, collected.
/// Where the clusters end depends on the text alone and is Unicode's rule, so
/// it is named and not spelled out; they are never empty, in a row they are
/// the text, and each comes with its byte offset.
#[verifier::external_body]
pub(crate) fn grapheme_indices<'a>(text: &'a str) -> (parts: Vec<(usize, &'a str)>)
    ensures
        part_texts(parts@) == grapheme_clusters(text@),
        splits(parts@, text@),
{
    text.grapheme_indices(true).collect()
}

/// Whether a character is a printable ASCII character, a vertical bar, a left
/// half block or a triangle that points right.
pub open spec fn one_column(ch: char) -> bool {
    ' ' <= ch <= '~' || ch == '\u{2502}' || ch == '\u{258c}' || ch == '\u{25b6}'
}

/// Whether every character of a string is one of these.
pub open spec fn narrow(text: Seq<char>) -> bool {
    forall|i: int| 0 <= i < text.len() ==> one_column(#[trigger] text[i])
}

/// `UnicodeWidthStr::width`. The width depends on the text alone and is
/// Unicode's rule, so it is named and not spelled out. In a text of printable
/// ASCII characters and of the three glyphs of [`one_column`], each takes one
/// column: the crate's tables give them width one and let none of them combine
/// with the character after it.
#[verifier::external_body]
pub(crate) fn width(text: &str) -> (columns: usize)
    ensures
        columns == display_width(text@),
        narrow(text@) ==> columns == text@.len(),
{
    UnicodeWidthStr::width(text)
}

} // verus!
