//! Byte ranges of strings: where a character starts, and what a byte range
//! of a string holds.

use std::ops::Range;
use vstd::prelude::*;
use vstd::string::StringSliceAdditionalSpecFns;
use vstd::utf8::{
    decode_utf8, encode_scalar, encode_utf8, encode_utf8_decode_utf8, encode_utf8_first_scalar,
    encode_utf8_valid_utf8, is_char_boundary, is_char_boundary_start_end_of_seq, pop_first_scalar,
};

verus! {

/// The byte offset at which the character with index `i` starts.
pub open spec fn byte_offset(chars: Seq<char>, i: int) -> int {
    encode_utf8(chars.take(i)).len() as int
}

/// Whether `range` can slice a string of `chars`: in order, inside the string,
/// and on character boundaries.
pub open spec fn slices(chars: Seq<char>, range: Range<usize>) -> bool {
    &&& range.start <= range.end <= encode_utf8(chars).len()
    &&& is_char_boundary(encode_utf8(chars), range.start as int)
    &&& is_char_boundary(encode_utf8(chars), range.end as int)
}

/// The characters of `chars` whose bytes lie in `range`.
pub open spec fn chars_in(chars: Seq<char>, range: Range<usize>) -> Seq<char> {
    decode_utf8(encode_utf8(chars).subrange(range.start as int, range.end as int))
}

/// The bytes of two strings in a row are the bytes of the first followed by
/// the bytes of the second.
pub proof fn lemma_encode_concat(a: Seq<char>, b: Seq<char>)
    ensures
        encode_utf8(a + b) == encode_utf8(a) + encode_utf8(b),
    decreases a.len(),
{
    if a.len() == 0 {
        assert(a + b =~= b);
        assert(encode_utf8(a) + encode_utf8(b) =~= encode_utf8(b));
    } else {
        lemma_encode_concat(a.drop_first(), b);
        assert((a + b).drop_first() =~= a.drop_first() + b);
        assert(encode_utf8(a + b) =~= encode_utf8(a) + encode_utf8(b));
    }
}

/// The end of a prefix of whole characters is a character boundary.
pub proof fn lemma_prefix_boundary(a: Seq<char>, b: Seq<char>)
    ensures
        is_char_boundary(encode_utf8(a + b), encode_utf8(a).len() as int),
    decreases a.len(),
{
    let bytes = encode_utf8(a + b);
    encode_utf8_valid_utf8(a + b);
    if a.len() == 0 {
        is_char_boundary_start_end_of_seq(bytes);
    } else {
        lemma_prefix_boundary(a.drop_first(), b);
        lemma_encode_concat(a, b);
        assert((a + b).drop_first() =~= a.drop_first() + b);
        encode_utf8_first_scalar(a + b);
        let head = encode_scalar(a[0] as u32);
        assert(pop_first_scalar(bytes) =~= encode_utf8(a.drop_first() + b));
        assert(encode_utf8(a).len() == head.len() + encode_utf8(a.drop_first()).len());
        assert(head.len() > 0);
    }
}

/// Offsets of characters are boundaries, in order, and the bytes between two
/// of them are the characters between them.
pub proof fn lemma_offsets(chars: Seq<char>, i: int, j: int)
    requires
        0 <= i <= j <= chars.len(),
    ensures
        0 <= byte_offset(chars, i) <= byte_offset(chars, j) <= encode_utf8(chars).len(),
        j - i <= byte_offset(chars, j) - byte_offset(chars, i),
        byte_offset(chars, j) == byte_offset(chars, i) + encode_utf8(chars.subrange(i, j)).len(),
        is_char_boundary(encode_utf8(chars), byte_offset(chars, i)),
        is_char_boundary(encode_utf8(chars), byte_offset(chars, j)),
        decode_utf8(
            encode_utf8(chars).subrange(byte_offset(chars, i), byte_offset(chars, j)),
        ) == chars.subrange(i, j),
{
    let before = chars.take(i);
    let mid = chars.subrange(i, j);
    let after = chars.skip(j);
    assert(chars.take(j) =~= before + mid);
    assert(chars =~= before + (mid + after));
    assert(chars =~= (before + mid) + after);
    lemma_encode_concat(before, mid);
    lemma_encode_concat(before, mid + after);
    lemma_encode_concat(mid, after);
    lemma_prefix_boundary(before, mid + after);
    lemma_prefix_boundary(before + mid, after);
    lemma_at_least_one_byte(mid);
    assert(encode_utf8(chars).subrange(byte_offset(chars, i), byte_offset(chars, j))
        =~= encode_utf8(mid));
    encode_utf8_decode_utf8(mid);
}

/// Every character takes at least one byte.
pub proof fn lemma_at_least_one_byte(chars: Seq<char>)
    ensures
        chars.len() <= encode_utf8(chars).len(),
    decreases chars.len(),
{
    if chars.len() > 0 {
        lemma_at_least_one_byte(chars.drop_first());
    }
}

/// Every character boundary is the offset of some character.
pub proof fn lemma_boundary_is_offset(chars: Seq<char>, at: int) -> (i: int)
    requires
        is_char_boundary(encode_utf8(chars), at),
    ensures
        0 <= i <= chars.len(),
        byte_offset(chars, i) == at,
    decreases chars.len(),
{
    let bytes = encode_utf8(chars);
    encode_utf8_valid_utf8(chars);
    if at == 0 {
        assert(chars.take(0) =~= Seq::<char>::empty());
        0
    } else {
        encode_utf8_first_scalar(chars);
        let tail = chars.drop_first();
        assert(pop_first_scalar(bytes) =~= encode_utf8(tail));
        let head = encode_scalar(chars[0] as u32);
        let k = lemma_boundary_is_offset(tail, at - head.len());
        assert(chars.take(k + 1).drop_first() =~= tail.take(k));
        k + 1
    }
}

/// The bytes of `text`, counted.
pub fn byte_len(text: &str) -> (len: usize)
    ensures
        len == encode_utf8(text@).len(),
{
    text.as_bytes().len()
}

/// The part of `text` that lies in `range`.
pub fn slice<'a>(text: &'a str, range: &Range<usize>) -> (part: &'a str)
    requires
        slices(text@, *range),
    ensures
        part@ == chars_in(text@, *range),
{
    let ghost bytes = encode_utf8(text@);
    let head = text.split_at(range.end).0;
    proof {
        let i = lemma_boundary_is_offset(text@, range.start as int);
        let j = lemma_boundary_is_offset(text@, range.end as int);
        lemma_slice_order(text@, i, j);
        lemma_offsets(text@, 0, j);
        lemma_offsets(text@, i, j);
        assert(text@.take(0) =~= Seq::<char>::empty());
        encode_utf8_decode_utf8(head@);
        assert(text@.subrange(0, j) =~= text@.take(j));
        assert(head@ =~= text@.take(j));
        lemma_offsets(text@.take(j), i, j);
        assert(text@.take(j).take(i) =~= text@.take(i));
    }
    let part = head.split_at(range.start).1;
    proof {
        encode_utf8_decode_utf8(part@);
        assert(part.spec_bytes() =~= bytes.subrange(range.start as int, range.end as int));
    }
    part
}

/// A byte range that is cut at a character boundary holds what its two parts
/// hold in a row.
pub proof fn lemma_chars_in_split(chars: Seq<char>, start: usize, mid: usize, end: usize)
    requires
        slices(chars, Range { start, end: mid }),
        slices(chars, Range { start: mid, end }),
    ensures
        slices(chars, Range { start, end }),
        chars_in(chars, Range { start, end }) == chars_in(chars, Range { start, end: mid })
            + chars_in(chars, Range { start: mid, end }),
{
    let i = lemma_boundary_is_offset(chars, start as int);
    let j = lemma_boundary_is_offset(chars, mid as int);
    let k = lemma_boundary_is_offset(chars, end as int);
    lemma_slice_order(chars, i, j);
    lemma_slice_order(chars, j, k);
    lemma_offsets(chars, i, j);
    lemma_offsets(chars, j, k);
    lemma_offsets(chars, i, k);
    assert(chars.subrange(i, k) =~= chars.subrange(i, j) + chars.subrange(j, k));
}

/// The byte range from the start to the end of a string holds all of it.
pub proof fn lemma_chars_in_all(chars: Seq<char>)
    requires
        encode_utf8(chars).len() <= usize::MAX,
    ensures
        slices(chars, Range { start: 0, end: encode_utf8(chars).len() as usize }),
        chars_in(chars, Range { start: 0, end: encode_utf8(chars).len() as usize }) == chars,
{
    let n = chars.len() as int;
    lemma_offsets(chars, 0, n);
    assert(chars.take(0) =~= Seq::<char>::empty());
    assert(chars.take(n) =~= chars);
    assert(chars.subrange(0, n) =~= chars);
}

/// A character that starts no later has no larger index.
proof fn lemma_slice_order(chars: Seq<char>, i: int, j: int)
    requires
        0 <= i <= chars.len(),
        0 <= j <= chars.len(),
        byte_offset(chars, i) <= byte_offset(chars, j),
    ensures
        i <= j,
{
    if j < i {
        lemma_offsets(chars, j, i);
    }
}

} // verus!
