//! The text rope that backs the editor, seen as the sequence of its characters.
//!
//! Everything in this file is taken on trust from the `ropey` crate: each
//! function states what the rope method it calls is documented to do.

use vstd::prelude::*;
use crate::lines::{newline_count, starts_line};
use crate::text::{byte_len, char_index, on_boundary, prefix_len};

verus! {

/// The rope of the `ropey` crate. Nothing is known of a rope but what
/// the functions below state of the characters that it holds.
#[verifier::external_type_specification]
#[verifier::external_body]
pub struct ExRope(ropey::Rope);

/// The characters that a rope holds, in order.
pub uninterp spec fn rope_chars(r: ropey::Rope) -> Seq<char>;

/// `Rope::new`: a rope without characters.
#[verifier::external_body]
pub(crate) fn rope_new() -> (r: ropey::Rope)
    ensures
        rope_chars(r) == Seq::<char>::empty(),
{
    ropey::Rope::new()
}

/// `Rope::len_bytes`: the number of bytes of the rope's text in UTF-8.
#[verifier::external_body]
pub(crate) fn rope_len_bytes(r: &ropey::Rope) -> (n: usize)
    ensures
        n == byte_len(rope_chars(*r)),
{
    r.len_bytes()
}

/// `Rope::len_chars`: the number of characters.
#[verifier::external_body]
pub(crate) fn rope_len_chars(r: &ropey::Rope) -> (n: usize)
    ensures
        n == rope_chars(*r).len(),
{
    r.len_chars()
}

/// `Rope::len_lines`: one more than the number of line breaks. The crate is
/// built to break lines at line feeds only.
#[verifier::external_body]
pub(crate) fn rope_len_lines(r: &ropey::Rope) -> (n: usize)
    ensures
        n == newline_count(rope_chars(*r)) + 1,
{
    r.len_lines()
}

/// `Rope::insert`: puts `text` before the character at `char_idx`. The
/// method panics only on an index past the end.
#[verifier::external_body]
pub(crate) fn rope_insert(r: &mut ropey::Rope, char_idx: usize, text: &str)
    requires
        char_idx <= rope_chars(*old(r)).len(),
    ensures
        rope_chars(*final(r)) == rope_chars(*old(r)).take(char_idx as int) + text@ + rope_chars(
            *old(r),
        ).skip(char_idx as int),
{
    r.insert(char_idx, text)
}

/// `Rope::remove`: takes out the characters from `start` up to `end`. The
/// method panics only on a reversed range or an end past the last character.
#[verifier::external_body]
pub(crate) fn rope_remove(r: &mut ropey::Rope, start: usize, end: usize)
    requires
        start <= end <= rope_chars(*old(r)).len(),
    ensures
        rope_chars(*final(r)) == rope_chars(*old(r)).take(start as int) + rope_chars(
            *old(r),
        ).skip(end as int),
{
    r.remove(start..end)
}

/// `Rope::byte_to_char`: the index of the character that the byte at
/// `byte_idx` belongs to; for the offset one past the end, the number of
/// characters.
#[verifier::external_body]
pub(crate) fn rope_byte_to_char(r: &ropey::Rope, byte_idx: usize) -> (c: usize)
    requires
        byte_idx <= byte_len(rope_chars(*r)),
    ensures
        c <= rope_chars(*r).len(),
        prefix_len(rope_chars(*r), c as int) <= byte_idx,
        c < rope_chars(*r).len() ==> byte_idx < prefix_len(rope_chars(*r), c + 1),
{
    r.byte_to_char(byte_idx)
}

/// `Rope::char_to_byte`: the byte offset at which the character at
/// `char_idx` starts; for the index one past the end, the length in bytes.
#[verifier::external_body]
pub(crate) fn rope_char_to_byte(r: &ropey::Rope, char_idx: usize) -> (b: usize)
    requires
        char_idx <= rope_chars(*r).len(),
    ensures
        b == prefix_len(rope_chars(*r), char_idx as int),
{
    r.char_to_byte(char_idx)
}

/// `Rope::byte_to_line`: the number of line breaks before the byte offset,
/// stated here for offsets between characters.
#[verifier::external_body]
pub(crate) fn rope_byte_to_line(r: &ropey::Rope, byte_idx: usize) -> (line: usize)
    requires
        on_boundary(rope_chars(*r), byte_idx as int),
    ensures
        line == newline_count(rope_chars(*r).take(char_index(rope_chars(*r), byte_idx as int))),
{
    r.byte_to_line(byte_idx)
}

/// `Rope::line_to_byte`: the byte offset at which line `line_idx` starts,
/// which is the start of the text for line 0 and the offset right after the
/// `line_idx`-th line feed for a later one; for the index one past the last
/// line, the length in bytes.
#[verifier::external_body]
pub(crate) fn rope_line_to_byte(r: &ropey::Rope, line_idx: usize) -> (offset: usize)
    requires
        line_idx <= newline_count(rope_chars(*r)) + 1,
    ensures
        line_idx == newline_count(rope_chars(*r)) + 1 ==> offset == byte_len(rope_chars(*r)),
        line_idx <= newline_count(rope_chars(*r)) ==> starts_line(
            rope_chars(*r),
            line_idx as int,
            offset as int,
        ),
{
    r.line_to_byte(line_idx)
}

/// `Rope::byte_slice` followed by `to_string`: the text between two byte
/// offsets, both of which lie between characters.
#[verifier::external_body]
pub(crate) fn rope_byte_slice(r: &ropey::Rope, start: usize, end: usize) -> (s: String)
    requires
        start <= end,
        on_boundary(rope_chars(*r), start as int),
        on_boundary(rope_chars(*r), end as int),
    ensures
        s@ == rope_chars(*r).subrange(
            char_index(rope_chars(*r), start as int),
            char_index(rope_chars(*r), end as int),
        ),
{
    r.byte_slice(start..end).to_string()
}

/// `Rope`'s `to_string`: the whole text.
#[verifier::external_body]
pub(crate) fn rope_to_string(r: &ropey::Rope) -> (s: String)
    ensures
        s@ == rope_chars(*r),
{
    r.to_string()
}

} // verus!
