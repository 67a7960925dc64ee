//! Positions in a rope: the character index of a byte offset, and the
//! offsets next to an offset.

use vstd::prelude::*;
use crate::rope::{rope_byte_to_char, rope_char_to_byte, rope_chars, rope_len_chars};
use crate::text::{
    byte_len, char_index, lemma_char_index_at, lemma_neighbours, lemma_prefix_len_ends,
    lemma_prefix_len_increases, next_boundary, on_boundary, prev_boundary,
};

verus! {

/// The character index of the boundary `b`.
pub(crate) fn char_at(rope: &ropey::Rope, b: usize) -> (k: usize)
    requires
        on_boundary(rope_chars(*rope), b as int),
    ensures
        k == char_index(rope_chars(*rope), b as int),
        k <= rope_chars(*rope).len(),
{
    proof {
        lemma_char_index_at(rope_chars(*rope), b as int);
    }
    let k: usize = rope_byte_to_char(rope, b);
    proof {
        let s = rope_chars(*rope);
        let c = char_index(s, b as int);
        if k < c {
            if k + 1 < c {
                lemma_prefix_len_increases(s, k + 1, c);
            }
        }
        if c < k {
            lemma_prefix_len_increases(s, c, k as int);
        }
    }
    k
}

/// The boundary after `pos`, which is not the end of the text.
pub(crate) fn next_after(rope: &ropey::Rope, pos: usize) -> (next: usize)
    requires
        on_boundary(rope_chars(*rope), pos as int),
        pos < byte_len(rope_chars(*rope)),
    ensures
        next == next_boundary(rope_chars(*rope), pos as int),
{
    proof {
        lemma_neighbours(rope_chars(*rope), pos as int);
        lemma_prefix_len_ends(rope_chars(*rope));
    }
    let k: usize = char_at(rope, pos);
    // The character is one of the rope's, whose number fits, so the sum below fits.
    let _chars: usize = rope_len_chars(rope);
    rope_char_to_byte(rope, k + 1)
}

/// The boundary before `pos`, which is not the start of the text.
pub(crate) fn prev_before(rope: &ropey::Rope, pos: usize) -> (prev: usize)
    requires
        on_boundary(rope_chars(*rope), pos as int),
        pos > 0,
    ensures
        prev == prev_boundary(rope_chars(*rope), pos as int),
{
    proof {
        lemma_neighbours(rope_chars(*rope), pos as int);
        lemma_prefix_len_ends(rope_chars(*rope));
    }
    let k: usize = char_at(rope, pos);
    rope_char_to_byte(rope, k - 1)
}

} // verus!
