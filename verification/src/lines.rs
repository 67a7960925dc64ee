//! Logical lines of a text: where the line that holds a position starts and ends.
//! A line ends at a line feed, which belongs to the line that it ends.

use vstd::prelude::*;
use crate::text::prefix_len;

verus! {

/// Number of line feeds in `s`.
pub open spec fn newline_count(s: Seq<char>) -> nat
    decreases s.len(),
{
    if s.len() == 0 {
        0
    } else {
        newline_count(s.drop_last()) + if s.last() == '\n' {
            1nat
        } else {
            0nat
        }
    }
}

/// `k` is the character index at which a line of `s` starts: the start of
/// the text, or the position right after a line feed.
pub open spec fn is_line_start(s: Seq<char>, k: int) -> bool {
    0 <= k <= s.len() && (k == 0 || s[k - 1] == '\n')
}

/// Line `line` of `s` starts at byte offset `b`.
pub open spec fn starts_line(s: Seq<char>, line: int, b: int) -> bool {
    exists|k: int|
        is_line_start(s, k) && newline_count(s.take(k)) == line && #[trigger] prefix_len(s, k)
            == b
}

/// No line feed stands at the character indices from `i` up to `j`.
pub open spec fn no_newline(s: Seq<char>, i: int, j: int) -> bool {
    forall|x: int| i <= x < j ==> s[x] != '\n'
}

/// `k` is the start of the line that holds the character index `at`.
pub open spec fn is_line_start_for(s: Seq<char>, k: int, at: int) -> bool {
    is_line_start(s, k) && k <= at && no_newline(s, k, at)
}

/// `m` is the end of the line that holds the character index `at`: the
/// index of the line feed that ends it, or the end of the text.
pub open spec fn is_line_end_for(s: Seq<char>, m: int, at: int) -> bool {
    at <= m <= s.len() && (m == s.len() || s[m] == '\n') && no_newline(s, at, m)
}

/// One more character adds one to the count if it is a line feed.
pub proof fn lemma_count_step(s: Seq<char>, k: int)
    requires
        0 <= k < s.len(),
    ensures
        newline_count(s.take(k + 1)) == newline_count(s.take(k)) + if s[k] == '\n' {
            1nat
        } else {
            0nat
        },
{
    assert(s.take(k + 1).drop_last() == s.take(k));
    assert(s.take(k + 1).last() == s[k]);
}

/// A longer prefix holds at least as many line feeds, and exactly as many
/// if and only if none stands in between.
pub proof fn lemma_count_between(s: Seq<char>, i: int, j: int)
    requires
        0 <= i <= j <= s.len(),
    ensures
        newline_count(s.take(i)) <= newline_count(s.take(j)),
        newline_count(s.take(i)) == newline_count(s.take(j)) <==> no_newline(s, i, j),
    decreases j - i,
{
    if i < j {
        lemma_count_between(s, i, j - 1);
        lemma_count_step(s, j - 1);
        if no_newline(s, i, j) {
            assert(no_newline(s, i, j - 1));
        }
        if newline_count(s.take(i)) == newline_count(s.take(j)) {
            assert forall|x: int| i <= x < j implies s[x] != '\n' by {
                if x < j - 1 {
                    assert(no_newline(s, i, j - 1));
                }
            }
        }
    }
}

/// A line start with as many line feeds before it as stand before `at` is
/// the start of the line that holds `at`.
pub proof fn lemma_line_start_found(s: Seq<char>, k: int, at: int)
    requires
        0 <= at <= s.len(),
        is_line_start(s, k),
        newline_count(s.take(k)) == newline_count(s.take(at)),
    ensures
        is_line_start_for(s, k, at),
{
    if k > at {
        lemma_count_between(s, at, k - 1);
        lemma_count_step(s, k - 1);
    } else {
        lemma_count_between(s, k, at);
    }
}

/// The character before the start of the next line is the end of the line
/// that holds `at`.
pub proof fn lemma_line_end_found(s: Seq<char>, k: int, at: int)
    requires
        0 <= at <= s.len(),
        is_line_start(s, k),
        newline_count(s.take(k)) == newline_count(s.take(at)) + 1,
    ensures
        k >= 1,
        is_line_end_for(s, k - 1, at),
{
    assert(s.take(0) == Seq::<char>::empty());
    assert(k > 0);
    lemma_count_step(s, k - 1);
    if k - 1 < at {
        lemma_count_between(s, k, at);
    } else {
        lemma_count_between(s, at, k - 1);
    }
}

/// Where no line feed follows, the line that holds `at` ends with the text.
pub proof fn lemma_last_line(s: Seq<char>, at: int)
    requires
        0 <= at <= s.len(),
        newline_count(s.take(at)) == newline_count(s),
    ensures
        is_line_end_for(s, s.len() as int, at),
{
    assert(s.take(s.len() as int) == s);
    lemma_count_between(s, at, s.len() as int);
}

/// A prefix holds at most as many line feeds as the text.
pub proof fn lemma_count_bound(s: Seq<char>, at: int)
    requires
        0 <= at <= s.len(),
    ensures
        newline_count(s.take(at)) <= newline_count(s),
{
    assert(s.take(s.len() as int) == s);
    lemma_count_between(s, at, s.len() as int);
}

/// The start of the line that holds a character index is determined.
pub proof fn lemma_line_start_unique(s: Seq<char>, k: int, j: int, at: int)
    requires
        is_line_start_for(s, k, at),
        is_line_start_for(s, j, at),
    ensures
        k == j,
{
    if k < j {
        assert(s[j - 1] == '\n');
    }
    if j < k {
        assert(s[k - 1] == '\n');
    }
}

/// The end of the line that holds a character index is determined.
pub proof fn lemma_line_end_unique(s: Seq<char>, m: int, n: int, at: int)
    requires
        is_line_end_for(s, m, at),
        is_line_end_for(s, n, at),
    ensures
        m == n,
{
    if m < n {
        assert(s[m] == '\n');
    }
    if n < m {
        assert(s[n] == '\n');
    }
}

} // verus!
