//! Visual lines: the rows in which a text is shown in a viewport of a
//! given width. A logical line that is wider than the viewport is shown in
//! several rows.

use vstd::prelude::*;
use crate::history::slice;
use crate::lines::{
    is_line_start, lemma_count_bound, lemma_last_line, lemma_line_end_found, newline_count,
    no_newline, starts_line,
};
use crate::position::{next_after, prev_before};
use crate::rope::{rope_byte_slice, rope_chars, rope_len_bytes, rope_len_lines, rope_line_to_byte};
use crate::text::{
    byte_len, char_index, lemma_char_index, lemma_char_index_at, lemma_char_index_ordered,
    lemma_neighbours, lemma_prefix_len_ends, lemma_prefix_len_increases, lemma_prefix_len_step,
    next_boundary, on_boundary, prefix_len, prev_boundary,
};
use crate::width::{display_width, str_width};

verus! {

/// A row of the display: the bytes of the text that it shows.
#[derive(Clone, Copy, Debug, PartialEq, Eq)]
pub struct VisualLine {
    /// Where the row starts in the text.
    pub start_byte: usize,
    /// Where the row ends in the text; the line feed is not part of it.
    pub end_byte: usize,
    /// Whether the row goes on with the logical line of the row above.
    pub is_continuation: bool,
    /// The number of columns by which a continuation row is indented.
    pub indent: usize,
    /// The index of the logical line that the row belongs to.
    pub logical_line: usize,
}

/// The bytes from `a` up to `b` fit a row of `width` columns, and so do
/// the bytes from `a` up to every boundary before `b`, but for a single
/// character, which has its row however wide it is.
pub open spec fn fits(s: Seq<char>, a: int, b: int, width: int) -> bool {
    forall|p: int|
        a < p <= b && on_boundary(s, p) && char_index(s, p) - char_index(s, a) > 1
            ==> display_width(#[trigger] slice(s, a, p)) <= width
}

/// The bytes from `a` up to `b` are shown within `col` columns, and so
/// are the bytes from `a` up to every boundary before `b`.
pub open spec fn within(s: Seq<char>, a: int, b: int, col: int) -> bool {
    forall|p: int|
        a < p <= b && on_boundary(s, p) ==> display_width(#[trigger] slice(s, a, p)) <= col
}

/// The row shows bytes of one logical line, from boundary to boundary,
/// and fits the width.
pub open spec fn row_ok(s: Seq<char>, l: VisualLine, width: int) -> bool {
    &&& l.start_byte <= l.end_byte
    &&& on_boundary(s, l.start_byte as int)
    &&& on_boundary(s, l.end_byte as int)
    &&& no_newline(s, char_index(s, l.start_byte as int), char_index(s, l.end_byte as int))
    &&& fits(s, l.start_byte as int, l.end_byte as int, width)
    &&& l.indent == 0
}

/// Row `b` follows row `a`: it goes on with the same logical line where
/// one more character would not have fitted row `a`, or it starts the
/// next logical line behind the line feed that ends row `a`.
pub open spec fn follows(s: Seq<char>, a: VisualLine, b: VisualLine, width: int) -> bool {
    if b.is_continuation {
        &&& b.start_byte == a.end_byte
        &&& b.start_byte < b.end_byte
        &&& b.logical_line == a.logical_line
        &&& a.start_byte < a.end_byte
        &&& a.end_byte < byte_len(s)
        &&& s[char_index(s, a.end_byte as int)] != '\n'
        &&& display_width(
            slice(s, a.start_byte as int, next_boundary(s, a.end_byte as int)),
        ) > width
    } else {
        &&& b.start_byte == a.end_byte + 1
        &&& a.end_byte < byte_len(s)
        &&& s[char_index(s, a.end_byte as int)] == '\n'
        &&& b.logical_line == a.logical_line + 1
    }
}

/// The rows show the start of the text in order: the first row starts
/// the text, and each row follows the one before.
pub open spec fn rows_chain(s: Seq<char>, rows: Seq<VisualLine>, width: int) -> bool {
    &&& rows.len() > 0
    &&& rows[0].start_byte == 0
    &&& !rows[0].is_continuation
    &&& rows[0].logical_line == 0
    &&& forall|i: int| 0 <= i < rows.len() ==> row_ok(s, #[trigger] rows[i], width)
    &&& forall|i: int|
        0 <= i < rows.len() - 1 ==> follows(s, rows[i], #[trigger] rows[i + 1], width)
}

/// The rows show the whole text in order: they show its start in order,
/// and the last row ends the text.
pub open spec fn rows_ok(s: Seq<char>, rows: Seq<VisualLine>, width: int) -> bool {
    rows_chain(s, rows, width) && rows.last().end_byte == byte_len(s)
}

/// A row that follows the last row goes on with the rows.
pub proof fn lemma_chain_push(s: Seq<char>, rows: Seq<VisualLine>, row: VisualLine, width: int)
    requires
        row_ok(s, row, width),
        rows.len() == 0 ==> row.start_byte == 0 && !row.is_continuation && row.logical_line == 0,
        rows.len() > 0 ==> rows_chain(s, rows, width) && follows(s, rows.last(), row, width),
    ensures
        rows_chain(s, rows.push(row), width),
{
    let ext = rows.push(row);
    assert forall|i: int| 0 <= i < ext.len() implies row_ok(s, #[trigger] ext[i], width) by {
        if i < rows.len() {
            assert(ext[i] == rows[i]);
        }
    }
    assert forall|i: int| 0 <= i < ext.len() - 1 implies follows(
        s,
        ext[i],
        #[trigger] ext[i + 1],
        width,
    ) by {
        if i + 1 < rows.len() {
            assert(ext[i] == rows[i]);
            assert(ext[i + 1] == rows[i + 1]);
        } else {
            assert(ext[i] == rows.last());
        }
    }
}

/// Row `i` holds the byte offset `pos`: the offset lies in the row, and
/// at the end of the row only if the next row does not go on there.
pub open spec fn holds(rows: Seq<VisualLine>, i: int, pos: int) -> bool {
    &&& 0 <= i < rows.len()
    &&& rows[i].start_byte <= pos <= rows[i].end_byte
    &&& !(pos == rows[i].end_byte && i + 1 < rows.len() && rows[i + 1].is_continuation)
}

/// The end of the row that starts at `start` in a line that ends at
/// `line_end`: as many characters as fit the width, and at least one.
fn row_end(rope: &ropey::Rope, start: usize, line_end: usize, width: usize) -> (end: usize)
    requires
        start <= line_end,
        on_boundary(rope_chars(*rope), start as int),
        on_boundary(rope_chars(*rope), line_end as int),
    ensures
        start <= end <= line_end,
        start < line_end ==> start < end,
        on_boundary(rope_chars(*rope), end as int),
        fits(rope_chars(*rope), start as int, end as int, width as int),
        end < line_end ==> display_width(
            slice(rope_chars(*rope), start as int, next_boundary(rope_chars(*rope), end as int)),
        ) > width,
{
    let ghost s = rope_chars(*rope);
    proof {
        lemma_char_index_at(s, start as int);
        lemma_char_index_at(s, line_end as int);
    }
    if start == line_end {
        return start;
    }
    proof {
        lemma_neighbours(s, start as int);
        lemma_boundary_between(s, start as int, line_end as int);
    }
    let first: usize = next_after(rope, start);
    let mut end: usize = first;
    proof {
        assert forall|p: int|
            start < p <= end && on_boundary(s, p) && char_index(s, p) - char_index(
                s,
                start as int,
            ) > 1 implies display_width(#[trigger] slice(s, start as int, p)) <= width by {
            lemma_boundary_between(s, start as int, p);
        }
    }
    while end < line_end
        invariant
            s == rope_chars(*rope),
            start < end <= line_end,
            on_boundary(s, start as int),
            on_boundary(s, end as int),
            on_boundary(s, line_end as int),
            fits(s, start as int, end as int, width as int),
        decreases line_end - end,
    {
        proof {
            lemma_char_index_at(s, line_end as int);
            lemma_neighbours(s, end as int);
            lemma_boundary_between(s, end as int, line_end as int);
        }
        let next: usize = next_after(rope, end);
        let text = rope_byte_slice(rope, start, next);
        if str_width(text.as_str()) > width {
            return end;
        }
        proof {
            assert forall|p: int|
                start < p <= next && on_boundary(s, p) && char_index(s, p) - char_index(
                    s,
                    start as int,
                ) > 1 implies display_width(#[trigger] slice(s, start as int, p)) <= width by {
                if p > end {
                    lemma_boundary_between(s, end as int, p);
                }
            }
        }
        end = next;
    }
    end
}

/// The boundary after `a` is not behind a later boundary `b`.
pub proof fn lemma_boundary_between(s: Seq<char>, a: int, b: int)
    requires
        on_boundary(s, a),
        on_boundary(s, b),
        a < b,
    ensures
        next_boundary(s, a) <= b,
        a < byte_len(s),
{
    lemma_char_index_at(s, a);
    lemma_char_index_at(s, b);
    lemma_char_index_ordered(s, a, b);
    let ka = char_index(s, a);
    let kb = char_index(s, b);
    assert(ka < kb);
    if ka + 1 < kb {
        lemma_prefix_len_increases(s, ka + 1, kb);
    }
}

/// No line feed stands in a part of a stretch without line feeds.
proof fn lemma_no_newline_within(s: Seq<char>, a: int, b: int, c: int, d: int)
    requires
        on_boundary(s, a),
        on_boundary(s, b),
        on_boundary(s, c),
        on_boundary(s, d),
        a <= b <= c <= d,
        no_newline(s, char_index(s, a), char_index(s, d)),
    ensures
        no_newline(s, char_index(s, b), char_index(s, c)),
        b < d ==> s[char_index(s, b)] != '\n',
{
    lemma_char_index_ordered(s, a, b);
    lemma_char_index_ordered(s, b, c);
    lemma_char_index_ordered(s, c, d);
    lemma_char_index_at(s, b);
    lemma_char_index_at(s, d);
    if b < d {
        if char_index(s, b) == char_index(s, d) {
            assert(false);
        }
    }
}

/// Appends the rows of the logical line `line_idx`, which goes from
/// `line_start` to `line_end`.
fn wrap_line(
    rope: &ropey::Rope,
    out: &mut Vec<VisualLine>,
    line_idx: usize,
    line_start: usize,
    line_end: usize,
    width: usize,
)
    requires
        line_start <= line_end,
        on_boundary(rope_chars(*rope), line_start as int),
        on_boundary(rope_chars(*rope), line_end as int),
        no_newline(
            rope_chars(*rope),
            char_index(rope_chars(*rope), line_start as int),
            char_index(rope_chars(*rope), line_end as int),
        ),
        old(out)@.len() == 0 ==> line_start == 0 && line_idx == 0,
        old(out)@.len() > 0 ==> {
            &&& rows_chain(rope_chars(*rope), old(out)@, width as int)
            &&& old(out)@.last().end_byte + 1 == line_start
            &&& rope_chars(*rope)[char_index(
                rope_chars(*rope),
                old(out)@.last().end_byte as int,
            )] == '\n'
            &&& old(out)@.last().logical_line + 1 == line_idx
        },
    ensures
        rows_chain(rope_chars(*rope), final(out)@, width as int),
        final(out)@.last().end_byte == line_end,
        final(out)@.last().logical_line == line_idx,
{
    let ghost s = rope_chars(*rope);
    let mut seg_start: usize = line_start;
    let mut first: bool = true;
    let mut done: bool = false;
    proof {
        lemma_char_index_at(s, line_end as int);
    }
    while !done
        invariant
            s == rope_chars(*rope),
            line_start <= seg_start <= line_end,
            line_end <= byte_len(s),
            on_boundary(s, line_start as int),
            on_boundary(s, seg_start as int),
            on_boundary(s, line_end as int),
            no_newline(s, char_index(s, line_start as int), char_index(s, line_end as int)),
            !done && first ==> seg_start == line_start && out@ == old(out)@,
            old(out)@.len() == 0 ==> line_start == 0 && line_idx == 0,
            old(out)@.len() > 0 ==> {
                &&& rows_chain(s, old(out)@, width as int)
                &&& old(out)@.last().end_byte + 1 == line_start
                &&& s[char_index(s, old(out)@.last().end_byte as int)] == '\n'
                &&& old(out)@.last().logical_line + 1 == line_idx
            },
            !first ==> {
                &&& out@.len() > 0
                &&& rows_chain(s, out@, width as int)
                &&& out@.last().logical_line == line_idx
                &&& out@.last().start_byte < out@.last().end_byte
            },
            !done && !first ==> {
                &&& out@.last().end_byte == seg_start
                &&& seg_start < line_end
                &&& display_width(
                    slice(s, out@.last().start_byte as int, next_boundary(s, seg_start as int)),
                ) > width
            },
            done ==> {
                &&& out@.len() > 0
                &&& rows_chain(s, out@, width as int)
                &&& out@.last().end_byte == line_end
                &&& out@.last().logical_line == line_idx
            },
        decreases line_end - seg_start + if done { 0int } else { 1int },
    {
        let seg_end: usize = row_end(rope, seg_start, line_end, width);
        let row = VisualLine {
            start_byte: seg_start,
            end_byte: seg_end,
            is_continuation: !first,
            indent: 0,
            logical_line: line_idx,
        };
        proof {
            lemma_no_newline_within(
                s,
                line_start as int,
                seg_start as int,
                seg_end as int,
                line_end as int,
            );
            if out@.len() > 0 && first {
                lemma_char_index_at(s, out@.last().end_byte as int);
            }
            lemma_chain_push(s, out@, row, width as int);
        }
        out.push(row);
        if seg_end >= line_end {
            done = true;
        } else {
            seg_start = seg_end;
            first = false;
        }
    }
}

/// The rows in which the text of the rope is shown at the given width.
pub(crate) fn wrap_lines(rope: &ropey::Rope, width: usize) -> (rows: Vec<VisualLine>)
    ensures
        rows_ok(rope_chars(*rope), rows@, width as int),
{
    let ghost s = rope_chars(*rope);
    let total: usize = rope_len_lines(rope);
    let len: usize = rope_len_bytes(rope);
    let mut out: Vec<VisualLine> = Vec::new();
    let mut line_idx: usize = 0;
    let mut line_start: usize = 0;
    proof {
        lemma_prefix_len_ends(s);
        assert(s.take(0) == Seq::<char>::empty());
        assert(is_line_start(s, 0));
        assert(prefix_len(s, 0) == 0);
        assert(starts_line(s, 0, 0));
    }
    while line_idx < total
        invariant
            s == rope_chars(*rope),
            line_idx <= total,
            total == newline_count(s) + 1,
            len == byte_len(s),
            line_idx < total ==> starts_line(s, line_idx as int, line_start as int),
            line_idx == 0 ==> out@.len() == 0 && line_start == 0,
            line_idx > 0 ==> {
                &&& rows_chain(s, out@, width as int)
                &&& out@.last().logical_line + 1 == line_idx
            },
            0 < line_idx < total ==> {
                &&& out@.last().end_byte + 1 == line_start
                &&& s[char_index(s, out@.last().end_byte as int)] == '\n'
            },
            line_idx == total ==> out@.last().end_byte == len,
        decreases total - line_idx,
    {
        let ghost k = choose|k: int|
            is_line_start(s, k) && newline_count(s.take(k)) == line_idx && #[trigger] prefix_len(
                s,
                k,
            ) == line_start;
        proof {
            lemma_char_index(s, k);
            lemma_count_bound(s, k);
        }
        let mut line_end: usize = len;
        let mut next_start: usize = len;
        if line_idx < total - 1 {
            let next: usize = rope_line_to_byte(rope, line_idx + 1);
            proof {
                let k2 = choose|k2: int|
                    is_line_start(s, k2) && newline_count(s.take(k2)) == line_idx + 1
                        && #[trigger] prefix_len(s, k2) == next;
                lemma_line_end_found(s, k2, k);
                lemma_prefix_len_step(s, k2 - 1);
                lemma_char_index(s, k2 - 1);
                lemma_char_index(s, k2);
                if k < k2 - 1 {
                    lemma_prefix_len_increases(s, k, k2 - 1);
                }
            }
            line_end = next - 1;
            next_start = next;
        } else {
            proof {
                lemma_last_line(s, k);
                lemma_prefix_len_ends(s);
                lemma_char_index(s, s.len() as int);
                if k < s.len() {
                    lemma_prefix_len_increases(s, k, s.len() as int);
                }
            }
        }
        wrap_line(rope, &mut out, line_idx, line_start, line_end, width);
        line_start = next_start;
        line_idx = line_idx + 1;
    }
    out
}

/// Rows come in the order of the text: a row ends before a later row
/// starts, and ends where it starts only if that row is the next one and
/// goes on with the same line.
pub proof fn lemma_rows_ordered(s: Seq<char>, rows: Seq<VisualLine>, width: int, i: int, j: int)
    requires
        rows_chain(s, rows, width),
        0 <= i < j < rows.len(),
    ensures
        rows[i].end_byte <= rows[j].start_byte,
        rows[i].end_byte == rows[j].start_byte ==> j == i + 1 && rows[j].is_continuation,
    decreases j - i,
{
    let before = j - 1;
    assert(follows(s, rows[before], rows[before + 1], width));
    assert(row_ok(s, rows[before], width));
    if i + 1 < j {
        lemma_rows_ordered(s, rows, width, i, j - 1);
    }
}

/// At most one row holds a byte offset.
pub proof fn lemma_holds_unique(
    s: Seq<char>,
    rows: Seq<VisualLine>,
    width: int,
    i: int,
    j: int,
    pos: int,
)
    requires
        rows_chain(s, rows, width),
        holds(rows, i, pos),
        holds(rows, j, pos),
    ensures
        i == j,
{
    if i < j {
        lemma_rows_ordered(s, rows, width, i, j);
    }
    if j < i {
        lemma_rows_ordered(s, rows, width, j, i);
    }
}

/// The row that holds the byte offset `pos`.
pub open spec fn row_of(rows: Seq<VisualLine>, pos: int) -> int {
    choose|i: int| holds(rows, i, pos)
}

/// The column at which the byte offset `pos` is shown in its row.
pub open spec fn column_of(s: Seq<char>, rows: Seq<VisualLine>, pos: int) -> nat {
    display_width(slice(s, rows[row_of(rows, pos)].start_byte as int, pos))
}

/// The row that holds `pos` and the column at which `pos` is shown.
pub(crate) fn locate(
    rope: &ropey::Rope,
    rows: &Vec<VisualLine>,
    pos: usize,
    Ghost(width): Ghost<int>,
) -> (at: (usize, usize))
    requires
        rows_ok(rope_chars(*rope), rows@, width),
        on_boundary(rope_chars(*rope), pos as int),
    ensures
        holds(rows@, at.0 as int, pos as int),
        at.0 == row_of(rows@, pos as int),
        at.1 == column_of(rope_chars(*rope), rows@, pos as int),
{
    let ghost s = rope_chars(*rope);
    let n: usize = rows.len();
    let mut i: usize = 0;
    proof {
        lemma_char_index_at(s, pos as int);
    }
    while i + 1 < n && !(pos <= rows[i].end_byte && !(pos == rows[i].end_byte
        && rows[i + 1].is_continuation))
        invariant
            n == rows@.len(),
            i < n,
            rows_ok(s, rows@, width),
            rows@[i as int].start_byte <= pos <= byte_len(s),
        decreases n - i,
    {
        assert(follows(s, rows@[i as int], rows@[i + 1], width));
        i = i + 1;
    }
    assert(holds(rows@, i as int, pos as int));
    proof {
        lemma_holds_unique(s, rows@, width, i as int, row_of(rows@, pos as int), pos as int);
        assert(row_ok(s, rows@[i as int], width));
    }
    let text = rope_byte_slice(rope, rows[i].start_byte, pos);
    (i, str_width(text.as_str()))
}

/// The last byte offset that row `t` holds.
pub open spec fn row_limit(s: Seq<char>, rows: Seq<VisualLine>, t: int) -> int {
    if t + 1 < rows.len() && rows[t + 1].is_continuation {
        prev_boundary(s, rows[t].end_byte as int)
    } else {
        rows[t].end_byte as int
    }
}

/// `pos` is where the caret goes in row `t` for the column `col`: the
/// offset of the row up to which everything is shown within `col`
/// columns, while one more character is not.
pub open spec fn is_column_position(
    s: Seq<char>,
    rows: Seq<VisualLine>,
    t: int,
    col: int,
    pos: int,
) -> bool {
    &&& on_boundary(s, pos)
    &&& rows[t].start_byte <= pos <= row_limit(s, rows, t)
    &&& within(s, rows[t].start_byte as int, pos, col)
    &&& pos < row_limit(s, rows, t) ==> display_width(
        slice(s, rows[t].start_byte as int, next_boundary(s, pos)),
    ) > col
}

/// Where the caret goes in a row for a column is determined.
pub proof fn lemma_column_position_unique(
    s: Seq<char>,
    rows: Seq<VisualLine>,
    t: int,
    col: int,
    p: int,
    q: int,
)
    requires
        is_column_position(s, rows, t, col, p),
        is_column_position(s, rows, t, col, q),
    ensures
        p == q,
{
    let start = rows[t].start_byte as int;
    if p < q {
        lemma_boundary_between(s, p, q);
        lemma_neighbours(s, p);
        assert(display_width(slice(s, start, next_boundary(s, p))) <= col);
    }
    if q < p {
        lemma_boundary_between(s, q, p);
        lemma_neighbours(s, q);
        assert(display_width(slice(s, start, next_boundary(s, q))) <= col);
    }
}

/// Where the caret goes in row `t` for the column `col`.
pub(crate) fn column_position(
    rope: &ropey::Rope,
    rows: &Vec<VisualLine>,
    t: usize,
    col: usize,
    Ghost(width): Ghost<int>,
) -> (pos: usize)
    requires
        rows_ok(rope_chars(*rope), rows@, width),
        t < rows@.len(),
    ensures
        is_column_position(rope_chars(*rope), rows@, t as int, col as int, pos as int),
        holds(rows@, t as int, pos as int),
{
    let ghost s = rope_chars(*rope);
    let row = rows[t];
    proof {
        assert(row_ok(s, rows@[t as int], width));
        lemma_char_index_at(s, row.end_byte as int);
    }
    let mut limit: usize = row.end_byte;
    let n: usize = rows.len();
    if t + 1 < n && rows[t + 1].is_continuation {
        proof {
            assert(follows(s, rows@[t as int], rows@[t + 1], width));
            lemma_neighbours(s, row.end_byte as int);
            lemma_boundary_between(s, row.start_byte as int, row.end_byte as int);
            lemma_char_index_at(s, row.start_byte as int);
            lemma_char_index_ordered(s, row.start_byte as int, row.end_byte as int);
            lemma_char_index(s, char_index(s, row.end_byte as int) - 1);
            if char_index(s, row.start_byte as int) < char_index(s, row.end_byte as int) - 1 {
                lemma_prefix_len_increases(
                    s,
                    char_index(s, row.start_byte as int),
                    char_index(s, row.end_byte as int) - 1,
                );
            }
        }
        limit = prev_before(rope, row.end_byte);
    }
    let mut pos: usize = row.start_byte;
    while pos < limit
        invariant
            s == rope_chars(*rope),
            row.start_byte <= pos <= limit <= row.end_byte,
            row.end_byte <= byte_len(s),
            t < rows@.len(),
            row == rows@[t as int],
            limit == row_limit(s, rows@, t as int),
            t + 1 < rows@.len() && rows@[t + 1].is_continuation ==> limit < row.end_byte,
            on_boundary(s, row.start_byte as int),
            on_boundary(s, pos as int),
            on_boundary(s, limit as int),
            within(s, row.start_byte as int, pos as int, col as int),
        decreases limit - pos,
    {
        proof {
            lemma_neighbours(s, pos as int);
            lemma_boundary_between(s, pos as int, limit as int);
        }
        let next: usize = next_after(rope, pos);
        let text = rope_byte_slice(rope, row.start_byte, next);
        if str_width(text.as_str()) > col {
            return pos;
        }
        proof {
            assert forall|p: int|
                row.start_byte < p <= next && on_boundary(s, p) implies display_width(
                #[trigger] slice(s, row.start_byte as int, p)) <= col by {
                if p > pos {
                    lemma_boundary_between(s, pos as int, p);
                }
            }
        }
        pos = next;
    }
    pos
}

/// Row `i` of rows that show the whole text ends where its line ends or
/// where one more character would not fit: it does not end before row
/// `j` of other such rows that starts at the same offset.
proof fn lemma_row_end_least(
    s: Seq<char>,
    a: Seq<VisualLine>,
    b: Seq<VisualLine>,
    width: int,
    i: int,
)
    requires
        rows_ok(s, a, width),
        rows_ok(s, b, width),
        0 <= i < a.len(),
        i < b.len(),
        a[i].start_byte == b[i].start_byte,
    ensures
        a[i].end_byte >= b[i].end_byte,
{
    let start = a[i].start_byte as int;
    let e1 = a[i].end_byte as int;
    let e2 = b[i].end_byte as int;
    assert(row_ok(s, a[i], width));
    assert(row_ok(s, b[i], width));
    lemma_char_index_at(s, start);
    lemma_char_index_at(s, e1);
    lemma_char_index_at(s, e2);
    if e1 < e2 {
        lemma_char_index_ordered(s, e1, e2);
        lemma_char_index_ordered(s, start, e1);
        if char_index(s, e1) == char_index(s, e2) {
            assert(false);
        }
        if i + 1 < a.len() {
            assert(follows(s, a[i], a[i + 1], width));
            if a[i + 1].is_continuation {
                let p = next_boundary(s, e1);
                lemma_neighbours(s, e1);
                lemma_boundary_between(s, e1, e2);
                lemma_boundary_between(s, start, e1);
                if char_index(s, start) == char_index(s, e1) {
                    assert(false);
                }
                assert(display_width(slice(s, start, p)) <= width);
            } else {
                assert(s[char_index(s, e1)] == '\n');
            }
        } else {
            assert(a.last() == a[i]);
        }
    }
}

/// The rows that show a text at a width are determined: two lists of
/// rows that both show the whole text agree row by row.
pub proof fn lemma_rows_agree(
    s: Seq<char>,
    a: Seq<VisualLine>,
    b: Seq<VisualLine>,
    width: int,
    i: int,
)
    requires
        rows_ok(s, a, width),
        rows_ok(s, b, width),
        0 <= i < a.len(),
    ensures
        i < b.len(),
        a[i] == b[i],
    decreases i,
{
    if i > 0 {
        lemma_rows_agree(s, a, b, width, i - 1);
        let before = i - 1;
        assert(follows(s, a[before], a[before + 1], width));
        assert(row_ok(s, b[before], width));
        if i >= b.len() {
            assert(b.last() == b[before]);
            assert(false);
        }
        assert(follows(s, b[before], b[before + 1], width));
    }
    assert(row_ok(s, a[i], width));
    assert(row_ok(s, b[i], width));
    lemma_row_end_least(s, a, b, width, i);
    lemma_row_end_least(s, b, a, width, i);
}

/// The rows that show a text at a width are determined.
pub proof fn lemma_rows_unique(s: Seq<char>, a: Seq<VisualLine>, b: Seq<VisualLine>, width: int)
    requires
        rows_ok(s, a, width),
        rows_ok(s, b, width),
    ensures
        a == b,
{
    lemma_rows_agree(s, a, b, width, a.len() - 1);
    lemma_rows_agree(s, b, a, width, b.len() - 1);
    assert forall|i: int| 0 <= i < a.len() implies #[trigger] a[i] == b[i] by {
        lemma_rows_agree(s, a, b, width, i);
    }
    assert(a =~= b);
}

/// The number of rows of context that can be kept on both sides of the
/// caret in a viewport of `height` rows.
pub open spec fn margin_for(scrolloff: int, height: int) -> int {
    if height <= 0 {
        0
    } else if scrolloff <= (height - 1) / 2 {
        scrolloff
    } else {
        (height - 1) / 2
    }
}

/// The top row of a viewport of `height` rows that shows `row` of
/// `total` rows with the given margin, moved as little as possible from `top`.
pub open spec fn scrolled_top(top: int, row: int, height: int, margin: int, total: int) -> int {
    let up = if row < top + margin {
        if row < margin {
            0
        } else {
            row - margin
        }
    } else if row + margin >= top + height {
        row + margin + 1 - height
    } else {
        top
    };
    let last = if total > height {
        total - height
    } else {
        0
    };
    if up > last && last + height > row {
        last
    } else {
        up
    }
}

/// The viewport that `scrolled_top` gives shows the row, with the margin
/// above it unless the viewport starts with the first row, and with the
/// margin below it unless the viewport ends with the last row. A
/// viewport that does so already stays where it is.
pub proof fn lemma_scrolled_top(top: int, row: int, height: int, margin: int, total: int)
    requires
        0 <= top,
        0 <= row < total,
        0 < height,
        0 <= margin <= (height - 1) / 2,
    ensures
        ({
            let t = scrolled_top(top, row, height, margin, total);
            &&& 0 <= t <= row < t + height
            &&& t == 0 || t + margin <= row
            &&& t + height >= total || row + margin < t + height
            &&& (top <= row < top + height && (top == 0 || top + margin <= row) && (top + height
                >= total || row + margin < top + height) && top + height <= total) ==> t == top
        }),
{
}

/// The top row for a viewport of `height` rows that is to show `row`.
pub fn scroll_top(top: usize, row: usize, height: usize, scrolloff: usize, total: usize) -> (t:
    usize)
    requires
        row < total,
    ensures
        t == scrolled_top(
            top as int,
            row as int,
            height as int,
            margin_for(scrolloff as int, height as int),
            total as int,
        ),
{
    let margin: usize = if height == 0 {
        0
    } else if scrolloff <= (height - 1) / 2 {
        scrolloff
    } else {
        (height - 1) / 2
    };
    let up: usize = if row < margin || row - margin < top {
        if row < margin {
            0
        } else {
            row - margin
        }
    } else if row >= height - margin && row - (height - margin) >= top {
        row - (height - margin) + 1
    } else {
        top
    };
    let last: usize = if total > height {
        total - height
    } else {
        0
    };
    if up > last && total > row && last + height > row {
        last
    } else {
        up
    }
}

} // verus!
