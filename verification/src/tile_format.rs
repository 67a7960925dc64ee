//! The byte layout of the tile file: a header, the tiles one after the
//! other, a table of tile offsets and a table of tile row counts. All
//! integers are little-endian.

use vstd::prelude::*;
use vstd::bytes::{
    lemma_auto_spec_u32_to_from_le_bytes, lemma_auto_spec_u64_to_from_le_bytes,
    spec_u32_to_le_bytes, spec_u64_to_le_bytes,
};
use vstd::utf8::encode_utf8;
use crate::bytes::{put_u32, put_u64};
use crate::text::byte_len;

verus! {

/// The rows of a tile as plain values: each row is a list of cell texts.
pub type Rows = Seq<Seq<Seq<char>>>;

/// The text written in place of a database NULL.
pub const NULL_SENTINEL: &'static str = "<Frost-NULL>";

/// Number of rows in every tile but the last.
pub const TILE_SIZE: usize = 1000;

/// Number of bytes in the file header.
pub const HEADER_LEN: usize = 20;

/// The four bytes that open the file: the letters S, N, T, R.
pub open spec fn magic() -> Seq<u8> {
    seq![0x53u8, 0x4eu8, 0x54u8, 0x52u8]
}

/// The four bytes of `x`.
pub open spec fn u32_image(x: int) -> Seq<u8> {
    spec_u32_to_le_bytes(x as u32)
}

/// The bytes of a cell: the length of its text in bytes, then the text in UTF-8.
pub open spec fn cell_image(cell: Seq<char>) -> Seq<u8> {
    u32_image(byte_len(cell) as int) + encode_utf8(cell)
}

/// The bytes of a row: its cells one after the other.
pub open spec fn row_image(row: Seq<Seq<char>>) -> Seq<u8>
    decreases row.len(),
{
    if row.len() == 0 {
        Seq::empty()
    } else {
        row_image(row.drop_last()) + cell_image(row.last())
    }
}

/// The bytes of a list of rows: the rows one after the other.
pub open spec fn rows_image(rows: Rows) -> Seq<u8>
    decreases rows.len(),
{
    if rows.len() == 0 {
        Seq::empty()
    } else {
        rows_image(rows.drop_last()) + row_image(rows.last())
    }
}

/// The number of columns that a tile declares: that of its first row.
pub open spec fn tile_cols(rows: Rows) -> int {
    if rows.len() == 0 {
        0
    } else {
        rows[0].len() as int
    }
}

/// The bytes of a tile: its row count, its column count, then its rows.
pub open spec fn tile_image(rows: Rows) -> Seq<u8> {
    u32_image(rows.len() as int) + u32_image(tile_cols(rows)) + rows_image(rows)
}

/// The bytes of the header.
pub open spec fn header_image(ncols: int, nrows: int, tile_count: int) -> Seq<u8> {
    magic() + u32_image(TILE_SIZE as int) + u32_image(ncols) + u32_image(nrows) + u32_image(
        tile_count,
    )
}

/// The bytes of the offset table.
pub open spec fn offsets_image(offsets: Seq<u64>) -> Seq<u8>
    decreases offsets.len(),
{
    if offsets.len() == 0 {
        Seq::empty()
    } else {
        offsets_image(offsets.drop_last()) + spec_u64_to_le_bytes(offsets.last())
    }
}

/// The bytes of the row-count table.
pub open spec fn counts_image(counts: Seq<u32>) -> Seq<u8>
    decreases counts.len(),
{
    if counts.len() == 0 {
        Seq::empty()
    } else {
        counts_image(counts.drop_last()) + spec_u32_to_le_bytes(counts.last())
    }
}

/// Every count that the tile writes fits in 32 bits.
pub open spec fn tile_fits(rows: Rows) -> bool {
    &&& rows.len() <= u32::MAX
    &&& tile_cols(rows) <= u32::MAX
    &&& forall|i: int, j: int|
        0 <= i < rows.len() && 0 <= j < rows[i].len() ==> byte_len(#[trigger] rows[i][j])
            <= u32::MAX
}

/// The image of the first `i + 1` rows is that of the first `i` with row `i` behind it.
pub proof fn lemma_rows_image_step(rows: Rows, i: int)
    requires
        0 <= i < rows.len(),
    ensures
        rows_image(rows.take(i + 1)) == rows_image(rows.take(i)) + row_image(rows[i]),
{
    assert(rows.take(i + 1).drop_last() == rows.take(i));
    assert(rows.take(i + 1).last() == rows[i]);
}

/// The image of the first `j + 1` cells is that of the first `j` with cell `j` behind it.
pub proof fn lemma_row_image_step(row: Seq<Seq<char>>, j: int)
    requires
        0 <= j < row.len(),
    ensures
        row_image(row.take(j + 1)) == row_image(row.take(j)) + cell_image(row[j]),
{
    assert(row.take(j + 1).drop_last() == row.take(j));
    assert(row.take(j + 1).last() == row[j]);
}

/// The bytes of the tile that holds `rows`, or `None` if a count or a cell
/// length of the tile does not fit in 32 bits.
pub fn encode_tile(rows: &Vec<Vec<String>>) -> (r: Option<Vec<u8>>)
    ensures
        match r {
            Some(b) => tile_fits(rows.deep_view()) && b@ == tile_image(rows.deep_view()),
            None => !tile_fits(rows.deep_view()),
        },
{
    let ghost dv = rows.deep_view();
    let n: usize = rows.len();
    if n > u32::MAX as usize {
        return None;
    }
    let cols: usize = if n == 0 {
        0
    } else {
        rows[0].len()
    };
    assert(cols == tile_cols(dv)) by {
        if n > 0 {
            assert(dv[0] == rows[0].deep_view());
        }
    }
    if cols > u32::MAX as usize {
        return None;
    }
    let mut buf: Vec<u8> = Vec::new();
    put_u32(&mut buf, n as u32);
    put_u32(&mut buf, cols as u32);
    let ghost head = u32_image(n as int) + u32_image(cols as int);
    assert(buf@ == head);
    assert(dv.take(0) == Seq::<Seq<Seq<char>>>::empty());
    assert(buf@ == head + rows_image(dv.take(0)));
    let mut i: usize = 0;
    while i < n
        invariant
            i <= n,
            n == rows.len(),
            dv == rows.deep_view(),
            buf@ == head + rows_image(dv.take(i as int)),
            forall|a: int, b: int|
                0 <= a < i && 0 <= b < dv[a].len() ==> byte_len(#[trigger] dv[a][b]) <= u32::MAX,
        decreases n - i,
    {
        let row = &rows[i];
        let m: usize = row.len();
        let ghost rv = dv[i as int];
        assert(rv == row.deep_view());
        assert(rv.take(0) == Seq::<Seq<char>>::empty());
        assert(buf@ == head + rows_image(dv.take(i as int)) + row_image(rv.take(0)));
        let mut j: usize = 0;
        while j < m
            invariant
                j <= m,
                i < n,
                m == row.len(),
                rv == row.deep_view(),
                dv == rows.deep_view(),
                rv == dv[i as int],
                rv.len() == m,
                dv.len() == n,
                buf@ == head + rows_image(dv.take(i as int)) + row_image(rv.take(j as int)),
                forall|b: int| 0 <= b < j ==> byte_len(#[trigger] rv[b]) <= u32::MAX,
            decreases m - j,
        {
            let cell: &str = row[j].as_str();
            assert(cell@ == rv[j as int]);
            let bytes: &[u8] = cell.as_bytes();
            let len: usize = bytes.len();
            if len > u32::MAX as usize {
                assert(byte_len(dv[i as int][j as int]) > u32::MAX);
                return None;
            }
            put_u32(&mut buf, len as u32);
            buf.extend_from_slice(bytes);
            proof {
                lemma_row_image_step(rv, j as int);
                assert(buf@ == head + rows_image(dv.take(i as int)) + (row_image(rv.take(j as int))
                    + cell_image(rv[j as int])));
            }
            j = j + 1;
        }
        proof {
            assert(rv.take(m as int) == rv);
            lemma_rows_image_step(dv, i as int);
            assert(buf@ == head + (rows_image(dv.take(i as int)) + row_image(rv)));
        }
        i = i + 1;
    }
    assert(dv.take(n as int) == dv);
    Some(buf)
}

/// Where cell `c` of row `r` starts within the image of its tile.
pub open spec fn cell_offset(rows: Rows, r: int, c: int) -> int {
    (8 + rows_image(rows.take(r)).len() + row_image(rows[r].take(c)).len()) as int
}

/// The image of the first `i` rows opens the image of all rows.
pub proof fn lemma_rows_prefix(rows: Rows, i: int)
    requires
        0 <= i <= rows.len(),
    ensures
        rows_image(rows.take(i)).len() <= rows_image(rows).len(),
        rows_image(rows).take(rows_image(rows.take(i)).len() as int) == rows_image(rows.take(i)),
    decreases rows.len() - i,
{
    if i == rows.len() {
        assert(rows.take(i) == rows);
    } else {
        lemma_rows_prefix(rows, i + 1);
        lemma_rows_image_step(rows, i);
        let a = rows_image(rows.take(i));
        let b = rows_image(rows.take(i + 1));
        assert(b.take(a.len() as int) == a);
        assert(rows_image(rows).take(b.len() as int).take(a.len() as int) == rows_image(rows).take(
            a.len() as int,
        ));
    }
}

/// The image of the first `j` cells opens the image of the row.
pub proof fn lemma_row_prefix(row: Seq<Seq<char>>, j: int)
    requires
        0 <= j <= row.len(),
    ensures
        row_image(row.take(j)).len() <= row_image(row).len(),
        row_image(row).take(row_image(row.take(j)).len() as int) == row_image(row.take(j)),
    decreases row.len() - j,
{
    if j == row.len() {
        assert(row.take(j) == row);
    } else {
        lemma_row_prefix(row, j + 1);
        lemma_row_image_step(row, j);
        let a = row_image(row.take(j));
        let b = row_image(row.take(j + 1));
        assert(b.take(a.len() as int) == a);
        assert(row_image(row).take(b.len() as int).take(a.len() as int) == row_image(row).take(
            a.len() as int,
        ));
    }
}

/// The image of cell `c` of row `r` stands at its offset in the image of the tile.
pub proof fn lemma_cell_in_tile(rows: Rows, r: int, c: int)
    requires
        0 <= r < rows.len(),
        0 <= c < rows[r].len(),
    ensures
        cell_offset(rows, r, c) + cell_image(rows[r][c]).len() <= tile_image(rows).len(),
        tile_image(rows).subrange(
            cell_offset(rows, r, c),
            cell_offset(rows, r, c) + cell_image(rows[r][c]).len(),
        ) == cell_image(rows[r][c]),
        cell_offset(rows, r, c + 1) == cell_offset(rows, r, c) + cell_image(rows[r][c]).len(),
{
    lemma_auto_spec_u32_to_from_le_bytes();
    let row = rows[r];
    let cell = cell_image(row[c]);
    let before_rows = rows_image(rows.take(r));
    let before_cells = row_image(row.take(c));
    lemma_rows_prefix(rows, r + 1);
    lemma_rows_image_step(rows, r);
    lemma_row_prefix(row, c + 1);
    lemma_row_image_step(row, c);
    let all = rows_image(rows);
    let upto_row = rows_image(rows.take(r + 1));
    let upto_cell = row_image(row.take(c + 1));
    assert(upto_row == before_rows + row_image(row));
    assert(upto_cell == before_cells + cell);
    let lo: int = (before_rows.len() + before_cells.len()) as int;
    let bc: int = before_cells.len() as int;
    let cl: int = cell.len() as int;
    assert(row_image(row).subrange(bc, bc + cl) == cell) by {
        assert(row_image(row).take(upto_cell.len() as int).subrange(bc, bc + cl) == cell);
    }
    assert(upto_row.subrange(lo, lo + cl) == cell);
    assert(all.subrange(lo, lo + cl) == cell) by {
        assert(all.take(upto_row.len() as int).subrange(lo, lo + cl) == cell);
    }
    let head = u32_image(rows.len() as int) + u32_image(tile_cols(rows));
    assert(head.len() == 8);
    assert(tile_image(rows) == head + all);
    assert(tile_image(rows).subrange(8 + lo, 8 + lo + cl) == all.subrange(lo, lo + cl));
}

/// The end of row `r` is the start of row `r + 1`.
pub proof fn lemma_row_end(rows: Rows, r: int)
    requires
        0 <= r < rows.len(),
    ensures
        cell_offset(rows, r, rows[r].len() as int) == 8 + rows_image(rows.take(r + 1)).len(),
        r + 1 < rows.len() ==> cell_offset(rows, r, rows[r].len() as int) == cell_offset(
            rows,
            r + 1,
            0,
        ),
{
    lemma_rows_image_step(rows, r);
    assert(rows[r].take(rows[r].len() as int) == rows[r]);
    if r + 1 < rows.len() {
        assert(rows[r + 1].take(0) == Seq::<Seq<char>>::empty());
    }
}

/// `TILE_SIZE` as a mathematical integer.
pub open spec fn tile_len() -> int {
    TILE_SIZE as int
}

/// The rows of tile `i` among `rows`.
pub open spec fn tile_rows(rows: Rows, i: int) -> Rows {
    rows.subrange(
        i * tile_len(),
        if rows.len() < (i + 1) * tile_len() {
            rows.len() as int
        } else {
            (i + 1) * tile_len()
        },
    )
}

/// The number of tiles that `n` rows take.
pub open spec fn tile_count_for(n: int) -> int {
    (n + tile_len() - 1) / tile_len()
}

/// Tile `i` of `n` rows holds `TILE_SIZE` rows unless it is the last, and
/// a row belongs to the tile that its index divided by `TILE_SIZE` gives.
pub proof fn lemma_tile_rows(rows: Rows, i: int)
    requires
        0 <= i < tile_count_for(rows.len() as int),
    ensures
        i * tile_len() < rows.len(),
        1 <= tile_rows(rows, i).len() <= TILE_SIZE,
        i < tile_count_for(rows.len() as int) - 1 ==> tile_rows(rows, i).len() == TILE_SIZE,
        i == tile_count_for(rows.len() as int) - 1 ==> tile_rows(rows, i).len() == rows.len() - i
            * tile_len(),
        forall|x: int|
            0 <= x < tile_rows(rows, i).len() ==> #[trigger] tile_rows(rows, i)[x] == rows[i
                * tile_len() + x],
{
    assert(tile_len() == 1000);
    let n = rows.len() as int;
    assert(tile_count_for(n) == (n + 999) / 1000);
    assert(i * 1000 < n);
}

/// The images of the first `t` tiles of `rows`, one after the other.
pub open spec fn tiles_image(rows: Rows, t: int) -> Seq<u8>
    decreases t,
{
    if t <= 0 {
        Seq::empty()
    } else {
        tiles_image(rows, t - 1) + tile_image(tile_rows(rows, t - 1))
    }
}

/// Where tile `i` of `rows` starts in the file.
pub open spec fn tile_offset(rows: Rows, i: int) -> int {
    HEADER_LEN as int + tiles_image(rows, i).len()
}

/// The offsets of the tiles of `rows`.
pub open spec fn offsets_for(rows: Rows) -> Seq<u64> {
    Seq::new(tile_count_for(rows.len() as int) as nat, |i: int| tile_offset(rows, i) as u64)
}

/// The row counts of the tiles of `rows`.
pub open spec fn counts_for(rows: Rows) -> Seq<u32> {
    Seq::new(tile_count_for(rows.len() as int) as nat, |i: int| tile_rows(rows, i).len() as u32)
}

/// The bytes handed out while the rows are written: the header with
/// zeros for the counts that are not known yet, then every full tile.
pub open spec fn stream_image(ncols: int, rows: Rows) -> Seq<u8> {
    header_image(ncols, 0, 0) + tiles_image(rows, rows.len() as int / tile_len())
}

/// The bytes of the finished file for `rows` with `ncols` columns.
pub open spec fn file_image(ncols: int, rows: Rows) -> Seq<u8> {
    header_image(ncols, rows.len() as int, tile_count_for(rows.len() as int)) + tiles_image(
        rows,
        tile_count_for(rows.len() as int),
    ) + offsets_image(offsets_for(rows)) + counts_image(counts_for(rows))
}

/// The header takes twenty bytes.
pub proof fn lemma_header_len(ncols: int, nrows: int, tile_count: int)
    ensures
        header_image(ncols, nrows, tile_count).len() == HEADER_LEN,
{
    lemma_auto_spec_u32_to_from_le_bytes();
}

/// Rows behind the first `t` tiles do not change their images.
pub proof fn lemma_tiles_image_stable(rows: Rows, more: Rows, t: int)
    requires
        0 <= t,
        t * tile_len() <= rows.len(),
    ensures
        tiles_image(rows + more, t) == tiles_image(rows, t),
    decreases t,
{
    if t > 0 {
        assert(tile_len() == 1000);
        assert((t - 1) * tile_len() <= t * tile_len()) by (nonlinear_arith)
            requires
                tile_len() == 1000,
        ;
        lemma_tiles_image_stable(rows, more, t - 1);
        assert(tile_rows(rows + more, t - 1) == tile_rows(rows, t - 1));
    }
}

/// The images of the first `i` tiles open the images of the first `t`,
/// and the image of tile `i` follows them.
pub proof fn lemma_tiles_prefix(rows: Rows, i: int, t: int)
    requires
        0 <= i <= t,
    ensures
        tiles_image(rows, i).len() <= tiles_image(rows, t).len(),
        tiles_image(rows, t).take(tiles_image(rows, i).len() as int) == tiles_image(rows, i),
        i < t ==> tiles_image(rows, i + 1).len() <= tiles_image(rows, t).len() && tiles_image(
            rows,
            t,
        ).subrange(tiles_image(rows, i).len() as int, tiles_image(rows, i + 1).len() as int)
            == tile_image(tile_rows(rows, i)),
    decreases t - i,
{
    if i < t {
        lemma_tiles_prefix(rows, i + 1, t);
        let a = tiles_image(rows, i);
        let b = tiles_image(rows, i + 1);
        let img = tile_image(tile_rows(rows, i));
        let all = tiles_image(rows, t);
        let la = a.len() as int;
        let lb = b.len() as int;
        assert(b == a + img);
        assert(b.take(la) == a);
        assert(all.take(lb).take(la) == all.take(la));
        assert(b.subrange(la, lb) == img);
        assert(all.take(lb).subrange(la, lb) == all.subrange(la, lb));
    } else {
        assert(tiles_image(rows, t).take(tiles_image(rows, t).len() as int) == tiles_image(
            rows,
            t,
        ));
    }
}

/// Every cell of the row fits the length field of the format.
pub open spec fn row_fits(row: Seq<Seq<char>>) -> bool {
    forall|j: int| 0 <= j < row.len() ==> byte_len(#[trigger] row[j]) <= u32::MAX
}

/// A row added behind the full tiles leaves their images and offsets as they were.
pub proof fn lemma_push_keeps_tiles(rows: Rows, row: Seq<Seq<char>>, t: int)
    requires
        0 <= t,
        t * tile_len() <= rows.len(),
    ensures
        tiles_image(rows.push(row), t) == tiles_image(rows, t),
        tile_offset(rows.push(row), t) == tile_offset(rows, t),
{
    assert(rows.push(row) == rows + seq![row]);
    lemma_tiles_image_stable(rows, seq![row], t);
}

/// A row that does not complete a tile adds nothing to the stream.
pub proof fn lemma_stream_push_partial(ncols: int, rows: Rows, row: Seq<Seq<char>>)
    requires
        (rows.len() as int + 1) % tile_len() != 0,
    ensures
        stream_image(ncols, rows.push(row)) == stream_image(ncols, rows),
{
    assert(tile_len() == 1000);
    let t = rows.len() as int / 1000;
    assert((rows.len() + 1) / 1000 == t);
    assert(t * tile_len() <= rows.len()) by (nonlinear_arith)
        requires
            tile_len() == 1000,
            t == rows.len() as int / 1000,
    ;
    lemma_push_keeps_tiles(rows, row, t);
}

/// A row that completes a tile adds the image of that tile to the stream.
pub proof fn lemma_stream_push_full(ncols: int, rows: Rows, row: Seq<Seq<char>>)
    requires
        (rows.len() as int + 1) % tile_len() == 0,
    ensures
        stream_image(ncols, rows.push(row)) == stream_image(ncols, rows) + tile_image(
            tile_rows(rows.push(row), rows.len() as int / tile_len()),
        ),
        tile_rows(rows.push(row), rows.len() as int / tile_len()) == rows.push(row).subrange(
            rows.len() as int + 1 - tile_len(),
            rows.len() as int + 1,
        ),
{
    assert(tile_len() == 1000);
    let t = rows.len() as int / 1000;
    assert((rows.len() + 1) / 1000 == t + 1);
    assert(t * tile_len() <= rows.len() && t * tile_len() == rows.len() + 1 - 1000 && (t + 1)
        * tile_len() == rows.len() + 1) by (nonlinear_arith)
        requires
            tile_len() == 1000,
            t == rows.len() as int / 1000,
            (rows.len() + 1) % 1000 == 0,
    ;
    lemma_push_keeps_tiles(rows, row, t);
    let next = rows.push(row);
    assert(tiles_image(next, t + 1) == tiles_image(next, t) + tile_image(tile_rows(next, t)));
    assert(stream_image(ncols, next) == header_image(ncols, 0, 0) + (tiles_image(rows, t)
        + tile_image(tile_rows(next, t))));
}

/// In the finished file, the image of each tile stands at its offset.
pub proof fn lemma_tile_in_file_image(ncols: int, rows: Rows, i: int)
    requires
        0 <= i < tile_count_for(rows.len() as int),
    ensures
        tile_offset(rows, i) + tile_image(tile_rows(rows, i)).len() <= file_image(
            ncols,
            rows,
        ).len(),
        file_image(ncols, rows).subrange(
            tile_offset(rows, i),
            tile_offset(rows, i) + tile_image(tile_rows(rows, i)).len(),
        ) == tile_image(tile_rows(rows, i)),
{
    let t = tile_count_for(rows.len() as int);
    let head = header_image(ncols, rows.len() as int, t);
    let body = tiles_image(rows, t);
    let tables = offsets_image(offsets_for(rows)) + counts_image(counts_for(rows));
    lemma_header_len(ncols, rows.len() as int, t);
    lemma_tiles_prefix(rows, i, t);
    let a = tiles_image(rows, i).len() as int;
    let b = tiles_image(rows, i + 1).len() as int;
    assert(tiles_image(rows, i + 1) == tiles_image(rows, i) + tile_image(tile_rows(rows, i)));
    assert(file_image(ncols, rows) == head + body + tables);
    assert((head + body + tables).subrange(20 + a, 20 + b) == body.subrange(a, b));
}

/// The offset table takes eight bytes for each tile.
pub proof fn lemma_offsets_image_len(offsets: Seq<u64>)
    ensures
        offsets_image(offsets).len() == 8 * offsets.len(),
    decreases offsets.len(),
{
    lemma_auto_spec_u64_to_from_le_bytes();
    if offsets.len() > 0 {
        lemma_offsets_image_len(offsets.drop_last());
    }
}

/// The row-count table takes four bytes for each tile.
pub proof fn lemma_counts_image_len(counts: Seq<u32>)
    ensures
        counts_image(counts).len() == 4 * counts.len(),
    decreases counts.len(),
{
    lemma_auto_spec_u32_to_from_le_bytes();
    if counts.len() > 0 {
        lemma_counts_image_len(counts.drop_last());
    }
}

/// Appends the offset table to `buf`.
pub fn encode_offsets(buf: &mut Vec<u8>, offsets: &Vec<u64>)
    ensures
        final(buf)@ == old(buf)@ + offsets_image(offsets@),
{
    let n: usize = offsets.len();
    let mut i: usize = 0;
    assert(offsets@.take(0) == Seq::<u64>::empty());
    assert(buf@ == old(buf)@ + offsets_image(offsets@.take(0)));
    while i < n
        invariant
            i <= n,
            n == offsets.len(),
            buf@ == old(buf)@ + offsets_image(offsets@.take(i as int)),
        decreases n - i,
    {
        put_u64(buf, offsets[i]);
        proof {
            assert(offsets@.take(i + 1).drop_last() == offsets@.take(i as int));
            assert(offsets@.take(i + 1).last() == offsets[i as int]);
            assert(buf@ == old(buf)@ + (offsets_image(offsets@.take(i as int))
                + spec_u64_to_le_bytes(offsets[i as int])));
        }
        i = i + 1;
    }
    assert(offsets@.take(n as int) == offsets@);
}

/// Appends the row-count table to `buf`.
pub fn encode_counts(buf: &mut Vec<u8>, counts: &Vec<u32>)
    ensures
        final(buf)@ == old(buf)@ + counts_image(counts@),
{
    let n: usize = counts.len();
    let mut i: usize = 0;
    assert(counts@.take(0) == Seq::<u32>::empty());
    assert(buf@ == old(buf)@ + counts_image(counts@.take(0)));
    while i < n
        invariant
            i <= n,
            n == counts.len(),
            buf@ == old(buf)@ + counts_image(counts@.take(i as int)),
        decreases n - i,
    {
        put_u32(buf, counts[i]);
        proof {
            assert(counts@.take(i + 1).drop_last() == counts@.take(i as int));
            assert(counts@.take(i + 1).last() == counts[i as int]);
            assert(buf@ == old(buf)@ + (counts_image(counts@.take(i as int))
                + spec_u32_to_le_bytes(counts[i as int])));
        }
        i = i + 1;
    }
    assert(counts@.take(n as int) == counts@);
}

} // verus!
