//! Writing the tile file: the writer takes the rows one by one and hands
//! out the bytes of the file piece by piece, for its user to append.

use vstd::prelude::*;
use std::sync::Arc;
use crate::text::byte_len;
use crate::tile_cache::share;
use crate::tile_format::{
    counts_for, encode_counts, encode_offsets, encode_tile, file_image, header_image,
    lemma_counts_image_len, lemma_header_len, lemma_offsets_image_len, lemma_push_keeps_tiles,
    lemma_stream_push_full, lemma_stream_push_partial, lemma_tile_in_file_image, lemma_tile_rows,
    magic, offsets_for, row_fits, stream_image, tile_count_for, tile_fits, tile_image, tile_len,
    tile_offset, tile_rows, tiles_image, Rows, HEADER_LEN, TILE_SIZE,
};
use crate::bytes::put_u32;
use crate::tile_store::{clone_row, tile_at, uniform, StoreError, StoreState, TileRowStore};

verus! {

/// What a writer has taken so far.
pub struct WriterView {
    /// Number of columns.
    pub ncols: int,
    /// The rows that were pushed, in order.
    pub rows: Rows,
}

impl WriterView {
    /// The bytes that the writer has handed out.
    pub open spec fn stream(self) -> Seq<u8> {
        stream_image(self.ncols, self.rows)
    }

    /// Why the writer does not take `row`, if it does not: the row has
    /// the wrong number of cells, or a cell, the number of rows or the
    /// size of the file does not fit its field.
    pub open spec fn refusal(self, row: Seq<Seq<char>>) -> Option<StoreError> {
        if row.len() != self.ncols {
            Some(StoreError::RowWidth)
        } else if !row_fits(row) || self.rows.len() >= u32::MAX || stream_image(
            self.ncols,
            self.rows.push(row),
        ).len() > u64::MAX {
            Some(StoreError::TooLarge)
        } else {
            None
        }
    }
}

/// Rows that fit, with the index that the format gives them, make a
/// well-formed store.
pub proof fn lemma_file_image_well_formed(ncols: int, rows: Rows)
    requires
        0 <= ncols <= u32::MAX,
        rows.len() <= u32::MAX,
        uniform(rows, ncols),
        forall|i: int| 0 <= i < rows.len() ==> row_fits(#[trigger] rows[i]),
        file_image(ncols, rows).len() <= u64::MAX,
    ensures
        (StoreState {
            ncols,
            nrows: rows.len() as int,
            offsets: offsets_for(rows),
            counts: counts_for(rows),
            rows,
            file: file_image(ncols, rows),
        }).well_formed(),
{
    let v = StoreState {
        ncols,
        nrows: rows.len() as int,
        offsets: offsets_for(rows),
        counts: counts_for(rows),
        rows,
        file: file_image(ncols, rows),
    };
    assert(tile_len() == 1000);
    assert forall|i: int| 0 <= i < v.offsets.len() implies {
        &&& (#[trigger] v.counts[i]) == tile_rows(v.rows, i).len()
        &&& tile_at(v.file, v.offsets[i] as int, tile_rows(v.rows, i))
        &&& tile_fits(tile_rows(v.rows, i))
    } by {
        lemma_tile_rows(rows, i);
        lemma_tile_in_file_image(ncols, rows, i);
        assert(i * tile_len() == i * 1000) by (nonlinear_arith)
            requires
                tile_len() == 1000,
        ;
        assert(tile_offset(rows, i) + tile_image(tile_rows(rows, i)).len() <= u64::MAX);
        assert(v.offsets[i] == tile_offset(rows, i));
        assert forall|a: int, b: int|
            0 <= a < tile_rows(rows, i).len() && 0 <= b < tile_rows(
                rows,
                i,
            )[a].len() implies byte_len(#[trigger] tile_rows(rows, i)[a][b]) <= u32::MAX by {
            assert(row_fits(rows[i * tile_len() + a]));
        }
        assert(tile_rows(rows, i)[0] == rows[i * tile_len()]);
    }
}

/// A tile of rows that fit fits.
proof fn lemma_partial_tile_fits(ncols: int, rows: Rows, i: int)
    requires
        0 <= ncols <= u32::MAX,
        uniform(rows, ncols),
        forall|k: int| 0 <= k < rows.len() ==> row_fits(#[trigger] rows[k]),
        0 <= i < tile_count_for(rows.len() as int),
    ensures
        tile_fits(tile_rows(rows, i)),
{
    assert(tile_len() == 1000);
    lemma_tile_rows(rows, i);
    assert forall|a: int, b: int|
        0 <= a < tile_rows(rows, i).len() && 0 <= b < tile_rows(rows, i)[a].len() implies byte_len(
        #[trigger] tile_rows(rows, i)[a][b],
    ) <= u32::MAX by {
        assert(row_fits(rows[i * tile_len() + a]));
    }
    assert(tile_rows(rows, i)[0] == rows[i * tile_len()]);
}

/// Why the writer refuses one of the first `n` rows of `rows`, if it does:
/// the refusal of the first row that it does not take.
pub open spec fn first_refusal(ncols: int, rows: Rows, n: int) -> Option<StoreError>
    decreases n,
{
    if n <= 0 {
        None
    } else {
        match first_refusal(ncols, rows, n - 1) {
            Some(e) => Some(e),
            None => (WriterView { ncols, rows: rows.take(n - 1) }).refusal(rows[n - 1]),
        }
    }
}

/// Why no file can be made of `rows`, if none can: there are too many
/// columns, a row is refused, or the file would be too large.
pub open spec fn rows_refusal(ncols: int, rows: Rows) -> Option<StoreError> {
    if ncols > u32::MAX {
        Some(StoreError::TooLarge)
    } else if first_refusal(ncols, rows, rows.len() as int) is Some {
        first_refusal(ncols, rows, rows.len() as int)
    } else if file_image(ncols, rows).len() > u64::MAX {
        Some(StoreError::TooLarge)
    } else {
        None
    }
}

/// Everything that a writer holds, as plain values.
pub struct WriterState {
    pub ncols: int,
    pub nrows: int,
    /// The offsets of the tiles that were handed out.
    pub offsets: Seq<u64>,
    /// The row counts of the tiles that were handed out.
    pub counts: Seq<u32>,
    /// The rows that wait for their tile to fill.
    pub buffered: Rows,
    /// The rows of the first tile, once it was handed out.
    pub first: Option<Rows>,
    /// The rows of the tile that was handed out last.
    pub last: Option<Rows>,
    /// The number of bytes that were handed out.
    pub pos: int,
    /// All rows that were pushed.
    pub rows: Rows,
}

impl WriterState {
    /// The writer holds what the format asks: the rows fit, a tile was
    /// handed out for every `TILE_SIZE` rows and stands at its offset, and
    /// the rows behind the last full tile wait.
    pub open spec fn ok(self) -> bool {
        let t = self.offsets.len() as int;
        &&& 0 <= self.ncols <= u32::MAX
        &&& self.nrows == self.rows.len()
        &&& self.nrows <= u32::MAX
        &&& uniform(self.rows, self.ncols)
        &&& forall|i: int| 0 <= i < self.rows.len() ==> row_fits(#[trigger] self.rows[i])
        &&& t == self.nrows / 1000
        &&& self.counts.len() == t
        &&& self.buffered == self.rows.subrange(t * 1000, self.nrows)
        &&& 0 <= self.pos <= u64::MAX
        &&& self.pos == stream_image(self.ncols, self.rows).len()
        &&& forall|i: int|
            0 <= i < t ==> (#[trigger] self.offsets[i]) == tile_offset(self.rows, i)
                && self.counts[i] == 1000
        &&& t > 0 ==> self.first == Some(tile_rows(self.rows, 0)) && self.last == Some(
            tile_rows(self.rows, t - 1),
        )
    }

    /// The state after a row was taken that does not complete a tile.
    pub open spec fn with_row(self, row: Seq<Seq<char>>) -> WriterState {
        WriterState {
            nrows: self.nrows + 1,
            buffered: self.buffered.push(row),
            rows: self.rows.push(row),
            ..self
        }
    }

    /// The state after a row was taken that completes a tile.
    pub open spec fn with_tile(self, row: Seq<Seq<char>>) -> WriterState {
        WriterState {
            nrows: self.nrows + 1,
            offsets: self.offsets.push(self.pos as u64),
            counts: self.counts.push(1000),
            buffered: Seq::empty(),
            first: if self.offsets.len() == 0 {
                Some(self.buffered.push(row))
            } else {
                self.first
            },
            last: Some(self.buffered.push(row)),
            pos: self.pos + tile_image(self.buffered.push(row)).len(),
            rows: self.rows.push(row),
            ..self
        }
    }

    /// A row that fits is taken in.
    pub proof fn lemma_common(self, row: Seq<Seq<char>>)
        requires
            self.ok(),
            row.len() == self.ncols,
            row_fits(row),
        ensures
            uniform(self.rows.push(row), self.ncols),
            forall|i: int|
                0 <= i < self.rows.push(row).len() ==> row_fits(#[trigger] self.rows.push(row)[i]),
            forall|i: int|
                0 <= i < self.offsets.len() ==> (#[trigger] self.offsets[i]) == tile_offset(
                    self.rows.push(row),
                    i,
                ),
            self.offsets.len() > 0 ==> tile_rows(self.rows.push(row), 0) == tile_rows(self.rows, 0)
                && tile_rows(self.rows.push(row), self.offsets.len() - 1) == tile_rows(
                self.rows,
                self.offsets.len() - 1,
            ),
            self.buffered.len() == self.nrows - self.offsets.len() * 1000,
            self.buffered.len() < 1000,
    {
        let next = self.rows.push(row);
        let t = self.offsets.len() as int;
        assert(tile_len() == 1000);
        assert forall|i: int| 0 <= i < next.len() implies row_fits(#[trigger] next[i]) by {
            if i < self.rows.len() {
                assert(next[i] == self.rows[i]);
            }
        }
        assert forall|i: int| 0 <= i < next.len() implies (#[trigger] next[i]).len()
            == self.ncols by {
            if i < self.rows.len() {
                assert(next[i] == self.rows[i]);
            }
        }
        assert forall|i: int| 0 <= i < t implies (#[trigger] self.offsets[i]) == tile_offset(
            next,
            i,
        ) by {
            assert(i * tile_len() <= self.rows.len()) by (nonlinear_arith)
                requires
                    tile_len() == 1000,
                    0 <= i < t,
                    t == self.rows.len() as int / 1000,
            ;
            lemma_push_keeps_tiles(self.rows, row, i);
        }
        if t > 0 {
            assert(tile_rows(next, 0) == tile_rows(self.rows, 0));
            assert(tile_rows(next, t - 1) == tile_rows(self.rows, t - 1));
        }
    }

    /// A row that does not complete a tile leaves a good state, and adds
    /// nothing to the stream.
    pub proof fn lemma_with_row(self, row: Seq<Seq<char>>)
        requires
            self.ok(),
            row.len() == self.ncols,
            row_fits(row),
            self.nrows < u32::MAX,
            self.buffered.len() + 1 < 1000,
        ensures
            self.with_row(row).ok(),
            stream_image(self.ncols, self.rows.push(row)) == stream_image(self.ncols, self.rows),
            (self.nrows + 1) % 1000 != 0,
    {
        let next = self.rows.push(row);
        let t = self.offsets.len() as int;
        let w = self.with_row(row);
        assert(tile_len() == 1000);
        self.lemma_common(row);
        lemma_stream_push_partial(self.ncols, self.rows, row);
        assert(w.buffered =~= next.subrange(t * 1000, w.nrows));
    }

    /// A row that completes a tile leaves a good state, and adds the
    /// image of the tile to the stream.
    pub proof fn lemma_with_tile(self, row: Seq<Seq<char>>)
        requires
            self.ok(),
            row.len() == self.ncols,
            row_fits(row),
            self.nrows < u32::MAX,
            self.buffered.len() + 1 >= 1000,
        ensures
            tile_fits(self.buffered.push(row)),
            self.buffered.push(row) == tile_rows(self.rows.push(row), self.offsets.len() as int),
            stream_image(self.ncols, self.rows.push(row)) == stream_image(self.ncols, self.rows)
                + tile_image(self.buffered.push(row)),
            (self.nrows + 1) % 1000 == 0,
            self.pos + tile_image(self.buffered.push(row)).len() <= u64::MAX
                ==> self.with_tile(row).ok(),
    {
        let next = self.rows.push(row);
        let t = self.offsets.len() as int;
        let w = self.with_tile(row);
        let tile = self.buffered.push(row);
        assert(tile_len() == 1000);
        self.lemma_common(row);
        lemma_stream_push_full(self.ncols, self.rows, row);
        lemma_tile_rows(next, t);
        assert(tile =~= tile_rows(next, t));
        assert forall|i: int, j: int|
            0 <= i < tile.len() && 0 <= j < tile[i].len() implies byte_len(#[trigger] tile[i][j])
            <= u32::MAX by {
            assert(row_fits(next[t * 1000 + i]));
        }
        assert(tile[0] == next[t * 1000]);
        lemma_push_keeps_tiles(self.rows, row, t);
        lemma_header_len(self.ncols, 0, 0);
        if self.pos + tile_image(tile).len() <= u64::MAX {
            assert(w.buffered =~= next.subrange((t + 1) * 1000, w.nrows));
            assert forall|i: int| 0 <= i < t + 1 implies (#[trigger] w.offsets[i]) == tile_offset(
                next,
                i,
            ) && w.counts[i] == 1000 by {
                if i < t {
                    assert(w.offsets[i] == self.offsets[i]);
                    assert(w.counts[i] == self.counts[i]);
                }
            }
            if t > 0 {
                assert(w.first == Some(tile_rows(next, 0)));
            } else {
                assert(tile_rows(next, 0) == tile);
            }
        }
    }
}

/// Takes the rows of a result one by one and hands out the bytes of the
/// file piece by piece: the header at the start, a tile whenever
/// `TILE_SIZE` rows have come together, and the rest at the end.
pub struct TileWriter {
    ncols: usize,
    nrows: usize,
    tile_offsets: Vec<u64>,
    tile_row_counts: Vec<u32>,
    buf_tile: Vec<Vec<String>>,
    first_tile: Option<Arc<Vec<Vec<String>>>>,
    last_full: Option<Arc<Vec<Vec<String>>>>,
    pos: u64,
    rows: Ghost<Rows>,
}

impl View for TileWriter {
    type V = WriterView;

    closed spec fn view(&self) -> WriterView {
        WriterView { ncols: self.ncols as int, rows: self.rows@ }
    }
}

/// The header of a file with the given counts.
fn encode_header(ncols: u32, nrows: u32, tile_count: u32) -> (h: Vec<u8>)
    ensures
        h@ == header_image(ncols as int, nrows as int, tile_count as int),
        h@.len() == HEADER_LEN,
{
    let mut h: Vec<u8> = Vec::new();
    h.push(0x53u8);
    h.push(0x4eu8);
    h.push(0x54u8);
    h.push(0x52u8);
    assert(h@ == magic());
    put_u32(&mut h, TILE_SIZE as u32);
    put_u32(&mut h, ncols);
    put_u32(&mut h, nrows);
    put_u32(&mut h, tile_count);
    proof {
        lemma_header_len(ncols as int, nrows as int, tile_count as int);
    }
    h
}

/// Whether every cell of the row fits the length field of the format.
fn check_row(row: &Vec<String>) -> (ok: bool)
    ensures
        ok == row_fits(row.deep_view()),
{
    let n: usize = row.len();
    let mut j: usize = 0;
    while j < n
        invariant
            j <= n,
            n == row.len(),
            forall|x: int| 0 <= x < j ==> byte_len(#[trigger] row.deep_view()[x]) <= u32::MAX,
        decreases n - j,
    {
        let bytes: &[u8] = row[j].as_str().as_bytes();
        assert(row.deep_view()[j as int] == row[j as int]@);
        if bytes.len() > u32::MAX as usize {
            return false;
        }
        j = j + 1;
    }
    true
}

impl TileWriter {
    /// The state of the writer as plain values.
    pub closed spec fn state(&self) -> WriterState {
        WriterState {
            ncols: self.ncols as int,
            nrows: self.nrows as int,
            offsets: self.tile_offsets@,
            counts: self.tile_row_counts@,
            buffered: self.buf_tile.deep_view(),
            first: match self.first_tile {
                Some(t) => Some(t.deep_view()),
                None => None,
            },
            last: match self.last_full {
                Some(t) => Some(t.deep_view()),
                None => None,
            },
            pos: self.pos as int,
            rows: self.rows@,
        }
    }

    /// The invariant of the writer.
    pub closed spec fn inv(&self) -> bool {
        self.state().ok()
    }

    /// A writer for rows of `ncols` cells, with the bytes that open the
    /// file. Fails only if the number of columns does not fit in 32 bits.
    pub fn new(ncols: usize) -> (res: Result<(TileWriter, Vec<u8>), StoreError>)
        ensures
            match res {
                Ok((w, head)) => ncols <= u32::MAX && w.inv() && w@ == (WriterView {
                    ncols: ncols as int,
                    rows: Seq::empty(),
                }) && head@ == w@.stream(),
                Err(e) => ncols > u32::MAX && e == StoreError::TooLarge,
            },
    {
        if ncols > u32::MAX as usize {
            return Err(StoreError::TooLarge);
        }
        let head = encode_header(ncols as u32, 0, 0);
        let w = TileWriter {
            ncols,
            nrows: 0,
            tile_offsets: Vec::new(),
            tile_row_counts: Vec::new(),
            buf_tile: Vec::new(),
            first_tile: None,
            last_full: None,
            pos: HEADER_LEN as u64,
            rows: Ghost(Seq::empty()),
        };
        proof {
            assert(tile_len() == 1000);
            assert(w.buf_tile.deep_view() =~= w.rows@.subrange(0, 0));
            assert(tiles_image(w.rows@, 0) == Seq::<u8>::empty());
            assert(head@ + Seq::<u8>::empty() == head@);
            assert(w.state().ok());
        }
        Ok((w, head))
    }

    /// Takes one row. Returns the bytes to append to the file if the row
    /// completes a tile, and `None` if it does not. A row that is refused
    /// leaves the writer as it was.
    pub fn push_row(&mut self, row: Vec<String>) -> (res: Result<Option<Vec<u8>>, StoreError>)
        requires
            old(self).inv(),
        ensures
            final(self).inv(),
            match res {
                Ok(chunk) => old(self)@.refusal(row.deep_view()) is None && final(self)@ == (
                WriterView { rows: old(self)@.rows.push(row.deep_view()), ..old(self)@ })
                    && final(self)@.stream() == old(self)@.stream() + match chunk {
                    Some(bytes) => bytes@,
                    None => Seq::empty(),
                } && (chunk is Some <==> final(self)@.rows.len() as int % tile_len() == 0),
                Err(e) => old(self)@.refusal(row.deep_view()) == Some(e) && final(self)@ == old(
                    self,
                )@,
            },
    {
        let ghost before = self@;
        let ghost state = self.state();
        let ghost rv = row.deep_view();
        let ghost next = before.rows.push(rv);
        proof {
            assert(tile_len() == 1000);
        }
        if row.len() != self.ncols {
            return Err(StoreError::RowWidth);
        }
        if !check_row(&row) || self.nrows >= u32::MAX as usize {
            return Err(StoreError::TooLarge);
        }
        proof {
            state.lemma_common(rv);
        }
        let ghost buffered = self.buf_tile.deep_view();
        if self.buf_tile.len() + 1 < TILE_SIZE {
            self.buf_tile.push(row);
            self.nrows = self.nrows + 1;
            self.rows = Ghost(next);
            proof {
                state.lemma_with_row(rv);
                assert(self.buf_tile.deep_view() =~= buffered.push(rv));
                assert(self.state() == state.with_row(rv));
                assert(before.stream() + Seq::<u8>::empty() == before.stream());
            }
            return Ok(None);
        }
        self.buf_tile.push(row);
        proof {
            state.lemma_with_tile(rv);
            assert(self.buf_tile.deep_view() =~= buffered.push(rv));
        }
        let bytes: Vec<u8> = match encode_tile(&self.buf_tile) {
            Some(b) => b,
            None => {
                proof {
                    assert(false);
                }
                Vec::new()
            },
        };
        let len: usize = bytes.len();
        let end: u64 = match self.pos.checked_add(len as u64) {
            Some(e) => e,
            None => {
                let _ = self.buf_tile.pop();
                proof {
                    assert(self.buf_tile.deep_view() =~= buffered);
                    assert(self.state() == state);
                    assert(bytes@.len() == len);
                    assert(stream_image(before.ncols, next).len() == self.pos + len);
                }
                return Err(StoreError::TooLarge);
            },
        };
        let mut tile: Vec<Vec<String>> = Vec::new();
        core::mem::swap(&mut tile, &mut self.buf_tile);
        let shared = Arc::new(tile);
        if self.tile_offsets.len() == 0 {
            self.first_tile = Some(share(&shared));
        }
        self.last_full = Some(shared);
        self.tile_offsets.push(self.pos);
        self.tile_row_counts.push(TILE_SIZE as u32);
        self.pos = end;
        self.nrows = self.nrows + 1;
        self.rows = Ghost(next);
        proof {
            assert(self.buf_tile.deep_view() =~= Seq::<Seq<Seq<char>>>::empty());
            assert(self.state() == state.with_tile(rv));
        }
        Ok(Some(bytes))
    }

    /// Ends the writing. Returns the store, the bytes to append to the
    /// file (the last tile if it is not full, then the two tables) and the
    /// header to write over the first bytes of the file. Fails only if the
    /// file would take more bytes than an offset can count.
    #[verifier::rlimit(40)]
    pub fn finish(self) -> (res: Result<(TileRowStore, Vec<u8>, Vec<u8>), StoreError>)
        requires
            self.inv(),
        ensures
            match res {
                Ok((store, tail, head)) => {
                    &&& store.inv()
                    &&& store.coherent()
                    &&& store@.ncols == self@.ncols
                    &&& store@.rows == self@.rows
                    &&& store@.file == file_image(self@.ncols, self@.rows)
                    &&& file_image(self@.ncols, self@.rows).len() <= u64::MAX
                    &&& head@ == header_image(
                        self@.ncols,
                        self@.rows.len() as int,
                        tile_count_for(self@.rows.len() as int),
                    )
                    &&& head@ + self@.stream().skip(HEADER_LEN as int) + tail@ == file_image(
                        self@.ncols,
                        self@.rows,
                    )
                },
                Err(e) => e == StoreError::TooLarge && file_image(self@.ncols, self@.rows).len()
                    > u64::MAX,
            },
    {
        let ghost rows = self.rows@;
        let ghost ncols = self.ncols as int;
        let ghost full = self.tile_offsets@.len() as int;
        let ghost total = tile_count_for(rows.len() as int);
        let ghost stream = self@.stream();
        let ghost file = file_image(ncols, rows);
        let mut w = self;
        let mut tail: Vec<u8> = Vec::new();
        let partial: usize = w.buf_tile.len();
        proof {
            assert(tile_len() == 1000);
            assert(full * tile_len() == full * 1000) by (nonlinear_arith)
                requires
                    tile_len() == 1000,
            ;
            assert(w.buf_tile.deep_view().len() == w.nrows - full * 1000);
            lemma_header_len(ncols, 0, 0);
            lemma_header_len(ncols, rows.len() as int, total);
            assert(stream.skip(20) == tiles_image(rows, full));
            lemma_offsets_image_len(offsets_for(rows));
            lemma_counts_image_len(counts_for(rows));
            assert(file.len() == 20 + tiles_image(rows, total).len() + 12 * total);
        }
        let mut last = w.last_full;
        let mut first = w.first_tile;
        if partial > 0 {
            proof {
                assert(total == full + 1);
                lemma_tile_rows(rows, full);
                assert(w.buf_tile.deep_view() =~= tile_rows(rows, full));
                assert(tiles_image(rows, total) == tiles_image(rows, full) + tile_image(
                    tile_rows(rows, full),
                ));
                lemma_partial_tile_fits(ncols, rows, full);
            }
            let bytes: Vec<u8> = match encode_tile(&w.buf_tile) {
                Some(b) => b,
                None => {
                    proof {
                        assert(false);
                    }
                    Vec::new()
                },
            };
            let end: u64 = match w.pos.checked_add(bytes.len() as u64) {
                Some(e) => e,
                None => {
                    return Err(StoreError::TooLarge);
                },
            };
            w.tile_offsets.push(w.pos);
            w.tile_row_counts.push(partial as u32);
            let shared = Arc::new(w.buf_tile);
            if w.tile_offsets.len() == 1 {
                first = Some(share(&shared));
            }
            last = Some(shared);
            tail = bytes;
            w.pos = end;
        } else {
            assert(total == full);
        }
        let count: usize = w.tile_offsets.len();
        assert(w.pos == 20 + tiles_image(rows, total).len());
        assert(tail@ == tiles_image(rows, total).skip(tiles_image(rows, full).len() as int));
        let tables: u64 = 12 * (count as u64);
        if w.pos.checked_add(tables).is_none() {
            return Err(StoreError::TooLarge);
        }
        proof {
            assert(w.tile_offsets@ =~= offsets_for(rows));
            assert(w.tile_row_counts@ =~= counts_for(rows)) by {
                assert forall|i: int| 0 <= i < total implies w.tile_row_counts@[i]
                    == #[trigger] counts_for(rows)[i] by {
                    lemma_tile_rows(rows, i);
                    assert(i * tile_len() == i * 1000) by (nonlinear_arith)
                        requires
                            tile_len() == 1000,
                    ;
                    assert(counts_for(rows)[i] == tile_rows(rows, i).len() as u32);
                    if i < full {
                        assert(w.tile_row_counts@[i] == self.tile_row_counts@[i]);
                        assert(self.tile_offsets@[i] == tile_offset(self.rows@, i));
                    }
                }
            }
            lemma_file_image_well_formed(ncols, rows);
        }
        encode_offsets(&mut tail, &w.tile_offsets);
        encode_counts(&mut tail, &w.tile_row_counts);
        let head = encode_header(w.ncols as u32, w.nrows as u32, count as u32);
        proof {
            assert(head@ + stream.skip(20) + tail@ =~= file);
        }
        let store = TileRowStore::assemble(
            w.tile_offsets,
            w.tile_row_counts,
            w.ncols,
            w.nrows,
            first,
            last,
            Ghost(rows),
            Ghost(file),
        );
        Ok((store, tail, head))
    }
}

impl TileRowStore {
    /// Makes the store and the bytes of the whole file from rows that are
    /// all in memory. Fails if a row does not have one cell for each
    /// header, or if a count, a cell or the file is too large for the format.
    pub fn from_rows(headers: &[String], rows: Vec<Vec<String>>) -> (res: Result<
        (TileRowStore, Vec<u8>),
        StoreError,
    >)
        ensures
            match res {
                Ok((store, image)) => {
                    &&& rows_refusal(headers@.len() as int, rows.deep_view()) is None
                    &&& store.inv()
                    &&& store.coherent()
                    &&& store@.ncols == headers@.len()
                    &&& store@.rows == rows.deep_view()
                    &&& store@.file == image@
                    &&& image@ == file_image(headers@.len() as int, rows.deep_view())
                },
                Err(e) => rows_refusal(headers@.len() as int, rows.deep_view()) == Some(e),
            },
    {
        let ghost all = rows.deep_view();
        let ghost ncols = headers@.len() as int;
        let (mut w, mut image) = match TileWriter::new(headers.len()) {
            Ok(pair) => pair,
            Err(e) => {
                return Err(e);
            },
        };
        let n: usize = rows.len();
        let mut i: usize = 0;
        assert(all.take(0) == Seq::<Seq<Seq<char>>>::empty());
        while i < n
            invariant
                i <= n,
                n == rows.len(),
                all == rows.deep_view(),
                ncols == headers@.len(),
                ncols <= u32::MAX,
                w.inv(),
                w@ == (WriterView { ncols, rows: all.take(i as int) }),
                image@ == w@.stream(),
                first_refusal(ncols, all, i as int) is None,
            decreases n - i,
        {
            let row = clone_row(&rows[i]);
            assert(row.deep_view() == all[i as int]);
            assert(all.take(i as int).push(all[i as int]) == all.take(i + 1));
            match w.push_row(row) {
                Ok(Some(bytes)) => {
                    image.extend_from_slice(bytes.as_slice());
                },
                Ok(None) => {
                    assert(image@ + Seq::<u8>::empty() == image@);
                },
                Err(e) => {
                    proof {
                        lemma_refusal_stays(ncols, all, i + 1, n as int);
                    }
                    return Err(e);
                },
            }
            i = i + 1;
        }
        assert(all.take(n as int) == all);
        let ghost stream = w@.stream();
        let (store, tail, head) = match w.finish() {
            Ok(parts) => parts,
            Err(e) => {
                return Err(e);
            },
        };
        let mut out = head;
        proof {
            lemma_header_len(ncols, 0, 0);
        }
        let rest = vstd::slice::slice_subrange(image.as_slice(), HEADER_LEN, image.len());
        out.extend_from_slice(rest);
        out.extend_from_slice(tail.as_slice());
        assert(rest@ == stream.skip(HEADER_LEN as int));
        Ok((store, out))
    }
}

/// A refusal among the first `n` rows is the refusal among the first `m`, for `n <= m`.
proof fn lemma_refusal_stays(ncols: int, rows: Rows, n: int, m: int)
    requires
        0 <= n <= m,
        first_refusal(ncols, rows, n) is Some,
    ensures
        first_refusal(ncols, rows, m) == first_refusal(ncols, rows, n),
    decreases m - n,
{
    if n < m {
        lemma_refusal_stays(ncols, rows, n, m - 1);
    }
}

} // verus!
