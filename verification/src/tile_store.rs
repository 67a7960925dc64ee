//! The tile-paged result store: rows are written once, tile by tile, to a
//! file, and read back in windows through a bounded cache of tiles. The
//! first and the last tile stay in memory.
//!
//! The store never touches the file itself: reading goes through a
//! function that returns the bytes at an offset. What is read back is
//! exact for a reader that returns the bytes that were written.

use vstd::prelude::*;
use std::sync::Arc;
use crate::tile_cache::{
    cache_capacity, cache_entries, cache_get, cache_new, cache_put, entry_index, keys_of,
    lemma_entry_index, lemma_keys_used, share, touched, used, with_entry,
};
use crate::tile_format::{
    lemma_tile_rows, tile_count_for, tile_fits, tile_image, tile_len, tile_rows, Rows, TILE_SIZE,
};
use crate::tile_read::{load_tile, reads_anywhere, reads_file};

verus! {

/// Why the store could not write or read.
#[derive(Clone, Copy, Debug, PartialEq, Eq)]
pub enum StoreError {
    /// The reader returned nothing, or not as many bytes as were asked for.
    Read,
    /// The bytes read are not the tile that the index describes.
    Corrupt,
    /// A count, a length or an offset does not fit the field that the format gives it.
    TooLarge,
    /// A row does not have as many cells as there are columns.
    RowWidth,
}

/// The tile that holds `rows` stands at `offset` in `file`.
pub open spec fn tile_at(file: Seq<u8>, offset: int, rows: Rows) -> bool {
    0 <= offset && offset + tile_image(rows).len() <= file.len() && file.subrange(
        offset,
        offset + tile_image(rows).len(),
    ) == tile_image(rows)
}

/// Every row of `rows` has `cols` cells.
pub open spec fn uniform(rows: Rows, cols: int) -> bool {
    forall|i: int| 0 <= i < rows.len() ==> (#[trigger] rows[i]).len() == cols
}

/// Number of tiles that the cache holds besides the first and the last.
pub const CACHE_TILES: usize = 6;

/// The sum of the counts.
pub open spec fn sum_counts(counts: Seq<u32>) -> int
    decreases counts.len(),
{
    if counts.len() == 0 {
        0
    } else {
        sum_counts(counts.drop_last()) + counts.last()
    }
}

/// What a store holds, as far as its readers are concerned.
pub struct StoreState {
    /// Number of columns.
    pub ncols: int,
    /// Number of rows.
    pub nrows: int,
    /// Where each tile starts in the file.
    pub offsets: Seq<u64>,
    /// How many rows each tile holds.
    pub counts: Seq<u32>,
    /// The rows that were written, in order.
    pub rows: Rows,
    /// The bytes of the file as they were written.
    pub file: Seq<u8>,
}

impl StoreState {
    /// The index describes the file: there is one tile for every
    /// `TILE_SIZE` rows, each tile but the last is full, and the tile
    /// at each offset is the image of its rows.
    pub open spec fn well_formed(self) -> bool {
        &&& 0 <= self.ncols
        &&& self.nrows == self.rows.len()
        &&& uniform(self.rows, self.ncols)
        &&& self.file.len() <= u64::MAX
        &&& self.offsets.len() == tile_count_for(self.nrows)
        &&& self.counts.len() == self.offsets.len()
        &&& forall|i: int|
            0 <= i < self.offsets.len() ==> {
                &&& (#[trigger] self.counts[i]) == tile_rows(self.rows, i).len()
                &&& tile_at(self.file, self.offsets[i] as int, tile_rows(self.rows, i))
                &&& tile_fits(tile_rows(self.rows, i))
            }
    }

    /// The window of rows that a read of `count` rows at `start` returns.
    pub open spec fn window(self, start: int, count: int) -> Rows {
        if start >= self.nrows || count <= 0 {
            Seq::empty()
        } else if start + count > self.nrows {
            self.rows.subrange(start, self.nrows)
        } else {
            self.rows.subrange(start, start + count)
        }
    }
}

/// The store of one result: the index of the tiles of the file, the
/// first and the last tile, and a cache for the tiles in between.
pub struct TileRowStore {
    tile_offsets: Vec<u64>,
    tile_row_counts: Vec<u32>,
    ncols: usize,
    nrows: usize,
    cache: lru::LruCache<usize, Arc<Vec<Vec<String>>>>,
    first_tile: Option<Arc<Vec<Vec<String>>>>,
    last_tile: Option<Arc<Vec<Vec<String>>>>,
    rows: Ghost<Rows>,
    file: Ghost<Seq<u8>>,
}

impl View for TileRowStore {
    type V = StoreState;

    closed spec fn view(&self) -> StoreState {
        StoreState {
            ncols: self.ncols as int,
            nrows: self.nrows as int,
            offsets: self.tile_offsets@,
            counts: self.tile_row_counts@,
            rows: self.rows@,
            file: self.file@,
        }
    }
}

/// Every entry is for a tile of the index and has as many rows as the index says.
pub open spec fn entries_sized(entries: Seq<(usize, Rows)>, counts: Seq<u32>) -> bool {
    forall|j: int|
        0 <= j < entries.len() ==> (#[trigger] entries[j]).0 < counts.len() && entries[j].1.len()
            == counts[entries[j].0 as int]
}

/// The cache holds no more entries than it is made for, and none for
/// the first or the last of `count` tiles.
pub open spec fn entries_inner(entries: Seq<(usize, Rows)>, count: int) -> bool {
    &&& entries.len() <= CACHE_TILES
    &&& forall|j: int| 0 <= j < entries.len() ==> 0 < (#[trigger] entries[j]).0 < count - 1
}

/// Every entry holds the rows of its tile.
pub open spec fn entries_right(entries: Seq<(usize, Rows)>, rows: Rows) -> bool {
    forall|j: int|
        0 <= j < entries.len() ==> (#[trigger] entries[j]).1 == tile_rows(
            rows,
            entries[j].0 as int,
        )
}

/// The keys of the cache after tile `t` of `count` tiles was resolved:
/// the first and the last tile do not go through the cache.
pub open spec fn resolved(keys: Seq<usize>, t: int, count: int) -> Seq<usize> {
    if t <= 0 || t >= count - 1 {
        keys
    } else {
        used(keys, CACHE_TILES as nat, t as usize)
    }
}

/// The keys of the cache after the tiles from `lo` to `hi` were resolved in order.
pub open spec fn resolved_range(keys: Seq<usize>, lo: int, hi: int, count: int) -> Seq<usize>
    decreases hi - lo + 1,
{
    if hi < lo {
        keys
    } else {
        resolved(resolved_range(keys, lo, hi - 1, count), hi, count)
    }
}

/// The first and the last tile that hold rows of the window, or an
/// empty range for an empty window.
pub open spec fn window_tiles(nrows: int, start: int, count: int) -> (int, int) {
    if start >= nrows || count <= 0 {
        (0, -1)
    } else if start + count > nrows {
        (start / tile_len(), (nrows - 1) / tile_len())
    } else {
        (start / tile_len(), (start + count - 1) / tile_len())
    }
}

/// The first and the last tile that `prefetch_for_view` resolves for a
/// view of `max_rows` rows at `view_row` in a store of `count` tiles.
pub open spec fn prefetch_tiles(view_row: int, max_rows: int, count: int) -> (int, int) {
    if count <= 0 {
        (0, -1)
    } else {
        let last = if view_row + max_rows > usize::MAX {
            usize::MAX as int
        } else {
            view_row + max_rows
        };
        let end_tile = (if last > 0 {
            last - 1
        } else {
            0
        }) / tile_len();
        (
            if view_row / tile_len() > 0 {
                view_row / tile_len() - 1
            } else {
                0
            },
            if end_tile + 1 < count - 1 {
                end_tile + 1
            } else {
                count - 1
            },
        )
    }
}

/// Using an entry keeps what holds of every entry.
proof fn lemma_touched(entries: Seq<(usize, Rows)>, i: int, counts: Seq<u32>, rows: Rows)
    requires
        0 <= i < entries.len(),
    ensures
        entries_sized(entries, counts) ==> entries_sized(touched(entries, i), counts),
        entries_right(entries, rows) ==> entries_right(touched(entries, i), rows),
        entries_inner(entries, counts.len() as int) ==> entries_inner(
            touched(entries, i),
            counts.len() as int,
        ),
{
    let t = touched(entries, i);
    assert forall|j: int| 0 <= j < t.len() implies exists|x: int|
        0 <= x < entries.len() && #[trigger] t[j] == entries[x] by {
        if j == 0 {
            assert(t[j] == entries[i]);
        } else if j - 1 < i {
            assert(t[j] == entries[j - 1]);
        } else {
            assert(t[j] == entries[j]);
        }
    }
}

/// Putting in an entry of which it holds keeps what holds of every entry.
proof fn lemma_with_entry(
    entries: Seq<(usize, Rows)>,
    cap: nat,
    k: usize,
    tile: Rows,
    counts: Seq<u32>,
    rows: Rows,
)
    requires
        cap > 0,
    ensures
        entries_sized(entries, counts) && k < counts.len() && tile.len() == counts[k as int]
            ==> entries_sized(with_entry(entries, cap, k, tile), counts),
        entries_right(entries, rows) && tile == tile_rows(rows, k as int) ==> entries_right(
            with_entry(entries, cap, k, tile),
            rows,
        ),
        entries_inner(entries, counts.len() as int) && cap == CACHE_TILES && 0 < k < counts.len()
            - 1 ==> entries_inner(with_entry(entries, cap, k, tile), counts.len() as int),
{
    let t = with_entry(entries, cap, k, tile);
    lemma_entry_index(entries, k);
    let i = entry_index(entries, k);
    assert forall|j: int| 0 < j < t.len() implies exists|x: int|
        0 <= x < entries.len() && #[trigger] t[j] == entries[x] by {
        if i >= 0 {
            if j - 1 < i {
                assert(t[j] == entries[j - 1]);
            } else {
                assert(t[j] == entries[j]);
            }
        } else {
            assert(t[j] == entries[j - 1]);
        }
    }
    assert(t[0] == (k, tile));
}

/// A copy of the row.
pub(crate) fn clone_row(row: &Vec<String>) -> (copy: Vec<String>)
    ensures
        copy.deep_view() == row.deep_view(),
{
    let mut copy: Vec<String> = Vec::new();
    let n: usize = row.len();
    let mut i: usize = 0;
    while i < n
        invariant
            i <= n,
            n == row.len(),
            copy.len() == i,
            forall|j: int| 0 <= j < i ==> copy[j]@ == row[j]@,
        decreases n - i,
    {
        copy.push(row[i].clone());
        i = i + 1;
    }
    assert(copy.deep_view() =~= row.deep_view());
    copy
}

impl TileRowStore {
    /// The invariant of the store: its index describes the file, the first
    /// and the last tile are held in memory, and every cached tile has the
    /// number of rows that the index gives it.
    pub closed spec fn inv(&self) -> bool {
        &&& self@.well_formed()
        &&& cache_capacity(self.cache) == CACHE_TILES
        &&& entries_sized(cache_entries(self.cache), self@.counts)
        &&& entries_inner(cache_entries(self.cache), self@.counts.len() as int)
        &&& self@.offsets.len() > 0 ==> {
            &&& self.first_tile is Some
            &&& self.last_tile is Some
            &&& self.first_tile.unwrap().deep_view() == tile_rows(self@.rows, 0)
            &&& self.last_tile.unwrap().deep_view() == tile_rows(
                self@.rows,
                self@.offsets.len() - 1,
            )
        }
    }

    /// The indices of the tiles in the cache, from the most recently
    /// used to the least recently used.
    pub closed spec fn cached(&self) -> Seq<usize> {
        keys_of(cache_entries(self.cache))
    }

    /// Whether the first and the last tile are held in memory.
    pub closed spec fn pinned(&self) -> bool {
        self.first_tile is Some && self.last_tile is Some
    }

    /// Every cached tile holds the rows of its index. This is so when the
    /// store is made, and stays so as long as the reader returns the bytes
    /// of the file.
    pub closed spec fn coherent(&self) -> bool {
        entries_right(cache_entries(self.cache), self@.rows)
    }

    /// The index of a store describes its file: the tile at each offset
    /// is the image of as many rows as the index gives it, each with one
    /// cell for every column, and the row counts add up to the rows.
    pub proof fn lemma_tiles_decode(&self)
        requires
            self.inv(),
        ensures
            self@.well_formed(),
            sum_counts(self@.counts) == self@.nrows,
            forall|i: int|
                0 <= i < self@.offsets.len() ==> {
                    &&& tile_at(
                        self@.file,
                        (#[trigger] self@.offsets[i]) as int,
                        tile_rows(self@.rows, i),
                    )
                    &&& tile_rows(self@.rows, i).len() == self@.counts[i]
                    &&& uniform(tile_rows(self@.rows, i), self@.ncols)
                },
    {
        self@.lemma_counts_sum();
        assert forall|i: int| 0 <= i < self@.offsets.len() implies {
            &&& tile_at(self@.file, (#[trigger] self@.offsets[i]) as int, tile_rows(self@.rows, i))
            &&& tile_rows(self@.rows, i).len() == self@.counts[i]
            &&& uniform(tile_rows(self@.rows, i), self@.ncols)
        } by {
            assert(self@.counts[i] == tile_rows(self@.rows, i).len());
            lemma_tile_rows(self@.rows, i);
            assert forall|x: int| 0 <= x < tile_rows(self@.rows, i).len() implies (
            #[trigger] tile_rows(self@.rows, i)[x]).len() == self@.ncols by {
                assert(tile_rows(self@.rows, i)[x] == self@.rows[i * tile_len() + x]);
            }
        }
    }

    /// The cache holds at most `CACHE_TILES` tiles, and never the first
    /// or the last tile, which are held beside it.
    pub proof fn lemma_cache_bounds(&self)
        requires
            self.inv(),
        ensures
            self.cached().len() <= CACHE_TILES,
            forall|j: int|
                0 <= j < self.cached().len() ==> 0 < (#[trigger] self.cached()[j])
                    < self@.offsets.len() - 1,
    {
        let entries = cache_entries(self.cache);
        assert forall|j: int| 0 <= j < self.cached().len() implies 0 < (
        #[trigger] self.cached()[j]) < self@.offsets.len() - 1 by {
            assert(self.cached()[j] == entries[j].0);
        }
    }

    /// A store with tiles holds its first and its last tile in memory.
    pub proof fn lemma_pinned(&self)
        requires
            self.inv(),
            self@.offsets.len() > 0,
        ensures
            self.pinned(),
    {
    }

    /// Number of columns.
    pub fn ncols(&self) -> (n: usize)
        ensures
            n == self@.ncols,
    {
        self.ncols
    }

    /// Number of rows.
    pub fn nrows(&self) -> (n: usize)
        ensures
            n == self@.nrows,
    {
        self.nrows
    }

    /// Number of tiles.
    pub fn tile_count(&self) -> (n: usize)
        ensures
            n == self@.offsets.len(),
    {
        self.tile_offsets.len()
    }

    /// The number of rows of each tile.
    pub fn tile_row_counts(&self) -> (counts: &Vec<u32>)
        ensures
            counts@ == self@.counts,
    {
        &self.tile_row_counts
    }

    /// The offset of each tile in the file.
    pub fn tile_offsets(&self) -> (offsets: &Vec<u64>)
        ensures
            offsets@ == self@.offsets,
    {
        &self.tile_offsets
    }

    /// The tile with index `idx`: the first and the last tile come from
    /// memory; another tile comes from the cache, or is read and then cached.
    fn resolve<F: Fn(u64, usize) -> Option<Vec<u8>>>(&mut self, idx: usize, read: &F) -> (res:
        Result<Arc<Vec<Vec<String>>>, StoreError>)
        requires
            old(self).inv(),
            idx < old(self)@.offsets.len(),
            reads_anywhere(read),
        ensures
            final(self).inv(),
            final(self)@ == old(self)@,
            res is Ok ==> res.unwrap().deep_view().len() == old(self)@.counts[idx as int],
            res is Ok ==> final(self).cached() == resolved(
                old(self).cached(),
                idx as int,
                old(self)@.offsets.len() as int,
            ),
            res is Err ==> final(self).cached() == old(self).cached(),
            res matches Err(e) ==> e == StoreError::Read || e == StoreError::Corrupt,
            old(self).coherent() && reads_file(read, old(self)@.file) ==> final(self).coherent()
                && res is Ok && res.unwrap().deep_view() == tile_rows(old(self)@.rows, idx as int),
    {
        let count: usize = self.tile_offsets.len();
        if idx == 0 {
            match &self.first_tile {
                Some(tile) => {
                    return Ok(share(tile));
                },
                None => {},
            }
        } else if idx == count - 1 {
            match &self.last_tile {
                Some(tile) => {
                    return Ok(share(tile));
                },
                None => {},
            }
        }
        let ghost entries = cache_entries(self.cache);
        proof {
            lemma_entry_index(entries, idx);
            lemma_keys_used(entries, CACHE_TILES as nat, idx, Seq::empty());
        }
        match cache_get(&mut self.cache, idx) {
            Some(tile) => {
                proof {
                    lemma_touched(
                        entries,
                        entry_index(entries, idx),
                        self@.counts,
                        self@.rows,
                    );
                }
                Ok(tile)
            },
            None => {
                let rows = load_tile(
                    read,
                    self.tile_offsets[idx],
                    self.tile_row_counts[idx] as usize,
                    self.ncols,
                    Ghost(self.file@),
                    Ghost(tile_rows(self.rows@, idx as int)),
                )?;
                let ghost loaded = rows.deep_view();
                let tile = Arc::new(rows);
                proof {
                    lemma_tile_rows(self@.rows, idx as int);
                    lemma_with_entry(
                        entries,
                        CACHE_TILES as nat,
                        idx,
                        loaded,
                        self@.counts,
                        self@.rows,
                    );
                    lemma_keys_used(entries, CACHE_TILES as nat, idx, loaded);
                    if reads_file(read, self@.file) {
                        assert(uniform(tile_rows(self@.rows, idx as int), self@.ncols));
                    }
                }
                cache_put(&mut self.cache, idx, share(&tile));
                Ok(tile)
            },
        }
    }

    /// The rows from `start` on, up to `count` of them: fewer where the
    /// rows end before, none where `start` is past the last row.
    ///
    /// `read` is asked for the bytes of each tile that is not in memory.
    /// If it returns the bytes of the file, the rows come back as they
    /// were written. If it returns nothing or too little, the error is
    /// `Read`; if it returns bytes that are not the tile of the index,
    /// the error is `Corrupt`, unless the bytes happen to have the shape
    /// of the tile.
    pub fn get_rows<F: Fn(u64, usize) -> Option<Vec<u8>>>(
        &mut self,
        start: usize,
        count: usize,
        read: &F,
    ) -> (res: Result<Vec<Vec<String>>, StoreError>)
        requires
            old(self).inv(),
            reads_anywhere(read),
        ensures
            final(self).inv(),
            final(self)@ == old(self)@,
            start >= old(self)@.nrows || count == 0 ==> res is Ok && res.unwrap().len() == 0,
            res is Ok ==> res.unwrap().len() == old(self)@.window(start as int, count as int).len(),
            res matches Err(e) ==> e == StoreError::Read || e == StoreError::Corrupt,
            res is Ok ==> final(self).cached() == resolved_range(
                old(self).cached(),
                window_tiles(old(self)@.nrows, start as int, count as int).0,
                window_tiles(old(self)@.nrows, start as int, count as int).1,
                old(self)@.offsets.len() as int,
            ),
            old(self).coherent() && reads_file(read, old(self)@.file) ==> final(self).coherent()
                && res is Ok && res.unwrap().deep_view() == old(self)@.window(
                start as int,
                count as int,
            ),
    {
        let mut result: Vec<Vec<String>> = Vec::new();
        if start >= self.nrows || count == 0 {
            assert(result.deep_view() =~= Seq::<Seq<Seq<char>>>::empty());
            return Ok(result);
        }
        let end: usize = if count > self.nrows - start {
            self.nrows
        } else {
            start + count
        };
        let ghost view = self@;
        let ghost good = self.coherent() && reads_file(read, self@.file);
        let ghost all = self@.rows;
        let ghost keys = self.cached();
        let ghost lo = start as int / 1000;
        let ghost tiles = self@.offsets.len() as int;
        let ghost next_tile = lo;
        assert(result.deep_view() =~= all.subrange(start as int, start as int));
        assert(tile_len() == 1000);
        let mut curr: usize = start;
        while curr < end
            invariant
                start <= curr <= end <= self.nrows,
                start < end,
                keys == old(self).cached(),
                tiles == view.offsets.len(),
                lo == start as int / 1000,
                lo <= next_tile,
                self.cached() == resolved_range(keys, lo, next_tile - 1, tiles),
                curr < end ==> next_tile == curr as int / 1000,
                curr == end ==> next_tile == (end - 1) / 1000 + 1,
                self.inv(),
                self@ == view,
                view == old(self)@,
                good == (old(self).coherent() && reads_file(read, old(self)@.file)),
                count > 0,
                all == view.rows,
                reads_anywhere(read),
                result.len() == curr - start,
                good ==> self.coherent() && reads_file(read, view.file),
                good ==> result.deep_view() == all.subrange(start as int, curr as int),
            decreases end - curr,
        {
            let tile_idx: usize = curr / TILE_SIZE;
            let in_tile: usize = curr % TILE_SIZE;
            proof {
                assert(tile_len() == 1000);
                assert(tile_idx < tile_count_for(view.nrows));
                lemma_tile_rows(all, tile_idx as int);
            }
            let tile = match self.resolve(tile_idx, read) {
                Ok(t) => t,
                Err(e) => {
                    assert(!good);
                    return Err(e);
                },
            };
            let tile_rows_len: usize = tile.len();
            assert(tile_rows_len == tile.deep_view().len());
            let want: usize = end - curr;
            let end_in_tile: usize = if want < tile_rows_len - in_tile {
                in_tile + want
            } else {
                tile_rows_len
            };
            let ghost base = curr;
            let mut k: usize = in_tile;
            while k < end_in_tile
                invariant
                    in_tile <= k <= end_in_tile <= tile_rows_len,
                    tile_rows_len == tile.len(),
                    result.len() == base - start + (k - in_tile),
                    base == tile_idx * 1000 + in_tile,
                    base + (end_in_tile - in_tile) <= all.len(),
                    start <= base,
                    good ==> tile.deep_view() == tile_rows(all, tile_idx as int),
                    tile_rows(all, tile_idx as int).len() == tile_rows_len,
                    forall|x: int|
                        0 <= x < tile_rows(all, tile_idx as int).len() ==> #[trigger] tile_rows(
                            all,
                            tile_idx as int,
                        )[x] == all[tile_idx * tile_len() + x],
                    good ==> result.deep_view() == all.subrange(
                        start as int,
                        base + (k - in_tile),
                    ),
                decreases end_in_tile - k,
            {
                let ghost before = result.deep_view();
                let row = clone_row(&tile[k]);
                let ghost rv = row.deep_view();
                result.push(row);
                proof {
                    assert(result.deep_view() =~= before.push(rv));
                    if good {
                        assert(tile_len() == 1000);
                        assert(rv == tile.deep_view()[k as int]);
                        assert(rv == all[base + (k - in_tile)]);
                        assert(before.push(rv) =~= all.subrange(
                            start as int,
                            base + (k - in_tile) + 1,
                        ));
                    }
                }
                k = k + 1;
            }
            curr = curr + (end_in_tile - in_tile);
            proof {
                next_tile = next_tile + 1;
            }
        }
        proof {
            assert(view.window(start as int, count as int).len() == end - start);
        }
        Ok(result)
    }
}

impl TileRowStore {
    /// Reads ahead for a view of `max_rows` rows at `view_row`: resolves
    /// the tiles of the view and one tile on either side of them, so that
    /// they are in memory when the view is drawn. Errors of the reader
    /// are passed over.
    pub fn prefetch_for_view<F: Fn(u64, usize) -> Option<Vec<u8>>>(
        &mut self,
        view_row: usize,
        max_rows: usize,
        read: &F,
    )
        requires
            old(self).inv(),
            reads_anywhere(read),
        ensures
            final(self).inv(),
            final(self)@ == old(self)@,
            old(self).coherent() && reads_file(read, old(self)@.file) ==> final(self).coherent()
                && final(self).cached() == resolved_range(
                old(self).cached(),
                prefetch_tiles(view_row as int, max_rows as int, old(self)@.offsets.len() as int).0,
                prefetch_tiles(view_row as int, max_rows as int, old(self)@.offsets.len() as int).1,
                old(self)@.offsets.len() as int,
            ),
    {
        let tile_count: usize = self.tile_offsets.len();
        if tile_count == 0 {
            return ;
        }
        assert(tile_len() == 1000);
        let start_tile: usize = view_row / TILE_SIZE;
        let end_tile: usize = view_row.saturating_add(max_rows).saturating_sub(1) / TILE_SIZE;
        let prefetch_start: usize = start_tile.saturating_sub(1);
        let prefetch_end: usize = if end_tile + 1 < tile_count - 1 {
            end_tile + 1
        } else {
            tile_count - 1
        };
        let ghost good = self.coherent() && reads_file(read, self@.file);
        let ghost keys = self.cached();
        let mut t: usize = prefetch_start;
        while t <= prefetch_end
            invariant
                prefetch_end < tile_count,
                prefetch_start <= t,
                prefetch_start <= prefetch_end ==> t <= prefetch_end + 1,
                prefetch_start > prefetch_end ==> t == prefetch_start,
                tile_count == self@.offsets.len(),
                self.inv(),
                self@ == old(self)@,
                reads_anywhere(read),
                good == (old(self).coherent() && reads_file(read, old(self)@.file)),
                good ==> self.coherent(),
                good ==> self.cached() == resolved_range(
                    keys,
                    prefetch_start as int,
                    t - 1,
                    tile_count as int,
                ),
            decreases prefetch_end + 1 - t,
        {
            let _ = self.resolve(t, read);
            t = t + 1;
        }
        proof {
            let range = prefetch_tiles(
                view_row as int,
                max_rows as int,
                old(self)@.offsets.len() as int,
            );
            assert(range.0 == prefetch_start);
            assert(range.1 == prefetch_end);
            if prefetch_start > prefetch_end {
                assert(t == prefetch_start);
            } else {
                assert(t == prefetch_end + 1);
            }
        }
    }

    /// A store for `rows` whose file is `file`, with an empty cache and
    /// with the first and the last tile in memory.
    pub(crate) fn assemble(
        tile_offsets: Vec<u64>,
        tile_row_counts: Vec<u32>,
        ncols: usize,
        nrows: usize,
        first_tile: Option<Arc<Vec<Vec<String>>>>,
        last_tile: Option<Arc<Vec<Vec<String>>>>,
        Ghost(rows): Ghost<Rows>,
        Ghost(file): Ghost<Seq<u8>>,
    ) -> (store: TileRowStore)
        requires
            (StoreState {
                ncols: ncols as int,
                nrows: nrows as int,
                offsets: tile_offsets@,
                counts: tile_row_counts@,
                rows,
                file,
            }).well_formed(),
            tile_offsets@.len() > 0 ==> {
                &&& first_tile is Some
                &&& last_tile is Some
                &&& first_tile.unwrap().deep_view() == tile_rows(rows, 0)
                &&& last_tile.unwrap().deep_view() == tile_rows(rows, tile_offsets@.len() - 1)
            },
        ensures
            store.inv(),
            store.coherent(),
            store.cached().len() == 0,
            store@ == (StoreState {
                ncols: ncols as int,
                nrows: nrows as int,
                offsets: tile_offsets@,
                counts: tile_row_counts@,
                rows,
                file,
            }),
    {
        TileRowStore {
            tile_offsets,
            tile_row_counts,
            ncols,
            nrows,
            cache: cache_new(CACHE_TILES),
            first_tile,
            last_tile,
            rows: Ghost(rows),
            file: Ghost(file),
        }
    }
}

impl StoreState {
    /// The row counts of a well-formed index add up to the number of rows.
    pub proof fn lemma_counts_sum(self)
        requires
            self.well_formed(),
        ensures
            sum_counts(self.counts) == self.nrows,
            forall|i: int|
                0 <= i < self.counts.len() - 1 ==> (#[trigger] self.counts[i]) == TILE_SIZE,
    {
        self.lemma_counts_prefix(self.counts.len() as int);
        assert(self.counts.take(self.counts.len() as int) == self.counts);
        assert(tile_len() == 1000);
        assert forall|i: int| 0 <= i < self.counts.len() - 1 implies (#[trigger] self.counts[i])
            == TILE_SIZE by {
            lemma_tile_rows(self.rows, i);
        }
    }

    /// The first `k` row counts add up to the rows of the first `k` tiles.
    proof fn lemma_counts_prefix(self, k: int)
        requires
            self.well_formed(),
            0 <= k <= self.counts.len(),
        ensures
            k < self.counts.len() ==> sum_counts(self.counts.take(k)) == k * 1000,
            k == self.counts.len() ==> sum_counts(self.counts.take(k)) == self.nrows,
        decreases k,
    {
        assert(tile_len() == 1000);
        if k > 0 {
            self.lemma_counts_prefix(k - 1);
            lemma_tile_rows(self.rows, k - 1);
            assert(self.counts.take(k).drop_last() == self.counts.take(k - 1));
            assert(self.counts.take(k).last() == self.counts[k - 1]);
            assert((k - 1) * tile_len() == (k - 1) * 1000) by (nonlinear_arith)
                requires
                    tile_len() == 1000,
            ;
        } else {
            assert(self.counts.take(0) == Seq::<u32>::empty());
        }
    }
}

} // verus!
