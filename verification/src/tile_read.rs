//! Reading a tile through a function that returns the bytes of the file.

use vstd::prelude::*;
use vstd::bytes::{lemma_auto_spec_u32_to_from_le_bytes, spec_u32_from_le_bytes};
use vstd::utf8::encode_utf8;
use crate::text::byte_len;
use crate::tile_format::{
    cell_image, cell_offset, lemma_cell_in_tile, lemma_row_end, tile_cols, tile_fits, tile_image,
    u32_image, Rows,
};
use crate::bytes::{take_u32, text_of};
use crate::tile_store::{tile_at, uniform, StoreError};

verus! {

/// `read` returns the bytes of `file`: asked for `l` bytes at offset `o`
/// within the file, it returns exactly those.
pub open spec fn reads_file<F: Fn(u64, usize) -> Option<Vec<u8>>>(read: &F, file: Seq<u8>) -> bool {
    forall|o: u64, l: usize, r: Option<Vec<u8>>|
        #[trigger] read.ensures((o, l), r) && o + l <= file.len() ==> r is Some && r.unwrap()@
            == file.subrange(o as int, o + l)
}

/// `read` can be called with every offset and length.
pub open spec fn reads_anywhere<F: Fn(u64, usize) -> Option<Vec<u8>>>(read: &F) -> bool {
    forall|o: u64, l: usize| #[trigger] read.requires((o, l))
}

/// Reads `len` bytes at `pos`.
fn read_exact<F: Fn(u64, usize) -> Option<Vec<u8>>>(read: &F, pos: u64, len: usize) -> (r: Result<
    Vec<u8>,
    StoreError,
>)
    requires
        reads_anywhere(read),
    ensures
        r is Ok ==> r.unwrap()@.len() == len,
        r matches Err(e) ==> e == StoreError::Read,
        forall|file: Seq<u8>|
            reads_file(read, file) && pos + len <= file.len() ==> r is Ok && r.unwrap()@
                == #[trigger] file.subrange(pos as int, pos + len),
{
    match read(pos, len) {
        Some(bytes) => {
            if bytes.len() == len {
                Ok(bytes)
            } else {
                Err(StoreError::Read)
            }
        },
        None => Err(StoreError::Read),
    }
}

/// `read` returns the bytes of `file`, and the tile at `offset` in it is a
/// tile of `rows`, which are `want_rows` rows of `want_cols` cells each.
pub open spec fn tile_readable<F: Fn(u64, usize) -> Option<Vec<u8>>>(
    read: &F,
    file: Seq<u8>,
    offset: int,
    rows: Rows,
    want_rows: int,
    want_cols: int,
) -> bool {
    &&& reads_file(read, file)
    &&& file.len() <= u64::MAX
    &&& tile_at(file, offset, rows)
    &&& rows.len() == want_rows
    &&& want_rows > 0
    &&& uniform(rows, want_cols)
    &&& tile_fits(rows)
}

/// What the first eight bytes of a tile hold, and where its cells stand in the file.
proof fn lemma_tile_in_file(file: Seq<u8>, offset: int, rows: Rows)
    requires
        tile_at(file, offset, rows),
        tile_fits(rows),
    ensures
        offset + 8 <= file.len(),
        spec_u32_from_le_bytes(file.subrange(offset, offset + 4)) == rows.len(),
        spec_u32_from_le_bytes(file.subrange(offset + 4, offset + 8)) == tile_cols(rows),
        forall|r: int, c: int|
            0 <= r < rows.len() && 0 <= c < rows[r].len() ==> {
                let p = offset + #[trigger] cell_offset(rows, r, c);
                let n = byte_len(rows[r][c]) as int;
                &&& p + 4 + n <= file.len()
                &&& spec_u32_from_le_bytes(file.subrange(p, p + 4)) == n
                &&& file.subrange(p + 4, p + 4 + n) == encode_utf8(rows[r][c])
                &&& cell_offset(rows, r, c + 1) == cell_offset(rows, r, c) + 4 + n
            },
{
    lemma_auto_spec_u32_to_from_le_bytes();
    let img = tile_image(rows);
    let a = u32_image(rows.len() as int);
    let b = u32_image(tile_cols(rows));
    assert(img.subrange(0, 4) == a);
    assert(img.subrange(4, 8) == b);
    assert(file.subrange(offset, offset + 4) == img.subrange(0, 4));
    assert(file.subrange(offset + 4, offset + 8) == img.subrange(4, 8));
    assert forall|r: int, c: int| 0 <= r < rows.len() && 0 <= c < rows[r].len() implies {
        let p = offset + #[trigger] cell_offset(rows, r, c);
        let n = byte_len(rows[r][c]) as int;
        &&& p + 4 + n <= file.len()
        &&& spec_u32_from_le_bytes(file.subrange(p, p + 4)) == n
        &&& file.subrange(p + 4, p + 4 + n) == encode_utf8(rows[r][c])
        &&& cell_offset(rows, r, c + 1) == cell_offset(rows, r, c) + 4 + n
    } by {
        lemma_cell_in_tile(rows, r, c);
        let q = cell_offset(rows, r, c);
        let n = byte_len(rows[r][c]) as int;
        let ci = cell_image(rows[r][c]);
        assert(ci.len() == 4 + n);
        assert(byte_len(rows[r][c]) <= u32::MAX);
        assert(ci.subrange(0, 4) == u32_image(n));
        assert(ci.subrange(4, 4 + n) == encode_utf8(rows[r][c]));
        assert(file.subrange(offset + q, offset + q + 4 + n) == img.subrange(q, q + 4 + n));
        assert(file.subrange(offset + q, offset + q + 4) == file.subrange(
            offset + q,
            offset + q + 4 + n,
        ).subrange(0, 4));
        assert(file.subrange(offset + q + 4, offset + q + 4 + n) == file.subrange(
            offset + q,
            offset + q + 4 + n,
        ).subrange(4, 4 + n));
    }
}

/// Reads the four bytes of a number at `pos`.
fn read_u32<F: Fn(u64, usize) -> Option<Vec<u8>>>(read: &F, pos: u64) -> (r: Result<
    u32,
    StoreError,
>)
    requires
        reads_anywhere(read),
    ensures
        r matches Err(e) ==> e == StoreError::Read || e == StoreError::Corrupt,
        forall|file: Seq<u8>|
            reads_file(read, file) && pos + 4 <= file.len() ==> r == Ok::<u32, StoreError>(
                spec_u32_from_le_bytes(#[trigger] file.subrange(pos as int, pos + 4)),
            ),
{
    let bytes = read_exact(read, pos, 4)?;
    assert(bytes@.subrange(0, 4) == bytes@);
    match take_u32(bytes.as_slice()) {
        Some(x) => Ok(x),
        None => Err(StoreError::Corrupt),
    }
}

/// Reads the tile at `offset`, which is to hold `want_rows` rows of
/// `want_cols` cells. Fails if the reader fails or if the tile says otherwise.
pub(crate) fn load_tile<F: Fn(u64, usize) -> Option<Vec<u8>>>(
    read: &F,
    offset: u64,
    want_rows: usize,
    want_cols: usize,
    Ghost(file): Ghost<Seq<u8>>,
    Ghost(rows): Ghost<Rows>,
) -> (res: Result<Vec<Vec<String>>, StoreError>)
    requires
        reads_anywhere(read),
    ensures
        res is Ok ==> res.unwrap().len() == want_rows,
        res matches Err(e) ==> e == StoreError::Read || e == StoreError::Corrupt,
        tile_readable(read, file, offset as int, rows, want_rows as int, want_cols as int)
            ==> res is Ok && res.unwrap().deep_view() == rows,
{
    let ghost good = tile_readable(
        read,
        file,
        offset as int,
        rows,
        want_rows as int,
        want_cols as int,
    );
    proof {
        if good {
            lemma_tile_in_file(file, offset as int, rows);
            assert(rows[0].len() == want_cols);
            assert(rows.take(0) == Seq::<Seq<Seq<char>>>::empty());
            assert(rows[0].take(0) == Seq::<Seq<char>>::empty());
        }
    }
    let row_count = read_u32(read, offset)?;
    let pos4 = match offset.checked_add(4) {
        Some(p) => p,
        None => {
            return Err(StoreError::Corrupt);
        },
    };
    proof {
        if good {
            assert(file.subrange(pos4 as int, pos4 + 4) == file.subrange(offset + 4, offset + 8));
        }
    }
    let col_count = read_u32(read, pos4)?;
    if row_count as usize != want_rows || col_count as usize != want_cols {
        return Err(StoreError::Corrupt);
    }
    let mut pos: u64 = match pos4.checked_add(4) {
        Some(p) => p,
        None => {
            return Err(StoreError::Corrupt);
        },
    };
    let mut out: Vec<Vec<String>> = Vec::new();
    let mut r: usize = 0;
    while r < want_rows
        invariant
            r <= want_rows,
            out.len() == r,
            reads_anywhere(read),
            good == tile_readable(
                read,
                file,
                offset as int,
                rows,
                want_rows as int,
                want_cols as int,
            ),
            good ==> out.deep_view() == rows.take(r as int),
            good && r < want_rows ==> pos == offset + cell_offset(rows, r as int, 0),
        decreases want_rows - r,
    {
        let mut row: Vec<String> = Vec::new();
        let mut c: usize = 0;
        proof {
            if good {
                assert(rows[r as int].take(0) == Seq::<Seq<char>>::empty());
                assert(row.deep_view() == rows[r as int].take(0));
            }
        }
        while c < want_cols
            invariant
                c <= want_cols,
                r < want_rows,
                row.len() == c,
                reads_anywhere(read),
                good == tile_readable(
                    read,
                    file,
                    offset as int,
                    rows,
                    want_rows as int,
                    want_cols as int,
                ),
                good ==> row.deep_view() == rows[r as int].take(c as int),
                good ==> pos == offset + cell_offset(rows, r as int, c as int),
            decreases want_cols - c,
        {
            proof {
                if good {
                    lemma_tile_in_file(file, offset as int, rows);
                    assert(rows[r as int].len() == want_cols);
                    let p = offset + cell_offset(rows, r as int, c as int);
                    let n = byte_len(rows[r as int][c as int]) as int;
                    assert(spec_u32_from_le_bytes(file.subrange(pos as int, pos + 4)) == n);
                    assert(file.subrange(pos + 4, pos + 4 + n) == encode_utf8(
                        rows[r as int][c as int],
                    ));
                }
            }
            let len = read_u32(read, pos)? as usize;
            let data_pos = match pos.checked_add(4) {
                Some(p) => p,
                None => {
                    return Err(StoreError::Corrupt);
                },
            };
            let data = read_exact(read, data_pos, len)?;
            let next = match data_pos.checked_add(len as u64) {
                Some(p) => p,
                None => {
                    return Err(StoreError::Corrupt);
                },
            };
            let cell = text_of(data.as_slice());
            proof {
                if good {
                    let want = rows[r as int][c as int];
                    assert(data@ == encode_utf8(want));
                    vstd::utf8::encode_utf8_valid_utf8(want);
                    vstd::utf8::encode_utf8_decode_utf8(want);
                    assert(cell@ == want);
                    assert(row.deep_view().push(cell@) =~= rows[r as int].take(c + 1));
                }
            }
            let ghost before = row.deep_view();
            row.push(cell);
            assert(row.deep_view() =~= before.push(cell@));
            pos = next;
            c = c + 1;
        }
        proof {
            if good {
                assert(rows[r as int].len() == want_cols);
                assert(rows[r as int].take(want_cols as int) == rows[r as int]);
                lemma_row_end(rows, r as int);
                assert(out.deep_view().push(row.deep_view()) =~= rows.take(r + 1));
            }
        }
        let ghost before = out.deep_view();
        let ghost rv = row.deep_view();
        out.push(row);
        assert(out.deep_view() =~= before.push(rv));
        r = r + 1;
    }
    proof {
        if good {
            assert(rows.take(want_rows as int) == rows);
        }
    }
    Ok(out)
}

} // verus!
