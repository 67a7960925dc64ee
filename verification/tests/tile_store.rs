use frost::tile_format::{encode_tile, NULL_SENTINEL, TILE_SIZE};
use frost::tile_store::{StoreError, TileRowStore};
use frost::tile_writer::TileWriter;
use frost::worker::cell_text;
use std::cell::Cell;

fn sample_rows(n: usize) -> Vec<Vec<String>> {
    (0..n).map(|i| vec![format!("a{}", i), format!("b{}", i), format!("c{}", i)]).collect()
}

fn headers() -> Vec<String> {
    vec!["a".to_string(), "b".to_string(), "c".to_string()]
}

fn reader(image: &[u8]) -> impl Fn(u64, usize) -> Option<Vec<u8>> + '_ {
    move |offset: u64, len: usize| {
        let start = offset as usize;
        image.get(start..start.checked_add(len)?).map(|s| s.to_vec())
    }
}

#[test]
fn three_tiles_for_2500_rows() {
    let rows = sample_rows(2500);
    let (mut store, image) = TileRowStore::from_rows(&headers(), rows.clone()).unwrap();
    assert_eq!(store.tile_count(), 3);
    assert_eq!(store.tile_row_counts(), &vec![1000u32, 1000, 500]);
    assert_eq!(store.nrows(), 2500);
    assert_eq!(store.ncols(), 3);
    let read = reader(&image);
    let got = store.get_rows(1998, 4, &read).unwrap();
    assert_eq!(got, rows[1998..2002].to_vec());
}

#[test]
fn every_window_comes_back_as_written() {
    let rows = sample_rows(3210);
    let (mut store, image) = TileRowStore::from_rows(&headers(), rows.clone()).unwrap();
    let read = reader(&image);
    for (start, count) in [(0, 1), (0, 1000), (999, 2), (1000, 1000), (1500, 1700), (3209, 1), (0, 3210), (5, 0)] {
        let got = store.get_rows(start, count, &read).unwrap();
        assert_eq!(got, rows[start..start + count].to_vec());
    }
    let got = store.get_rows(3000, 1000, &read).unwrap();
    assert_eq!(got, rows[3000..].to_vec());
    let got = store.get_rows(3200, usize::MAX, &read).unwrap();
    assert_eq!(got, rows[3200..].to_vec());
}

#[test]
fn reading_at_or_past_the_end_gives_nothing() {
    let rows = sample_rows(1200);
    let (mut store, image) = TileRowStore::from_rows(&headers(), rows).unwrap();
    let read = reader(&image);
    for k in [0usize, 1, 10, 5000] {
        assert_eq!(store.get_rows(1200, k, &read).unwrap(), Vec::<Vec<String>>::new());
        assert_eq!(store.get_rows(99999, k, &read).unwrap(), Vec::<Vec<String>>::new());
    }
    assert_eq!(store.get_rows(3, 0, &read).unwrap(), Vec::<Vec<String>>::new());
}

#[test]
fn an_empty_result_has_no_tiles() {
    let (mut store, image) = TileRowStore::from_rows(&headers(), Vec::new()).unwrap();
    assert_eq!(store.tile_count(), 0);
    assert_eq!(store.nrows(), 0);
    assert_eq!(image.len(), 20);
    let read = reader(&image);
    assert_eq!(store.get_rows(0, 10, &read).unwrap(), Vec::<Vec<String>>::new());
    store.prefetch_for_view(0, 10, &read);
}

#[test]
fn the_file_has_the_documented_layout() {
    let rows = vec![
        vec!["x".to_string(), "\u{e9}".to_string()],
        vec!["".to_string(), "yz".to_string()],
    ];
    let heads = vec!["h1".to_string(), "h2".to_string()];
    let (store, image) = TileRowStore::from_rows(&heads, rows).unwrap();
    let mut want: Vec<u8> = Vec::new();
    want.extend_from_slice(b"SNTR");
    want.extend_from_slice(&1000u32.to_le_bytes());
    want.extend_from_slice(&2u32.to_le_bytes());
    want.extend_from_slice(&2u32.to_le_bytes());
    want.extend_from_slice(&1u32.to_le_bytes());
    want.extend_from_slice(&2u32.to_le_bytes());
    want.extend_from_slice(&2u32.to_le_bytes());
    want.extend_from_slice(&1u32.to_le_bytes());
    want.extend_from_slice(b"x");
    want.extend_from_slice(&2u32.to_le_bytes());
    want.extend_from_slice("\u{e9}".as_bytes());
    want.extend_from_slice(&0u32.to_le_bytes());
    want.extend_from_slice(&2u32.to_le_bytes());
    want.extend_from_slice(b"yz");
    want.extend_from_slice(&20u64.to_le_bytes());
    want.extend_from_slice(&2u32.to_le_bytes());
    assert_eq!(image, want);
    assert_eq!(store.tile_offsets(), &vec![20u64]);
}

#[test]
fn tile_offsets_follow_the_tile_sizes() {
    let rows = sample_rows(2001);
    let (store, image) = TileRowStore::from_rows(&headers(), rows.clone()).unwrap();
    let first = encode_tile(&rows[0..1000].to_vec()).unwrap();
    let second = encode_tile(&rows[1000..2000].to_vec()).unwrap();
    let third = encode_tile(&rows[2000..].to_vec()).unwrap();
    let offsets = store.tile_offsets().clone();
    assert_eq!(offsets.len(), 3);
    assert_eq!(offsets[0], 20);
    assert_eq!(offsets[1], 20 + first.len() as u64);
    assert_eq!(offsets[2], 20 + first.len() as u64 + second.len() as u64);
    for (offset, tile) in offsets.iter().zip([&first, &second, &third]) {
        let at = *offset as usize;
        assert_eq!(&image[at..at + tile.len()], &tile[..]);
    }
    assert_eq!(&image[12..16], &2001u32.to_le_bytes());
    assert_eq!(&image[16..20], &3u32.to_le_bytes());
    let tables = 20 + first.len() + second.len() + third.len();
    assert_eq!(image.len(), tables + 3 * 8 + 3 * 4);
    assert_eq!(&image[tables..tables + 8], &20u64.to_le_bytes());
    assert_eq!(&image[tables + 24..tables + 28], &1000u32.to_le_bytes());
    assert_eq!(&image[tables + 32..tables + 36], &1u32.to_le_bytes());
}

#[test]
fn every_tile_decodes_to_its_row_count() {
    let rows = sample_rows(2500);
    let (mut store, image) = TileRowStore::from_rows(&headers(), rows).unwrap();
    let counts = store.tile_row_counts().clone();
    let offsets = store.tile_offsets().clone();
    let mut sum = 0usize;
    for i in 0..store.tile_count() {
        let at = offsets[i] as usize;
        let n = u32::from_le_bytes(image[at..at + 4].try_into().unwrap());
        let cols = u32::from_le_bytes(image[at + 4..at + 8].try_into().unwrap());
        assert_eq!(n, counts[i]);
        assert_eq!(cols, 3);
        sum += counts[i] as usize;
    }
    assert_eq!(sum, store.nrows());
    let read = reader(&image);
    for i in 0..store.tile_count() {
        let got = store.get_rows(i * TILE_SIZE, TILE_SIZE, &read).unwrap();
        assert_eq!(got.len(), counts[i] as usize);
        assert!(got.iter().all(|r| r.len() == 3));
    }
}

#[test]
fn a_full_last_tile_is_kept() {
    let rows = sample_rows(2000);
    let (mut store, image) = TileRowStore::from_rows(&headers(), rows.clone()).unwrap();
    assert_eq!(store.tile_row_counts(), &vec![1000u32, 1000]);
    drop(image);
    let none = |_: u64, _: usize| -> Option<Vec<u8>> { None };
    assert_eq!(store.get_rows(1990, 10, &none).unwrap(), rows[1990..].to_vec());
    assert_eq!(store.get_rows(0, 2000, &none).unwrap(), rows);
}

#[test]
fn the_first_and_the_last_tile_are_never_read_again() {
    let rows = sample_rows(9500);
    let (mut store, image) = TileRowStore::from_rows(&headers(), rows.clone()).unwrap();
    assert_eq!(store.tile_count(), 10);
    let reads = Cell::new(0usize);
    let read = |offset: u64, len: usize| {
        reads.set(reads.get() + 1);
        let start = offset as usize;
        image.get(start..start + len).map(|s| s.to_vec())
    };
    let mut seed: u64 = 12345;
    for _ in 0..200 {
        seed = seed.wrapping_mul(6364136223846793005).wrapping_add(1442695040888963407);
        let start = (seed >> 33) as usize % 9500;
        let got = store.get_rows(start, 7, &read).unwrap();
        let end = usize::min(9500, start + 7);
        assert_eq!(got, rows[start..end].to_vec());
    }
    assert!(reads.get() > 0);
    let none = |_: u64, _: usize| -> Option<Vec<u8>> { None };
    assert_eq!(store.get_rows(0, 1000, &none).unwrap(), rows[0..1000].to_vec());
    assert_eq!(store.get_rows(9000, 500, &none).unwrap(), rows[9000..].to_vec());
}

#[test]
fn a_cached_tile_is_not_read_again_and_the_oldest_leaves() {
    let rows = sample_rows(9500);
    let (mut store, image) = TileRowStore::from_rows(&headers(), rows.clone()).unwrap();
    let read = reader(&image);
    let none = |_: u64, _: usize| -> Option<Vec<u8>> { None };
    assert_eq!(store.get_rows(1500, 1, &none), Err(StoreError::Read));
    for tile in 1..=6 {
        store.get_rows(tile * 1000, 1, &read).unwrap();
    }
    for tile in 1..=6 {
        assert_eq!(store.get_rows(tile * 1000 + 5, 1, &none).unwrap(), rows[tile * 1000 + 5..tile * 1000 + 6].to_vec());
    }
    store.get_rows(7000, 1, &read).unwrap();
    assert_eq!(store.get_rows(1000, 1, &none), Err(StoreError::Read));
    assert_eq!(store.get_rows(2000, 1, &none).unwrap(), rows[2000..2001].to_vec());
    assert_eq!(store.get_rows(7000, 1, &none).unwrap(), rows[7000..7001].to_vec());
}

#[test]
fn prefetch_brings_the_tiles_around_the_view() {
    let rows = sample_rows(9500);
    let (mut store, image) = TileRowStore::from_rows(&headers(), rows.clone()).unwrap();
    let read = reader(&image);
    let none = |_: u64, _: usize| -> Option<Vec<u8>> { None };
    store.prefetch_for_view(3500, 40, &read);
    assert_eq!(store.get_rows(2000, 3000, &none).unwrap(), rows[2000..5000].to_vec());
    assert_eq!(store.get_rows(5000, 1, &none), Err(StoreError::Read));
    store.prefetch_for_view(0, 0, &none);
    store.prefetch_for_view(usize::MAX, usize::MAX, &none);
}

#[test]
fn a_null_cell_reads_back_as_the_sentinel() {
    let rows = vec![vec![cell_text(Some("1".to_string())), cell_text(None)]];
    let heads = vec!["id".to_string(), "v".to_string()];
    let (mut store, image) = TileRowStore::from_rows(&heads, rows).unwrap();
    let read = reader(&image);
    let got = store.get_rows(0, 1, &read).unwrap();
    assert_eq!(got, vec![vec!["1".to_string(), "<Frost-NULL>".to_string()]]);
    assert_eq!(NULL_SENTINEL, "<Frost-NULL>");
}

#[test]
fn a_row_of_the_wrong_width_is_refused() {
    let rows = vec![vec!["1".to_string(), "2".to_string(), "3".to_string()], vec!["x".to_string()]];
    match TileRowStore::from_rows(&headers(), rows) {
        Err(e) => assert_eq!(e, StoreError::RowWidth),
        Ok(_) => panic!("a short row was taken"),
    }
    let (mut w, _) = TileWriter::new(2).unwrap();
    assert_eq!(w.push_row(vec!["a".to_string()]), Err(StoreError::RowWidth));
    assert_eq!(w.push_row(vec!["a".to_string(), "b".to_string()]), Ok(None));
}

#[test]
fn bytes_that_are_not_the_tile_are_refused() {
    let rows = sample_rows(3500);
    let (mut store, image) = TileRowStore::from_rows(&headers(), rows).unwrap();
    let zeros = |_: u64, len: usize| -> Option<Vec<u8>> { Some(vec![0u8; len]) };
    assert_eq!(store.get_rows(1500, 1, &zeros), Err(StoreError::Corrupt));
    let short = |_: u64, _: usize| -> Option<Vec<u8>> { Some(Vec::new()) };
    assert_eq!(store.get_rows(1500, 1, &short), Err(StoreError::Read));
    let read = reader(&image);
    assert!(store.get_rows(1500, 1, &read).is_ok());
}

#[test]
fn the_writer_hands_out_the_file_piece_by_piece() {
    let rows = sample_rows(2300);
    let (_, image) = TileRowStore::from_rows(&headers(), rows.clone()).unwrap();
    let (mut w, head) = TileWriter::new(3).unwrap();
    let mut file = head;
    assert_eq!(file.len(), 20);
    assert_eq!(&file[12..20], &[0u8; 8]);
    let mut chunks = 0;
    for (i, row) in rows.into_iter().enumerate() {
        match w.push_row(row).unwrap() {
            Some(bytes) => {
                assert_eq!((i + 1) % 1000, 0);
                file.extend_from_slice(&bytes);
                chunks += 1;
            }
            None => assert_ne!((i + 1) % 1000, 0),
        }
    }
    assert_eq!(chunks, 2);
    let (store, tail, head) = w.finish().unwrap();
    file.extend_from_slice(&tail);
    file[..20].copy_from_slice(&head);
    assert_eq!(file, image);
    assert_eq!(store.tile_count(), 3);
}

#[test]
fn too_many_columns_are_refused() {
    match TileWriter::new(u32::MAX as usize + 1) {
        Err(e) => assert_eq!(e, StoreError::TooLarge),
        Ok(_) => panic!("the columns were taken"),
    }
    assert!(TileWriter::new(u32::MAX as usize).is_ok());
}

#[test]
fn rows_in_the_last_tile_come_from_memory() {
    let rows = sample_rows(1001);
    let (mut store, _image) = TileRowStore::from_rows(&headers(), rows.clone()).unwrap();
    assert_eq!(store.tile_row_counts(), &vec![1000u32, 1]);
    let none = |_: u64, _: usize| -> Option<Vec<u8>> { None };
    assert_eq!(store.get_rows(995, 10, &none).unwrap(), rows[995..].to_vec());
}
