use tilegen::encode::OutputFormat;
use tilegen::gpu::{
    mip_passes, read_back, upload_layout, MipPass, TILE_BYTES, TILE_ROW_BYTES,
};
use tilegen::grid::{
    all_tiles, batches, num_tiles, ZoomLevels, ZoomRangeError, BATCH_SIZE, TILE_SIZE,
};
use tilegen::plan::{plan_zoom, tile_path};

#[test]
fn each_level_doubles_the_tiles() {
    assert_eq!(num_tiles(0), 1);
    assert_eq!(num_tiles(4), 16);
    assert_eq!(num_tiles(31), 1 << 31);
}

#[test]
fn tiles_come_column_by_column() {
    assert_eq!(all_tiles(1), vec![(0, 0)]);
    assert_eq!(all_tiles(2), vec![(0, 0), (0, 1), (1, 0), (1, 1)]);
    let n: u32 = 13;
    let expected: Vec<(u32, u32)> = (0..n).flat_map(|x| (0..n).map(move |y| (x, y))).collect();
    assert_eq!(all_tiles(n), expected);
    assert!(all_tiles(0).is_empty());
}

#[test]
fn each_tile_stands_at_its_place() {
    let tiles = all_tiles(16);
    assert_eq!(tiles.len(), 256);
    for x in 0..16u32 {
        for y in 0..16u32 {
            assert_eq!(tiles[(x * 16 + y) as usize], (x, y));
        }
    }
}

#[test]
fn batches_are_chunks() {
    for n in [1u32, 8, 9, 16, 20] {
        let tiles = all_tiles(n);
        let expected: Vec<Vec<(u32, u32, u32)>> = tiles
            .chunks(BATCH_SIZE)
            .map(|chunk| chunk.iter().map(|&(x, y)| (x, y, n)).collect())
            .collect();
        assert_eq!(batches(&tiles, n), expected);
    }
    assert!(batches(&Vec::new(), 1).is_empty());
}

#[test]
fn batches_lose_nothing() {
    let tiles = all_tiles(20);
    let cut = batches(&tiles, 20);
    assert_eq!(cut.len(), 7);
    assert_eq!(cut[0].len(), 64);
    assert_eq!(cut[6].len(), 16);
    let joined: Vec<(u32, u32)> = cut.concat().iter().map(|t| (t.0, t.1)).collect();
    assert_eq!(joined, tiles);
}

#[test]
fn zoom_levels_are_inclusive() {
    let mut levels = ZoomLevels::new(2, 4).unwrap();
    assert_eq!(levels.take_next(), Some(2));
    assert_eq!(levels.take_next(), Some(3));
    assert_eq!(levels.take_next(), Some(4));
    assert_eq!(levels.take_next(), None);
    assert_eq!(levels.take_next(), None);
    let mut last = ZoomLevels::new(u32::MAX, u32::MAX).unwrap();
    assert_eq!(last.take_next(), Some(u32::MAX));
    assert_eq!(last.take_next(), None);
}

#[test]
fn reversed_zoom_levels_are_refused() {
    assert_eq!(ZoomLevels::new(3, 2).unwrap_err(), ZoomRangeError::MinAboveMax);
}

#[test]
fn mip_levels_are_counted_as_logarithms() {
    for side in 1..=8192u32 {
        let layout = upload_layout(side, 1);
        assert_eq!(layout.mip_level_count, (side as f32).log2().floor() as u32 + 1);
        assert_eq!(upload_layout(1, side).mip_level_count, layout.mip_level_count);
        assert_eq!(layout.bytes_per_row, side * 4);
        assert_eq!((layout.width, layout.height), (side, 1));
    }
}

#[test]
fn mip_chain_ends_at_one_pixel() {
    for side in [1u32, 2, 3, 255, 256, 257, 8192] {
        let count = upload_layout(side, side).mip_level_count;
        assert_eq!(side >> (count - 1), 1);
    }
}

#[test]
fn mip_levels_are_filled_from_the_one_before() {
    assert!(mip_passes(0).is_empty());
    assert!(mip_passes(1).is_empty());
    assert_eq!(
        mip_passes(4),
        vec![
            MipPass { source: 0, target: 1 },
            MipPass { source: 1, target: 2 },
            MipPass { source: 2, target: 3 },
        ]
    );
}

#[test]
fn rendered_tiles_are_read_back() {
    assert_eq!(TILE_BYTES, (TILE_SIZE * TILE_SIZE * 4) as u64);
    assert_eq!(TILE_ROW_BYTES, TILE_SIZE * 4);
    assert_eq!(TILE_ROW_BYTES % 256, 0);
    let bytes: Vec<u8> = (0..TILE_BYTES + 3).map(|k| (k % 251) as u8).collect();
    let tile = read_back(bytes.clone()).unwrap();
    assert_eq!((tile.width(), tile.height()), (256, 256));
    assert_eq!(tile.bytes().as_slice(), &bytes[..TILE_BYTES as usize]);
    assert!(read_back(vec![0; TILE_BYTES as usize - 1]).is_none());
}

#[test]
fn every_point_is_in_one_tile() {
    let tiles = all_tiles(8);
    for u in [0u32, 1, 499, 500, 999] {
        let showing: Vec<&(u32, u32)> = tiles
            .iter()
            .filter(|t| t.0 * 1000 <= u * 8 && u * 8 < (t.0 + 1) * 1000 && t.1 == 0)
            .collect();
        assert_eq!(showing, vec![&(u * 8 / 1000, 0)]);
    }
}

#[test]
fn cut_tiles_hold_the_region_they_show() {
    let n: u32 = 8;
    for x in 0..n {
        for i in [0u32, 1, 127, 128, 255] {
            // The middle of column `i` of tile `x` of the scaled map, of which there are `512 * n`
            // halves of a pixel.
            let middle = 2 * (TILE_SIZE * x + i) + 1;
            let showing: Vec<u32> = (0..n)
                .filter(|t| t * 2 * TILE_SIZE * n <= middle * n)
                .filter(|t| middle * n < (t + 1) * 2 * TILE_SIZE * n)
                .collect();
            assert_eq!(showing, vec![x]);
        }
    }
}

#[test]
fn both_sources_write_the_same_paths() {
    let plan = plan_zoom(4);
    let path = |x: u32, y: u32| {
        let path = tile_path(4, x, y, OutputFormat::Webp);
        (path.zoom_dir, path.column_dir, path.file_name)
    };
    let cut: Vec<(String, String, String)> = plan.tiles.iter().map(|t| path(t.0, t.1)).collect();
    let rendered: Vec<(String, String, String)> = batches(&plan.tiles, plan.num_tiles)
        .concat()
        .iter()
        .map(|t| path(t.0, t.1))
        .collect();
    assert_eq!(cut, rendered);
}

#[test]
fn zooming_in_cuts_tiles() {
    let shows = |x: u32, n: u32, u: u32| x * 1000 <= u * n && u * n < (x + 1) * 1000;
    for u in 0..1000 {
        for x in 0..4 {
            assert_eq!(shows(x, 4, u), shows(2 * x, 8, u) || shows(2 * x + 1, 8, u));
        }
    }
}
