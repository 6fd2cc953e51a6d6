use tile_mosaic::grid::BoundingBox;
use tile_mosaic::grid::GridConfig;
use tile_mosaic::grid::expand;
use tile_mosaic::grid::point_to_cell;
use tile_mosaic::grid::cell_coords;
use tile_mosaic::grid::try_expand;

fn test_config() -> GridConfig {
    // The reference point (0, 0) is the top-left corner of cell (5, 7);
    // tiles are 256 px at 2 world units per pixel, so a tile side is 512.
    GridConfig { ref_x: 0, ref_y: 0, ref_row: 5, ref_col: 7, tile_px: 256, resolution: 2 }
}

#[test]
fn anchor_point_maps_to_reference_cell() {
    let cfg = test_config();
    let t = point_to_cell(cfg, 0, 0);
    assert_eq!(t.addr.row, 5);
    assert_eq!(t.addr.col, 7);
    assert_eq!(t.x, 0);
    assert_eq!(t.y, 0);
}

#[test]
fn interior_point_snaps_to_containing_cell() {
    let cfg = test_config();
    // x = 700 lies in the second column right of the anchor; y = -300 in the
    // anchor row.
    let t = point_to_cell(cfg, 700, -300);
    assert_eq!(t.addr.row, 5);
    assert_eq!(t.addr.col, 8);
    assert_eq!(t.x, 512);
    assert_eq!(t.y, 0);
}

#[test]
fn snap_is_idempotent() {
    let cfg = test_config();
    for &(x, y) in &[(0i64, 0i64), (700, -300), (-1, 1), (511, -511), (12345, -6789)] {
        let t = point_to_cell(cfg, x, y);
        let again = point_to_cell(cfg, t.x, t.y);
        assert_eq!(again.addr, t.addr);
        assert_eq!(again.x, t.x);
        assert_eq!(again.y, t.y);
    }
}

#[test]
fn negative_offsets_floor_toward_lower_cells() {
    let cfg = test_config();
    let t = point_to_cell(cfg, -1, 1);
    assert_eq!(t.addr.row, 4);
    assert_eq!(t.addr.col, 6);
    assert_eq!(t.x, -512);
    assert_eq!(t.y, 512);
}

#[test]
fn cell_coords_recomputes_exact_top_left() {
    let cfg = test_config();
    let t = cell_coords(cfg, 6, 9);
    assert_eq!(t.addr.row, 6);
    assert_eq!(t.addr.col, 9);
    assert_eq!(t.x, (9 - 7) * 512);
    assert_eq!(t.y, -(6 - 5) * 512);
}

#[test]
fn single_tile_extent_expands_to_one_tile() {
    let cfg = test_config();
    // Exactly the integer extent of cell (5, 7): x in [0, 511], y in [-511, 0].
    let b = BoundingBox { min_x: 0, min_y: -511, max_x: 511, max_y: 0 };
    let tiles = expand(cfg, b);
    assert_eq!(tiles.len(), 1);
    assert_eq!(tiles[0].addr.row, 5);
    assert_eq!(tiles[0].addr.col, 7);
    assert_eq!(tiles[0].x, 0);
    assert_eq!(tiles[0].y, 0);
}

#[test]
fn two_by_two_span_expands_row_major() {
    let cfg = test_config();
    let b = BoundingBox { min_x: 0, min_y: -1023, max_x: 1023, max_y: 0 };
    let tiles = expand(cfg, b);
    assert_eq!(tiles.len(), 4);
    let addrs: Vec<(u32, u32)> = tiles.iter().map(|t| (t.addr.row, t.addr.col)).collect();
    assert_eq!(addrs, vec![(5, 7), (5, 8), (6, 7), (6, 8)]);
    assert_eq!((tiles[0].x, tiles[0].y), (0, 0));
    assert_eq!((tiles[1].x, tiles[1].y), (512, 0));
    assert_eq!((tiles[2].x, tiles[2].y), (0, -512));
    assert_eq!((tiles[3].x, tiles[3].y), (512, -512));
}

#[test]
fn three_by_two_span_has_no_gaps_or_duplicates() {
    let cfg = test_config();
    // Three tile heights, two tile widths, anchored at the reference corner.
    let b = BoundingBox { min_x: 0, min_y: -(3 * 512 - 1), max_x: 2 * 512 - 1, max_y: 0 };
    let tiles = expand(cfg, b);
    assert_eq!(tiles.len(), 6);
    let mut expected: Vec<(u32, u32)> = Vec::new();
    for row in 5..8u32 {
        for col in 7..9u32 {
            expected.push((row, col));
        }
    }
    let addrs: Vec<(u32, u32)> = tiles.iter().map(|t| (t.addr.row, t.addr.col)).collect();
    assert_eq!(addrs, expected);
}

#[test]
fn unaligned_span_still_covers_its_corners() {
    let cfg = test_config();
    let b = BoundingBox { min_x: 100, min_y: -100, max_x: 600, max_y: -50 };
    let tiles = expand(cfg, b);
    // Corner columns 7 and 8, single row 5.
    assert_eq!(tiles.len(), 2);
    assert_eq!((tiles[0].addr.row, tiles[0].addr.col), (5, 7));
    assert_eq!((tiles[1].addr.row, tiles[1].addr.col), (5, 8));
}

#[test]
fn checked_expansion_rejects_an_unaddressable_box() {
    let cfg = test_config();
    // A box far above the reference row maps to negative rows: no tiles.
    let b = BoundingBox { min_x: 0, min_y: 100_000, max_x: 0, max_y: 100_000 };
    assert!(try_expand(cfg, b).is_none());
}

#[test]
fn checked_expansion_agrees_with_expansion() {
    let cfg = test_config();
    let b = BoundingBox { min_x: -700, min_y: -1023, max_x: 1023, max_y: 400 };
    let checked = try_expand(cfg, b).expect("box is addressable");
    let plain = expand(cfg, b);
    assert_eq!(checked.len(), plain.len());
    for (a, c) in checked.iter().zip(plain.iter()) {
        assert_eq!(a.addr, c.addr);
        assert_eq!((a.x, a.y), (c.x, c.y));
    }
}

#[test]
fn degenerate_bbox_yields_exactly_one_tile() {
    let cfg = test_config();
    let b = BoundingBox { min_x: 0, min_y: 0, max_x: 0, max_y: 0 };
    let tiles = expand(cfg, b);
    assert_eq!(tiles.len(), 1);
    assert_eq!(tiles[0].addr.row, 5);
    assert_eq!(tiles[0].addr.col, 7);
}
