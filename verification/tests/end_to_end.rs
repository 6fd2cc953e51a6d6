use tile_mosaic::client::HttpReply;
use tile_mosaic::client::ReplyAction;
use tile_mosaic::client::decide_reply;
use tile_mosaic::descriptor::DescriptorError;
use tile_mosaic::descriptor::build_mosaic_descriptor;
use tile_mosaic::grid::BoundingBox;
use tile_mosaic::grid::GridConfig;
use tile_mosaic::grid::expand;
use tile_mosaic::scheduler::FetchScheduler;

fn anchor_config() -> GridConfig {
    // (0, 0) is the top-left corner of the anchor cell (5, 7).
    GridConfig { ref_x: 0, ref_y: 0, ref_row: 5, ref_col: 7, tile_px: 256, resolution: 2 }
}

#[test]
fn degenerate_bbox_maps_to_the_anchor_cell() {
    let cfg = anchor_config();
    let b = BoundingBox { min_x: 0, min_y: 0, max_x: 0, max_y: 0 };
    let tiles = expand(cfg, b);
    assert_eq!(tiles.len(), 1);
    assert_eq!(tiles[0].addr.row, cfg.ref_row);
    assert_eq!(tiles[0].addr.col, cfg.ref_col);
}

#[test]
fn two_by_two_span_yields_four_tiles_row_major() {
    let cfg = anchor_config();
    let b = BoundingBox { min_x: 0, min_y: -1023, max_x: 1023, max_y: 0 };
    let tiles = expand(cfg, b);
    let addrs: Vec<(u32, u32)> = tiles.iter().map(|t| (t.addr.row, t.addr.col)).collect();
    assert_eq!(addrs, vec![(5, 7), (5, 8), (6, 7), (6, 8)]);
}

#[test]
fn a_fetch_that_always_fails_refuses_the_descriptor() {
    let cfg = anchor_config();
    let b = BoundingBox { min_x: 0, min_y: -1023, max_x: 1023, max_y: 0 };
    let tiles = expand(cfg, b);
    let mut sched = FetchScheduler::new(tiles.len(), 2);
    loop {
        while let Some(idx) = sched.try_start() {
            // A fetch stub that always fails: the server answers 503 for
            // every tile.
            let action = decide_reply(HttpReply::Status { code: 503 });
            match action {
                ReplyAction::Fail { outcome } => sched.complete(idx, outcome),
                ReplyAction::SaveBody => panic!("a 503 reply must not be saved"),
            }
        }
        if sched.is_done() {
            break;
        }
    }
    assert_eq!(sched.success_count(), 0);
    assert_eq!(sched.failure_count(), tiles.len());
    let r = build_mosaic_descriptor(&tiles, sched.success_count(), "out/tiles", cfg.tile_px);
    assert_eq!(r.err(), Some(DescriptorError::NoSuccessfulTiles));
}
