//! Tile-grid computation: snapping projected-plane points to grid cells and
//! expanding a bounding box into the row-major list of tiles it covers.
//!
//! The grid is anchored at one reference tile: a fixed reference point
//! `(ref_x, ref_y)` is the real-world top-left corner of the fixed reference
//! cell `(ref_row, ref_col)`. A cell's real-world side length is
//! `tile_px * resolution`. Rows grow downward (decreasing y), columns grow
//! rightward (increasing x); a point belongs to the cell whose footprint
//! contains it, so every tile lies on an exact grid regardless of input
//! precision.

use vstd::prelude::*;
use vstd::arithmetic::div_mod::lemma_fundamental_div_mod;
use vstd::arithmetic::div_mod::lemma_fundamental_div_mod_converse;
use vstd::arithmetic::div_mod::lemma_mod_bound;
use vstd::arithmetic::div_mod::lemma_div_nonincreasing;
use vstd::arithmetic::div_mod::lemma_div_pos_is_pos;

verus! {

/// Largest coordinate magnitude the mapper accepts (a machine limit keeping
/// all intermediate arithmetic inside `i64`).
pub const MAX_COORD: i64 = 0x100_0000_0000;

/// Largest tile pixel count and ground resolution accepted by a grid
/// configuration (machine limits; their product is a cell's side length).
pub const MAX_TILE_PX: u32 = 4096;

pub const MAX_RESOLUTION: u32 = 4096;

/// The fixed anchor of the remote server's tiling scheme: one reference point
/// known to be the top-left corner of one reference cell, plus the scheme's
/// tile pixel size and ground resolution (world units per pixel).
#[derive(Clone, Copy)]
pub struct GridConfig {
    pub ref_x: i64,
    pub ref_y: i64,
    pub ref_row: u32,
    pub ref_col: u32,
    pub tile_px: u32,
    pub resolution: u32,
}

/// A tile's (row, column) address in the remote server's tiling scheme.
#[derive(Clone, Copy, PartialEq, Eq, Structural, Debug)]
pub struct TileAddress {
    pub row: u32,
    pub col: u32,
}

/// A tile address together with the real-world coordinate of the tile's
/// top-left corner, derived exactly from the address and the fixed anchor.
#[derive(Clone, Copy, PartialEq, Eq, Structural, Debug)]
pub struct TileCoords {
    pub addr: TileAddress,
    pub x: i64,
    pub y: i64,
}

/// A caller-supplied bounding box in the projected coordinate system,
/// with `min <= max` on each axis.
#[derive(Clone, Copy)]
pub struct BoundingBox {
    pub min_x: i64,
    pub min_y: i64,
    pub max_x: i64,
    pub max_y: i64,
}

pub open spec fn coord_ok(v: int) -> bool {
    -(MAX_COORD as int) <= v <= MAX_COORD as int
}

impl GridConfig {
    /// A cell's real-world side length: pixel count times ground resolution.
    pub open spec fn side(self) -> int {
        self.tile_px * self.resolution
    }

    pub open spec fn wf(self) -> bool {
        &&& 0 < self.tile_px <= MAX_TILE_PX
        &&& 0 < self.resolution <= MAX_RESOLUTION
        &&& coord_ok(self.ref_x as int)
        &&& coord_ok(self.ref_y as int)
    }
}

impl BoundingBox {
    pub open spec fn wf(self) -> bool {
        &&& self.min_x <= self.max_x
        &&& self.min_y <= self.max_y
        &&& coord_ok(self.min_x as int)
        &&& coord_ok(self.min_y as int)
        &&& coord_ok(self.max_x as int)
        &&& coord_ok(self.max_y as int)
    }
}

/// The column of the cell whose footprint contains a point with this x
/// coordinate (integer division floors, so the footprint is half-open on the
/// right).
pub open spec fn col_of_x(cfg: GridConfig, x: int) -> int {
    cfg.ref_col + (x - cfg.ref_x) / cfg.side()
}

/// The row of the cell whose footprint contains a point with this y
/// coordinate; the y offset is negated because rows grow downward while y
/// grows upward (half-open on the bottom).
pub open spec fn row_of_y(cfg: GridConfig, y: int) -> int {
    cfg.ref_row + (cfg.ref_y - y) / cfg.side()
}

/// The real-world x coordinate of a cell's top-left corner.
pub open spec fn top_left_x(cfg: GridConfig, col: int) -> int {
    cfg.ref_x + (col - cfg.ref_col) * cfg.side()
}

/// The real-world y coordinate of a cell's top-left corner.
pub open spec fn top_left_y(cfg: GridConfig, row: int) -> int {
    cfg.ref_y - (row - cfg.ref_row) * cfg.side()
}

/// The `TileCoords` value the grid assigns to a cell.
pub open spec fn tile_for_cell(cfg: GridConfig, row: int, col: int) -> TileCoords {
    TileCoords {
        addr: TileAddress { row: row as u32, col: col as u32 },
        x: top_left_x(cfg, col) as i64,
        y: top_left_y(cfg, row) as i64,
    }
}

/// A well-formed configuration's cell side length is positive and bounded.
pub proof fn lemma_side_bounds(cfg: GridConfig)
    requires
        cfg.wf(),
    ensures
        0 < cfg.side() <= (MAX_TILE_PX as int) * (MAX_RESOLUTION as int),
{
    assert(0 < cfg.tile_px * cfg.resolution <= (MAX_TILE_PX as int) * (MAX_RESOLUTION as int))
        by (nonlinear_arith)
        requires
            0 < cfg.tile_px <= MAX_TILE_PX,
            0 < cfg.resolution <= MAX_RESOLUTION,
    ;
}

/// The mathematical quotient of a negative numerator is the negated,
/// rounded-up quotient of its magnitude.
proof fn lemma_neg_floor_div(a: int, d: int)
    requires
        a < 0,
        0 < d,
    ensures
        0 <= (-a + d - 1) / d <= -a,
        a / d == -((-a + d - 1) / d),
{
    lemma_fundamental_div_mod(a, d);
    lemma_mod_bound(a, d);
    let qe = a / d;
    let re = a % d;
    assert(-a + d - 1 == (-qe) * d + (d - 1 - re)) by (nonlinear_arith)
        requires
            a == d * qe + re,
    ;
    lemma_fundamental_div_mod_converse(-a + d - 1, d, -qe, d - 1 - re);
    lemma_div_pos_is_pos(-a + d - 1, d);
    assert(a <= qe) by (nonlinear_arith)
        requires
            a == d * qe + re,
            0 <= re < d,
            a < 0,
    ;
}

/// Floor division of a possibly negative numerator by a positive divisor
/// (the mathematical quotient, unlike `i64` division which truncates
/// toward zero).
fn floor_div(a: i64, d: i64) -> (q: i64)
    requires
        0 < d <= (MAX_TILE_PX as i64) * (MAX_RESOLUTION as i64),
        -(4 * MAX_COORD as int) <= a as int <= 4 * MAX_COORD as int,
    ensures
        q as int == a as int / d as int,
        -(5 * MAX_COORD as int) <= q as int <= 4 * MAX_COORD as int,
{
    let du: u64 = d as u64;
    if a >= 0 {
        let q0: u64 = (a as u64) / du;
        proof {
            lemma_div_nonincreasing(a as int, d as int);
            lemma_div_pos_is_pos(a as int, d as int);
        }
        q0 as i64
    } else {
        let m: u64 = (-a) as u64;
        proof {
            lemma_neg_floor_div(a as int, d as int);
        }
        let q0: u64 = (m + du - 1) / du;
        -(q0 as i64)
    }
}

/// Every point of a cell's half-open footprint maps back to that cell:
/// mapping a cell's top-left coordinate (or any point the cell contains)
/// yields the cell itself, so the grid snap is idempotent.
pub proof fn lemma_footprint_maps_to_cell(cfg: GridConfig, row: int, col: int, x: int, y: int)
    requires
        cfg.wf(),
        top_left_x(cfg, col) <= x < top_left_x(cfg, col) + cfg.side(),
        top_left_y(cfg, row) - cfg.side() < y <= top_left_y(cfg, row),
    ensures
        col_of_x(cfg, x) == col,
        row_of_y(cfg, y) == row,
{
    lemma_side_bounds(cfg);
    let s = cfg.side();
    let tx = x - top_left_x(cfg, col);
    assert(x - cfg.ref_x == (col - cfg.ref_col) * s + tx);
    lemma_fundamental_div_mod_converse(x - cfg.ref_x, s, col - cfg.ref_col, tx);
    let ty = top_left_y(cfg, row) - y;
    assert(cfg.ref_y - y == (row - cfg.ref_row) * s + ty) by {
        assert(cfg.ref_y - top_left_y(cfg, row) == (row - cfg.ref_row) * s);
    }
    lemma_fundamental_div_mod_converse(cfg.ref_y - y, s, row - cfg.ref_row, ty);
}

/// Idempotence of the grid snap: mapping any point to its cell, taking that
/// cell's top-left coordinate, and mapping again yields the same cell.
pub proof fn lemma_snap_idempotent(cfg: GridConfig, x: int, y: int)
    requires
        cfg.wf(),
    ensures
        col_of_x(cfg, top_left_x(cfg, col_of_x(cfg, x))) == col_of_x(cfg, x),
        row_of_y(cfg, top_left_y(cfg, row_of_y(cfg, y))) == row_of_y(cfg, y),
{
    lemma_side_bounds(cfg);
    lemma_footprint_maps_to_cell(
        cfg,
        row_of_y(cfg, y),
        col_of_x(cfg, x),
        top_left_x(cfg, col_of_x(cfg, x)),
        top_left_y(cfg, row_of_y(cfg, y)),
    );
}

/// A point lies inside the footprint of the cell it maps to.
pub proof fn lemma_point_in_own_cell(cfg: GridConfig, x: int, y: int)
    requires
        cfg.wf(),
    ensures
        top_left_x(cfg, col_of_x(cfg, x)) <= x < top_left_x(cfg, col_of_x(cfg, x)) + cfg.side(),
        top_left_y(cfg, row_of_y(cfg, y)) - cfg.side() < y <= top_left_y(cfg, row_of_y(cfg, y)),
{
    lemma_side_bounds(cfg);
    let s = cfg.side();
    lemma_fundamental_div_mod(x - cfg.ref_x, s);
    lemma_mod_bound(x - cfg.ref_x, s);
    assert(((x - cfg.ref_x) / s) * s == s * ((x - cfg.ref_x) / s)) by (nonlinear_arith);
    lemma_fundamental_div_mod(cfg.ref_y - y, s);
    lemma_mod_bound(cfg.ref_y - y, s);
    assert(((cfg.ref_y - y) / s) * s == s * ((cfg.ref_y - y) / s)) by (nonlinear_arith);
}

/// Translates a projected-plane point into the grid cell containing it and
/// recomputes the cell's exact top-left real-world coordinate from the cell
/// address (not from the input point), so all tiles lie on an exact grid.
pub fn point_to_cell(cfg: GridConfig, x: i64, y: i64) -> (t: TileCoords)
    requires
        cfg.wf(),
        coord_ok(x as int),
        coord_ok(y as int),
        0 <= row_of_y(cfg, y as int) <= u32::MAX,
        0 <= col_of_x(cfg, x as int) <= u32::MAX,
    ensures
        t == tile_for_cell(cfg, row_of_y(cfg, y as int), col_of_x(cfg, x as int)),
        t.addr.row == row_of_y(cfg, y as int),
        t.addr.col == col_of_x(cfg, x as int),
        t.x as int == top_left_x(cfg, col_of_x(cfg, x as int)),
        t.y as int == top_left_y(cfg, row_of_y(cfg, y as int)),
        t.x <= x < t.x + cfg.side(),
        t.y - cfg.side() < y <= t.y,
{
    proof {
        lemma_side_bounds(cfg);
    }
    let side: i64 = (cfg.tile_px as i64) * (cfg.resolution as i64);
    let dcol: i64 = floor_div(x - cfg.ref_x, side);
    let drow: i64 = floor_div(cfg.ref_y - y, side);
    proof {
        lemma_point_in_own_cell(cfg, x as int, y as int);
    }
    let row: u32 = (cfg.ref_row as i64 + drow) as u32;
    let col: u32 = (cfg.ref_col as i64 + dcol) as u32;
    let tlx: i64 = cfg.ref_x + dcol * side;
    let tly: i64 = cfg.ref_y - drow * side;
    TileCoords { addr: TileAddress { row, col }, x: tlx, y: tly }
}

/// The normalized lowest row the bounding box's two opposite corners map to.
pub open spec fn grid_row_lo(cfg: GridConfig, b: BoundingBox) -> int {
    let ra = row_of_y(cfg, b.max_y as int);
    let rb = row_of_y(cfg, b.min_y as int);
    if ra <= rb {
        ra
    } else {
        rb
    }
}

/// The normalized highest row the bounding box's two opposite corners map to.
pub open spec fn grid_row_hi(cfg: GridConfig, b: BoundingBox) -> int {
    let ra = row_of_y(cfg, b.max_y as int);
    let rb = row_of_y(cfg, b.min_y as int);
    if ra <= rb {
        rb
    } else {
        ra
    }
}

/// The normalized lowest column the bounding box's two opposite corners map to.
pub open spec fn grid_col_lo(cfg: GridConfig, b: BoundingBox) -> int {
    let ca = col_of_x(cfg, b.min_x as int);
    let cb = col_of_x(cfg, b.max_x as int);
    if ca <= cb {
        ca
    } else {
        cb
    }
}

/// The normalized highest column the bounding box's two opposite corners map to.
pub open spec fn grid_col_hi(cfg: GridConfig, b: BoundingBox) -> int {
    let ca = col_of_x(cfg, b.min_x as int);
    let cb = col_of_x(cfg, b.max_x as int);
    if ca <= cb {
        cb
    } else {
        ca
    }
}

pub open spec fn grid_n_rows(cfg: GridConfig, b: BoundingBox) -> int {
    grid_row_hi(cfg, b) - grid_row_lo(cfg, b) + 1
}

pub open spec fn grid_n_cols(cfg: GridConfig, b: BoundingBox) -> int {
    grid_col_hi(cfg, b) - grid_col_lo(cfg, b) + 1
}

/// All four corner cells of the bounding box lie in the addressable range,
/// and the grid is small enough to hold in one vector (machine limits).
pub open spec fn expand_fits(cfg: GridConfig, b: BoundingBox) -> bool {
    &&& 0 <= grid_row_lo(cfg, b)
    &&& grid_row_hi(cfg, b) <= u32::MAX
    &&& 0 <= grid_col_lo(cfg, b)
    &&& grid_col_hi(cfg, b) <= u32::MAX
    &&& grid_n_rows(cfg, b) * grid_n_cols(cfg, b) <= usize::MAX
}

/// Expands a bounding box into the ordered list of all tiles it spans:
/// its two opposite corners are mapped to cells, the cell ranges are
/// normalized to `(row_lo..=row_hi, col_lo..=col_hi)`, and every cell of
/// that rectangle appears exactly once, in row-major order, with its exact
/// top-left coordinate recomputed from its address.
pub fn expand(cfg: GridConfig, b: BoundingBox) -> (tiles: Vec<TileCoords>)
    requires
        cfg.wf(),
        b.wf(),
        expand_fits(cfg, b),
    ensures
        tiles@.len() == grid_n_rows(cfg, b) * grid_n_cols(cfg, b),
        forall|i: int|
            0 <= i < tiles@.len() ==> tiles@[i] == tile_for_cell(
                cfg,
                grid_row_lo(cfg, b) + i / grid_n_cols(cfg, b),
                grid_col_lo(cfg, b) + i % grid_n_cols(cfg, b),
            ),
{
    proof {
        lemma_side_bounds(cfg);
    }
    let side: i64 = (cfg.tile_px as i64) * (cfg.resolution as i64);
    let ra: i64 = cfg.ref_row as i64 + floor_div(cfg.ref_y - b.max_y, side);
    let rb: i64 = cfg.ref_row as i64 + floor_div(cfg.ref_y - b.min_y, side);
    let ca: i64 = cfg.ref_col as i64 + floor_div(b.min_x - cfg.ref_x, side);
    let cb: i64 = cfg.ref_col as i64 + floor_div(b.max_x - cfg.ref_x, side);
    let row_lo: i64 = if ra <= rb { ra } else { rb };
    let row_hi: i64 = if ra <= rb { rb } else { ra };
    let col_lo: i64 = if ca <= cb { ca } else { cb };
    let col_hi: i64 = if ca <= cb { cb } else { ca };
    proof {
        assert(grid_n_rows(cfg, b) <= grid_n_rows(cfg, b) * grid_n_cols(cfg, b)
            && grid_n_cols(cfg, b) <= grid_n_rows(cfg, b) * grid_n_cols(cfg, b))
            by (nonlinear_arith)
            requires
                1 <= grid_n_rows(cfg, b),
                1 <= grid_n_cols(cfg, b),
        ;
    }
    let n_rows: usize = (row_hi - row_lo + 1) as usize;
    let n_cols: usize = (col_hi - col_lo + 1) as usize;
    let ghost nc = grid_n_cols(cfg, b);
    let mut tiles: Vec<TileCoords> = Vec::new();
    let mut rr: usize = 0;
    while rr < n_rows
        invariant
            cfg.wf(),
            b.wf(),
            expand_fits(cfg, b),
            row_lo == grid_row_lo(cfg, b),
            col_lo == grid_col_lo(cfg, b),
            n_rows == grid_n_rows(cfg, b),
            n_cols == nc,
            nc == grid_n_cols(cfg, b),
            rr <= n_rows,
            tiles@.len() == rr * nc,
            forall|i: int|
                0 <= i < tiles@.len() ==> tiles@[i] == tile_for_cell(
                    cfg,
                    grid_row_lo(cfg, b) + i / nc,
                    grid_col_lo(cfg, b) + i % nc,
                ),
        decreases n_rows - rr,
    {
        let mut cc: usize = 0;
        while cc < n_cols
            invariant
                cfg.wf(),
                b.wf(),
                expand_fits(cfg, b),
                row_lo == grid_row_lo(cfg, b),
                col_lo == grid_col_lo(cfg, b),
                n_rows == grid_n_rows(cfg, b),
                n_cols == nc,
                nc == grid_n_cols(cfg, b),
                rr < n_rows,
                cc <= n_cols,
                tiles@.len() == rr * nc + cc,
                forall|i: int|
                    0 <= i < tiles@.len() ==> tiles@[i] == tile_for_cell(
                        cfg,
                        grid_row_lo(cfg, b) + i / nc,
                        grid_col_lo(cfg, b) + i % nc,
                    ),
            decreases n_cols - cc,
        {
            let row_i: i64 = row_lo + rr as i64;
            let col_i: i64 = col_lo + cc as i64;
            proof {
                lemma_cell_in_grid_bounded(cfg, b, row_i as int, col_i as int);
            }
            let t = cell_coords(cfg, row_i as u32, col_i as u32);
            proof {
                lemma_fundamental_div_mod_converse(
                    rr as int * nc + cc as int,
                    nc,
                    rr as int,
                    cc as int,
                );
            }
            tiles.push(t);
            cc = cc + 1;
        }
        rr = rr + 1;
        proof {
            assert((rr - 1) * nc + nc == rr * nc) by (nonlinear_arith);
        }
    }
    proof {
        assert(n_rows * nc == grid_n_rows(cfg, b) * grid_n_cols(cfg, b));
    }
    tiles
}

/// Expands a bounding box after checking that the grid it spans is
/// addressable and fits in one vector; reports "no tiles" (`None`) exactly
/// when it is not, instead of demanding it of the caller.
pub fn try_expand(cfg: GridConfig, b: BoundingBox) -> (r: Option<Vec<TileCoords>>)
    requires
        cfg.wf(),
        b.wf(),
    ensures
        r is Some <==> expand_fits(cfg, b),
        r matches Some(tiles) ==> {
            &&& tiles@.len() == grid_n_rows(cfg, b) * grid_n_cols(cfg, b)
            &&& forall|i: int|
                0 <= i < tiles@.len() ==> tiles@[i] == tile_for_cell(
                    cfg,
                    grid_row_lo(cfg, b) + i / grid_n_cols(cfg, b),
                    grid_col_lo(cfg, b) + i % grid_n_cols(cfg, b),
                )
        },
{
    proof {
        lemma_side_bounds(cfg);
    }
    let side: i64 = (cfg.tile_px as i64) * (cfg.resolution as i64);
    let ra: i64 = cfg.ref_row as i64 + floor_div(cfg.ref_y - b.max_y, side);
    let rb: i64 = cfg.ref_row as i64 + floor_div(cfg.ref_y - b.min_y, side);
    let ca: i64 = cfg.ref_col as i64 + floor_div(b.min_x - cfg.ref_x, side);
    let cb: i64 = cfg.ref_col as i64 + floor_div(b.max_x - cfg.ref_x, side);
    let row_lo: i64 = if ra <= rb { ra } else { rb };
    let row_hi: i64 = if ra <= rb { rb } else { ra };
    let col_lo: i64 = if ca <= cb { ca } else { cb };
    let col_hi: i64 = if ca <= cb { cb } else { ca };
    let max_addr: i64 = u32::MAX as i64;
    if row_lo < 0 || row_hi > max_addr || col_lo < 0 || col_hi > max_addr {
        return None;
    }
    let n_rows: u64 = (row_hi - row_lo + 1) as u64;
    let n_cols: u64 = (col_hi - col_lo + 1) as u64;
    proof {
        assert((n_rows as int) * (n_cols as int) <= 0x1_0000_0000 * 0x1_0000_0000)
            by (nonlinear_arith)
            requires
                0 <= n_rows as int <= 0x1_0000_0000,
                0 <= n_cols as int <= 0x1_0000_0000,
        ;
    }
    let count: u128 = (n_rows as u128) * (n_cols as u128);
    if count > usize::MAX as u128 {
        return None;
    }
    Some(expand(cfg, b))
}

/// Recomputes a cell's exact top-left coordinate from its address alone.
pub fn cell_coords(cfg: GridConfig, row: u32, col: u32) -> (t: TileCoords)
    requires
        cfg.wf(),
        -(3 * MAX_COORD as int) <= top_left_x(cfg, col as int) <= 3 * MAX_COORD as int,
        -(3 * MAX_COORD as int) <= top_left_y(cfg, row as int) <= 3 * MAX_COORD as int,
    ensures
        t == tile_for_cell(cfg, row as int, col as int),
{
    proof {
        lemma_side_bounds(cfg);
    }
    let side: i64 = (cfg.tile_px as i64) * (cfg.resolution as i64);
    let dcol: i64 = col as i64 - cfg.ref_col as i64;
    let drow: i64 = row as i64 - cfg.ref_row as i64;
    proof {
        assert(dcol as int * side as int == top_left_x(cfg, col as int) - cfg.ref_x);
        assert(drow as int * side as int == cfg.ref_y - top_left_y(cfg, row as int));
    }
    let tlx: i64 = cfg.ref_x + dcol * side;
    let tly: i64 = cfg.ref_y - drow * side;
    TileCoords { addr: TileAddress { row, col }, x: tlx, y: tly }
}

/// Every cell of the normalized grid rectangle has a top-left coordinate
/// within three coordinate bounds of the origin, since it lies between the
/// cells of two in-range corner points.
pub proof fn lemma_cell_in_grid_bounded(cfg: GridConfig, b: BoundingBox, row: int, col: int)
    requires
        cfg.wf(),
        b.wf(),
        grid_row_lo(cfg, b) <= row <= grid_row_hi(cfg, b),
        grid_col_lo(cfg, b) <= col <= grid_col_hi(cfg, b),
    ensures
        -(3 * MAX_COORD as int) <= top_left_x(cfg, col) <= 3 * MAX_COORD as int,
        -(3 * MAX_COORD as int) <= top_left_y(cfg, row) <= 3 * MAX_COORD as int,
{
    lemma_side_bounds(cfg);
    lemma_point_in_own_cell(cfg, b.min_x as int, b.min_y as int);
    lemma_point_in_own_cell(cfg, b.max_x as int, b.max_y as int);
    lemma_top_left_monotone(cfg, grid_col_lo(cfg, b), col);
    lemma_top_left_monotone(cfg, col, grid_col_hi(cfg, b));
    lemma_top_left_monotone(cfg, grid_row_lo(cfg, b), row);
    lemma_top_left_monotone(cfg, row, grid_row_hi(cfg, b));
}

/// Top-left x grows with the column; top-left y falls as the row grows.
pub proof fn lemma_top_left_monotone(cfg: GridConfig, a: int, c: int)
    requires
        cfg.wf(),
        a <= c,
    ensures
        top_left_x(cfg, a) <= top_left_x(cfg, c),
        top_left_y(cfg, c) <= top_left_y(cfg, a),
{
    lemma_side_bounds(cfg);
    let s = cfg.side();
    assert((a - cfg.ref_col) * s <= (c - cfg.ref_col) * s) by (nonlinear_arith)
        requires
            a <= c,
            s > 0,
    ;
    assert((a - cfg.ref_row) * s <= (c - cfg.ref_row) * s) by (nonlinear_arith)
        requires
            a <= c,
            s > 0,
    ;
}

/// Two distinct positions of the expanded row-major list name two distinct
/// cells: the grid covers its rectangle without duplicates.
pub proof fn lemma_expand_no_duplicates(cfg: GridConfig, b: BoundingBox, i: int, j: int)
    requires
        cfg.wf(),
        b.wf(),
        expand_fits(cfg, b),
        0 <= i < grid_n_rows(cfg, b) * grid_n_cols(cfg, b),
        0 <= j < grid_n_rows(cfg, b) * grid_n_cols(cfg, b),
        i != j,
    ensures
        tile_for_cell(
            cfg,
            grid_row_lo(cfg, b) + i / grid_n_cols(cfg, b),
            grid_col_lo(cfg, b) + i % grid_n_cols(cfg, b),
        ).addr != tile_for_cell(
            cfg,
            grid_row_lo(cfg, b) + j / grid_n_cols(cfg, b),
            grid_col_lo(cfg, b) + j % grid_n_cols(cfg, b),
        ).addr,
{
    let n = grid_n_rows(cfg, b);
    let m = grid_n_cols(cfg, b);
    lemma_fundamental_div_mod(i, m);
    lemma_fundamental_div_mod(j, m);
    lemma_mod_bound(i, m);
    lemma_mod_bound(j, m);
    vstd::arithmetic::div_mod::lemma_multiply_divide_lt(i, m, n);
    vstd::arithmetic::div_mod::lemma_multiply_divide_lt(j, m, n);
    lemma_div_pos_is_pos(i, m);
    lemma_div_pos_is_pos(j, m);
    if i / m == j / m && i % m == j % m {
        assert(i == m * (i / m) + i % m);
        assert(j == m * (j / m) + j % m);
        assert(false);
    }
    assert(grid_row_lo(cfg, b) + i / m <= grid_row_hi(cfg, b));
    assert(grid_row_lo(cfg, b) + j / m <= grid_row_hi(cfg, b));
    assert(grid_col_lo(cfg, b) + i % m <= grid_col_hi(cfg, b));
    assert(grid_col_lo(cfg, b) + j % m <= grid_col_hi(cfg, b));
}

/// A bounding box lying entirely within one cell's footprint expands to
/// exactly that one tile.
pub proof fn lemma_single_tile_bbox(cfg: GridConfig, b: BoundingBox, row: int, col: int)
    requires
        cfg.wf(),
        b.wf(),
        top_left_x(cfg, col) <= b.min_x,
        b.max_x < top_left_x(cfg, col) + cfg.side(),
        b.max_y <= top_left_y(cfg, row),
        top_left_y(cfg, row) - cfg.side() < b.min_y,
    ensures
        grid_row_lo(cfg, b) == row,
        grid_row_hi(cfg, b) == row,
        grid_col_lo(cfg, b) == col,
        grid_col_hi(cfg, b) == col,
        grid_n_rows(cfg, b) * grid_n_cols(cfg, b) == 1,
{
    lemma_footprint_maps_to_cell(cfg, row, col, b.min_x as int, b.min_y as int);
    lemma_footprint_maps_to_cell(cfg, row, col, b.max_x as int, b.max_y as int);
    assert(grid_n_rows(cfg, b) == 1);
    assert(grid_n_cols(cfg, b) == 1);
    assert(grid_n_rows(cfg, b) * grid_n_cols(cfg, b) == 1) by (nonlinear_arith)
        requires
            grid_n_rows(cfg, b) == 1,
            grid_n_cols(cfg, b) == 1,
    ;
}

/// A grid-aligned bounding box spanning exactly `n` tile heights and `m`
/// tile widths (inclusive integer extents) expands to exactly `n * m` tiles,
/// the contiguous rectangle rooted at `(row, col)`.
pub proof fn lemma_aligned_span(
    cfg: GridConfig,
    b: BoundingBox,
    row: int,
    col: int,
    n: int,
    m: int,
)
    requires
        cfg.wf(),
        b.wf(),
        1 <= n,
        1 <= m,
        b.min_x == top_left_x(cfg, col),
        b.max_x == b.min_x + m * cfg.side() - 1,
        b.max_y == top_left_y(cfg, row),
        b.min_y == b.max_y - (n * cfg.side() - 1),
    ensures
        grid_row_lo(cfg, b) == row,
        grid_row_hi(cfg, b) == row + n - 1,
        grid_col_lo(cfg, b) == col,
        grid_col_hi(cfg, b) == col + m - 1,
        grid_n_rows(cfg, b) == n,
        grid_n_cols(cfg, b) == m,
{
    lemma_side_bounds(cfg);
    let s = cfg.side();
    lemma_footprint_maps_to_cell(cfg, row, col, b.min_x as int, b.max_y as int);
    assert(top_left_x(cfg, col + m - 1) == top_left_x(cfg, col) + (m - 1) * s) by {
        assert((col + m - 1 - cfg.ref_col) * s == (col - cfg.ref_col) * s + (m - 1) * s)
            by (nonlinear_arith);
    }
    assert(b.max_x == top_left_x(cfg, col + m - 1) + s - 1) by {
        assert(m * s == (m - 1) * s + s) by (nonlinear_arith);
    }
    assert(top_left_y(cfg, row + n - 1) == top_left_y(cfg, row) - (n - 1) * s) by {
        assert((row + n - 1 - cfg.ref_row) * s == (row - cfg.ref_row) * s + (n - 1) * s)
            by (nonlinear_arith);
    }
    assert(b.min_y == top_left_y(cfg, row + n - 1) - (s - 1)) by {
        assert(n * s == (n - 1) * s + s) by (nonlinear_arith);
    }
    lemma_footprint_maps_to_cell(cfg, row + n - 1, col + m - 1, b.max_x as int, b.min_y as int);
}

} // verus!
