//! Mosaic descriptor emission: a declarative document that positions each
//! tile file at its pixel offset within one combined raster canvas, tagged
//! with the fixed coordinate reference system. The embedding program writes
//! the rendered text to the output path; downstream raster tools consume it.

use vstd::prelude::*;
use crate::grid::TileCoords;
use crate::client::dec_digits;
use crate::client::u64_to_dec;
use crate::client::tile_file_path;
use crate::client::tile_file_path_chars;

verus! {

/// An axis-aligned pixel rectangle: offset and size within a raster.
#[derive(Clone, Copy, PartialEq, Eq, Structural, Debug)]
pub struct PixelRect {
    pub x_off: u64,
    pub y_off: u64,
    pub width: u64,
    pub height: u64,
}

/// One source reference: a tile file placed into one color band of the
/// canvas, copied from the full source rectangle to its destination
/// rectangle.
pub struct SourceEntry {
    pub band: u64,
    pub path: String,
    pub src: PixelRect,
    pub dst: PixelRect,
}

/// The mosaic descriptor: canvas size, coordinate reference tag, and one
/// source entry per tile per color band.
pub struct MosaicDescriptor {
    pub canvas_width: u64,
    pub canvas_height: u64,
    pub crs: String,
    pub sources: Vec<SourceEntry>,
}

/// Why no descriptor was produced.
#[derive(Clone, Copy, PartialEq, Eq, Structural, Debug)]
pub enum DescriptorError {
    NoSuccessfulTiles,
}

/// The number of color bands every canvas carries.
pub const BAND_COUNT: u64 = 3;

/// The fixed coordinate reference system tag.
pub open spec fn crs_tag_chars() -> Seq<char> {
    "EPSG:3006"@
}

pub fn crs_tag() -> (r: String)
    ensures
        r@ == crs_tag_chars(),
{
    let s = "EPSG:3006".to_owned();
    s
}

/// What one source entry must say for tile `t` in band `band`: the tile's
/// deterministic file path, the full source tile rectangle, and a
/// destination rectangle at (column x tile_px, row x tile_px) with the
/// tile's pixel dimensions.
pub open spec fn entry_matches(
    e: SourceEntry,
    band: int,
    t: TileCoords,
    tiles_dir: Seq<char>,
    tile_px: int,
) -> bool {
    &&& e.band == band
    &&& e.path@ == tile_file_path_chars(tiles_dir, t.addr.row as int, t.addr.col as int)
    &&& e.src == (PixelRect { x_off: 0, y_off: 0, width: tile_px as u64, height: tile_px as u64 })
    &&& e.dst == (PixelRect {
        x_off: (t.addr.col as int * tile_px) as u64,
        y_off: (t.addr.row as int * tile_px) as u64,
        width: tile_px as u64,
        height: tile_px as u64,
    })
}

proof fn lemma_mul_u32_bound(a: u32, b: u32)
    ensures
        0 <= (a as int) * (b as int) <= 0xffff_ffff * 0xffff_ffff,
{
    assert(0 <= (a as int) * (b as int) <= 0xffff_ffff * 0xffff_ffff) by (nonlinear_arith)
        requires
            0 <= a as int <= 0xffff_ffff,
            0 <= b as int <= 0xffff_ffff,
    ;
}

proof fn lemma_band_prefix_extend(
    pre: Seq<SourceEntry>,
    post: Seq<SourceEntry>,
    entry: SourceEntry,
    base: int,
    n: int,
    band: int,
    tiles: Seq<TileCoords>,
    dir: Seq<char>,
    px: int,
)
    requires
        post == pre.push(entry),
        pre.len() == base + n,
        0 <= base,
        0 <= n < tiles.len(),
        forall|k: int|
            0 <= k < n ==> entry_matches(#[trigger] pre[base + k], band, tiles[k], dir, px),
        entry_matches(entry, band, tiles[n], dir, px),
    ensures
        forall|k: int|
            0 <= k < n + 1 ==> entry_matches(#[trigger] post[base + k], band, tiles[k], dir, px),
        forall|i: int| 0 <= i < base ==> post[i] == pre[i],
{
    assert forall|k: int| 0 <= k < n + 1 implies entry_matches(
        #[trigger] post[base + k],
        band,
        tiles[k],
        dir,
        px,
    ) by {
        if k < n {
            assert(post[base + k] == pre[base + k]);
        } else {
            assert(post[base + k] == entry);
        }
    }
}

/// Appends one source entry per tile for one band, in tile order.
#[verifier::rlimit(100)]
fn push_band(
    sources: &mut Vec<SourceEntry>,
    band: u64,
    tiles: &Vec<TileCoords>,
    tiles_dir: &str,
    tile_px: u32,
)
    ensures
        final(sources)@.len() == old(sources)@.len() + tiles@.len(),
        forall|i: int|
            0 <= i < old(sources)@.len() ==> final(sources)@[i] == old(sources)@[i],
        forall|j: int|
            0 <= j < tiles@.len() ==> entry_matches(
                #[trigger] final(sources)@[old(sources)@.len() + j],
                band as int,
                tiles@[j],
                tiles_dir@,
                tile_px as int,
            ),
{
    let ghost base = sources@.len() as int;
    let mut j: usize = 0;
    while j < tiles.len()
        invariant
            j <= tiles@.len(),
            base == old(sources)@.len(),
            sources@.len() == base + j,
            forall|i: int| 0 <= i < base ==> sources@[i] == old(sources)@[i],
            forall|k: int|
                0 <= k < j ==> entry_matches(
                    #[trigger] sources@[base + k],
                    band as int,
                    tiles@[k],
                    tiles_dir@,
                    tile_px as int,
                ),
        decreases tiles@.len() - j,
    {
        let t = tiles[j];
        let path = tile_file_path(tiles_dir, t.addr);
        let px: u64 = tile_px as u64;
        proof {
            lemma_mul_u32_bound(t.addr.col, tile_px);
            lemma_mul_u32_bound(t.addr.row, tile_px);
        }
        let entry = SourceEntry {
            band,
            path,
            src: PixelRect { x_off: 0, y_off: 0, width: px, height: px },
            dst: PixelRect {
                x_off: (t.addr.col as u64) * px,
                y_off: (t.addr.row as u64) * px,
                width: px,
                height: px,
            },
        };
        let ghost pre = sources@;
        sources.push(entry);
        proof {
            assert(entry_matches(entry, band as int, tiles@[j as int], tiles_dir@,
                tile_px as int));
            lemma_band_prefix_extend(
                pre,
                sources@,
                entry,
                base,
                j as int,
                band as int,
                tiles@,
                tiles_dir@,
                tile_px as int,
            );
        }
        j = j + 1;
    }
}

/// Builds the mosaic descriptor from the full tile list and the batch's
/// success count. Refuses exactly when nothing succeeded; otherwise the
/// canvas is tile-count x tile-pixel-size on each axis (a deliberate
/// approximation, not clipped to the bounding box's true pixel extent) and
/// every tile contributes one source entry to each of the three color bands
/// — tiles are not filtered by their individual fetch outcome.
pub fn build_mosaic_descriptor(
    tiles: &Vec<TileCoords>,
    success_count: usize,
    tiles_dir: &str,
    tile_px: u32,
) -> (r: Result<MosaicDescriptor, DescriptorError>)
    requires
        tiles@.len() * tile_px <= u64::MAX,
    ensures
        r is Err <==> success_count == 0,
        r is Err ==> r == Err::<MosaicDescriptor, DescriptorError>(
            DescriptorError::NoSuccessfulTiles,
        ),
        r matches Ok(d) ==> {
            &&& d.canvas_width == tiles@.len() * tile_px
            &&& d.canvas_height == tiles@.len() * tile_px
            &&& d.crs@ == crs_tag_chars()
            &&& d.sources@.len() == BAND_COUNT * tiles@.len()
            &&& forall|j: int|
                0 <= j < tiles@.len() ==> {
                    &&& entry_matches(
                        #[trigger] d.sources@[j],
                        1,
                        tiles@[j],
                        tiles_dir@,
                        tile_px as int,
                    )
                    &&& entry_matches(
                        d.sources@[tiles@.len() + j],
                        2,
                        tiles@[j],
                        tiles_dir@,
                        tile_px as int,
                    )
                    &&& entry_matches(
                        d.sources@[2 * tiles@.len() + j],
                        3,
                        tiles@[j],
                        tiles_dir@,
                        tile_px as int,
                    )
                }
        },
{
    if success_count == 0 {
        return Err(DescriptorError::NoSuccessfulTiles);
    }
    let canvas: u64 = (tiles.len() as u64) * (tile_px as u64);
    let mut sources: Vec<SourceEntry> = Vec::new();
    push_band(&mut sources, 1, tiles, tiles_dir, tile_px);
    let ghost s1 = sources@;
    push_band(&mut sources, 2, tiles, tiles_dir, tile_px);
    let ghost s2 = sources@;
    push_band(&mut sources, 3, tiles, tiles_dir, tile_px);
    proof {
        let k = tiles@.len() as int;
        assert forall|j: int| 0 <= j < k implies {
            &&& entry_matches(#[trigger] sources@[j], 1, tiles@[j], tiles_dir@, tile_px as int)
            &&& entry_matches(sources@[k + j], 2, tiles@[j], tiles_dir@, tile_px as int)
            &&& entry_matches(sources@[2 * k + j], 3, tiles@[j], tiles_dir@, tile_px as int)
        } by {
            assert(entry_matches(s1[0 + j], 1, tiles@[j], tiles_dir@, tile_px as int));
            assert(s2[j] == s1[j]);
            assert(sources@[j] == s2[j]);
            assert(entry_matches(s2[k + j], 2, tiles@[j], tiles_dir@, tile_px as int));
            assert(sources@[k + j] == s2[k + j]);
            assert(entry_matches(sources@[2 * k + j], 3, tiles@[j], tiles_dir@,
                tile_px as int));
        }
    }
    let crs = crs_tag();
    Ok(MosaicDescriptor { canvas_width: canvas, canvas_height: canvas, crs, sources })
}

/// The textual form of one pixel rectangle: `x,y,width,height`.
pub open spec fn rect_chars(r: PixelRect) -> Seq<char> {
    dec_digits(r.x_off as int) + ","@ + dec_digits(r.y_off as int) + ","@ + dec_digits(
        r.width as int,
    ) + ","@ + dec_digits(r.height as int)
}

/// The textual form of one source entry, one line.
pub open spec fn entry_chars(e: SourceEntry) -> Seq<char> {
    "source band="@ + dec_digits(e.band as int) + " path="@ + e.path@ + " src="@ + rect_chars(
        e.src,
    ) + " dst="@ + rect_chars(e.dst) + "\n"@
}

pub open spec fn entries_chars(s: Seq<SourceEntry>) -> Seq<char>
    decreases s.len(),
{
    if s.len() == 0 {
        Seq::empty()
    } else {
        entries_chars(s.drop_last()) + entry_chars(s.last())
    }
}

/// The full descriptor document: a canvas header line, then one line per
/// source entry.
pub open spec fn descriptor_chars(d: MosaicDescriptor) -> Seq<char> {
    "mosaic canvas="@ + dec_digits(d.canvas_width as int) + "x"@ + dec_digits(
        d.canvas_height as int,
    ) + " crs="@ + d.crs@ + "\n"@ + entries_chars(d.sources@)
}

fn append_rect(s: &mut String, r: &PixelRect)
    ensures
        final(s)@ == old(s)@ + rect_chars(*r),
{
    let xs = u64_to_dec(r.x_off);
    s.append(xs.as_str());
    s.append(",");
    let ys = u64_to_dec(r.y_off);
    s.append(ys.as_str());
    s.append(",");
    let ws = u64_to_dec(r.width);
    s.append(ws.as_str());
    s.append(",");
    let hs = u64_to_dec(r.height);
    s.append(hs.as_str());
    proof {
        assert(s@ =~= old(s)@ + rect_chars(*r));
    }
}

/// Renders the descriptor document.
#[verifier::rlimit(100)]
pub fn render_descriptor(d: &MosaicDescriptor) -> (r: String)
    ensures
        r@ == descriptor_chars(*d),
{
    let mut s = "mosaic canvas=".to_owned();
    let ws = u64_to_dec(d.canvas_width);
    s.append(ws.as_str());
    s.append("x");
    let hs = u64_to_dec(d.canvas_height);
    s.append(hs.as_str());
    s.append(" crs=");
    s.append(d.crs.as_str());
    s.append("\n");
    let ghost header = s@;
    let mut i: usize = 0;
    while i < d.sources.len()
        invariant
            i <= d.sources@.len(),
            s@ == header + entries_chars(d.sources@.subrange(0, i as int)),
        decreases d.sources@.len() - i,
    {
        let e = &d.sources[i];
        s.append("source band=");
        let bs = u64_to_dec(e.band);
        s.append(bs.as_str());
        s.append(" path=");
        s.append(e.path.as_str());
        s.append(" src=");
        append_rect(&mut s, &e.src);
        s.append(" dst=");
        append_rect(&mut s, &e.dst);
        s.append("\n");
        proof {
            let pre = d.sources@.subrange(0, i as int);
            let post = d.sources@.subrange(0, i + 1int);
            assert(post.drop_last() =~= pre);
            assert(post.last() == d.sources@[i as int]);
            assert(s@ =~= header + entries_chars(post));
        }
        i = i + 1;
    }
    proof {
        assert(d.sources@.subrange(0, d.sources@.len() as int) =~= d.sources@);
    }
    s
}

} // verus!
