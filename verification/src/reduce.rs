//! The pyramid reducer: four finer tiles become one coarser tile.
//!
//! Every source tile is resampled to one quadrant of `TILE_SIZE` pixels
//! square, and the quadrants are laid out in an output tile twice that size.
//! A quadrant whose source tile is absent is fully transparent.
//!
//! Quadrants are numbered by their column offset `i` and row offset `j`, both
//! 0 or 1, as `2 * i + j`: left column top to bottom, then right column.

use crate::codec::decode_png;
use crate::codec::encode_png;
use crate::codec::integer_samples;
use crate::codec::png_image;
use crate::codec::png_encoding;
use crate::codec::resize_lanczos3;
use crate::raster::fill_transparent;
use crate::raster::lemma_raster_ext;
use crate::raster::Raster;
use crate::raster::RasterView;
use vstd::prelude::*;

verus! {

/// Edge length of one quadrant, in pixels.
pub const TILE_SIZE: u32 = 256;

/// Edge length of a composed tile, in pixels.
pub const OUTPUT_SIZE: u32 = 512;

/// Why a tile could not be reduced.
#[derive(Debug, Clone, Copy, PartialEq, Eq, Structural)]
pub enum ReduceError {
    /// The source tile of this quadrant exists but is no PNG image that the
    /// decoder accepts.
    Decode { quadrant: usize },
    /// The source tile of this quadrant decodes to floating-point samples,
    /// which the resampler does not take.
    Unsupported { quadrant: usize },
    /// The source tile of this quadrant is too wide to be resampled on this
    /// machine.
    TooLarge { quadrant: usize },
    /// The encoder refused the composed tile.
    Encode,
}

/// Number of the quadrant at column offset `i` and row offset `j`.
pub open spec fn quadrant_index(i: int, j: int) -> int {
    2 * i + j
}

/// A well-formed raster of exactly one quadrant's size.
pub open spec fn tile_sized(quadrant: RasterView) -> bool {
    quadrant.wf() && quadrant.width == TILE_SIZE && quadrant.height == TILE_SIZE
}

/// Every quadrant that is present has one quadrant's size.
pub open spec fn quadrants_ready(quadrants: Seq<Option<RasterView>>) -> bool {
    &&& quadrants.len() == 4
    &&& forall|k: int|
        0 <= k < 4 ==> ((#[trigger] quadrants[k]) matches Some(q) ==> tile_sized(q))
}

/// What channel `c` of pixel `(x, y)` of the composed tile holds: the
/// matching sample of the quadrant that covers the pixel, or zero where that
/// quadrant is absent.
pub open spec fn composed_channel(
    quadrants: Seq<Option<RasterView>>,
    x: int,
    y: int,
    c: int,
) -> u8 {
    match quadrants[quadrant_index(x / (TILE_SIZE as int), y / (TILE_SIZE as int))] {
        Some(q) => q.channel(x % (TILE_SIZE as int), y % (TILE_SIZE as int), c),
        None => 0u8,
    }
}

/// `tile` is the composition of `quadrants`.
pub open spec fn is_composition(tile: RasterView, quadrants: Seq<Option<RasterView>>) -> bool {
    &&& tile.wf()
    &&& tile.width == OUTPUT_SIZE
    &&& tile.height == OUTPUT_SIZE
    &&& forall|x: int, y: int, c: int|
        tile.contains(x, y) && 0 <= c < 4 ==> #[trigger] tile.channel(x, y, c) == composed_channel(
            quadrants,
            x,
            y,
            c,
        )
}

/// The views of a list of quadrants.
pub open spec fn quadrant_views(quadrants: Seq<Option<Raster>>) -> Seq<Option<RasterView>> {
    Seq::new(
        quadrants.len(),
        |k: int|
            match quadrants[k] {
                Some(q) => Some(q@),
                None => None,
            },
    )
}

/// Composition is a function: a list of quadrants has one composed tile.
/// Composing the same quadrants again therefore gives the same raster,
/// sample for sample.
pub proof fn lemma_composition_unique(
    first: RasterView,
    second: RasterView,
    quadrants: Seq<Option<RasterView>>,
)
    requires
        is_composition(first, quadrants),
        is_composition(second, quadrants),
    ensures
        first == second,
{
    lemma_raster_ext(first, second);
}

/// The region of an absent quadrant is zero in every channel, and so fully
/// transparent.
pub proof fn lemma_absent_quadrant_is_transparent(
    tile: RasterView,
    quadrants: Seq<Option<RasterView>>,
    i: int,
    j: int,
)
    requires
        is_composition(tile, quadrants),
        0 <= i < 2,
        0 <= j < 2,
        quadrants[quadrant_index(i, j)] is None,
    ensures
        forall|x: int, y: int, c: int|
            RasterView::in_rect(i * 256, j * 256, 256, 256, x, y) && 0 <= c < 4
                ==> #[trigger] tile.channel(x, y, c) == 0,
        tile.rect_transparent(i * 256, j * 256, 256, 256),
{
    assert forall|x: int, y: int, c: int|
        RasterView::in_rect(i * 256, j * 256, 256, 256, x, y) && 0 <= c < 4 implies #[trigger] tile.channel(
        x,
        y,
        c,
    ) == 0 by {
        assert(tile.contains(x, y));
        assert(x / 256 == i && y / 256 == j);
        assert(tile.channel(x, y, c) == composed_channel(quadrants, x, y, c));
    }
}

/// The region of a present quadrant holds that quadrant, pixel for pixel.
pub proof fn lemma_present_quadrant_is_kept(
    tile: RasterView,
    quadrants: Seq<Option<RasterView>>,
    i: int,
    j: int,
)
    requires
        is_composition(tile, quadrants),
        0 <= i < 2,
        0 <= j < 2,
        quadrants[quadrant_index(i, j)] is Some,
    ensures
        forall|x: int, y: int, c: int|
            0 <= x < 256 && 0 <= y < 256 && 0 <= c < 4 ==> tile.channel(
                i * 256 + x,
                j * 256 + y,
                c,
            ) == (#[trigger] quadrants[quadrant_index(i, j)]->0.channel(x, y, c)),
{
    let q = quadrants[quadrant_index(i, j)]->0;
    assert forall|x: int, y: int, c: int|
        0 <= x < 256 && 0 <= y < 256 && 0 <= c < 4 implies tile.channel(
        i * 256 + x,
        j * 256 + y,
        c,
    ) == (#[trigger] q.channel(x, y, c)) by {
        let px = i * 256 + x;
        let py = j * 256 + y;
        assert(tile.contains(px, py));
        assert(px / 256 == i && py / 256 == j);
        assert(px % 256 == x && py % 256 == y);
        assert(tile.channel(px, py, c) == composed_channel(quadrants, px, py, c));
    }
}

/// A raster has a pixel that is not fully transparent.
pub open spec fn has_visible_pixel(raster: RasterView) -> bool {
    exists|x: int, y: int| raster.contains(x, y) && #[trigger] raster.channel(x, y, 3) != 0
}

/// Where no source tile is itself fully transparent, the fully transparent
/// regions of a composed tile are exactly the regions of the absent
/// quadrants. With all four sources present no region is fully transparent;
/// with exactly one absent, exactly its region is.
pub proof fn lemma_transparent_iff_absent(
    tile: RasterView,
    quadrants: Seq<Option<RasterView>>,
    i: int,
    j: int,
)
    requires
        is_composition(tile, quadrants),
        quadrants_ready(quadrants),
        0 <= i < 2,
        0 <= j < 2,
        forall|k: int|
            0 <= k < 4 ==> ((#[trigger] quadrants[k]) matches Some(q) ==> has_visible_pixel(q)),
    ensures
        tile.rect_transparent(i * 256, j * 256, 256, 256) <==> quadrants[quadrant_index(i, j)]
            is None,
{
    let k = quadrant_index(i, j);
    if quadrants[k] is None {
        lemma_absent_quadrant_is_transparent(tile, quadrants, i, j);
    } else {
        let q = quadrants[k]->0;
        lemma_present_quadrant_is_kept(tile, quadrants, i, j);
        let (x, y) = choose|x: int, y: int| q.contains(x, y) && #[trigger] q.channel(x, y, 3) != 0;
        assert(tile.channel(i * 256 + x, j * 256 + y, 3) == q.channel(x, y, 3));
        assert(RasterView::in_rect(i * 256, j * 256, 256, 256, i * 256 + x, j * 256 + y));
    }
}

/// With all four source tiles present, and none of them fully transparent
/// itself, no region of the composed tile is fully transparent.
pub proof fn lemma_full_quad_has_no_transparent_region(
    tile: RasterView,
    quadrants: Seq<Option<RasterView>>,
)
    requires
        is_composition(tile, quadrants),
        quadrants_ready(quadrants),
        forall|k: int|
            0 <= k < 4 ==> (#[trigger] quadrants[k]) is Some && has_visible_pixel(quadrants[k]->0),
    ensures
        !tile.rect_transparent(0, 0, 256, 256),
        !tile.rect_transparent(0, 256, 256, 256),
        !tile.rect_transparent(256, 0, 256, 256),
        !tile.rect_transparent(256, 256, 256, 256),
{
    lemma_transparent_iff_absent(tile, quadrants, 0, 0);
    lemma_transparent_iff_absent(tile, quadrants, 0, 1);
    lemma_transparent_iff_absent(tile, quadrants, 1, 0);
    lemma_transparent_iff_absent(tile, quadrants, 1, 1);
}

/// With exactly one source tile absent, and none of the others fully
/// transparent itself, exactly one region of the composed tile is fully
/// transparent: the region of the absent quadrant.
pub proof fn lemma_one_absent_one_transparent_region(
    tile: RasterView,
    quadrants: Seq<Option<RasterView>>,
    absent: int,
)
    requires
        is_composition(tile, quadrants),
        quadrants_ready(quadrants),
        0 <= absent < 4,
        quadrants[absent] is None,
        forall|k: int|
            0 <= k < 4 && k != absent ==> (#[trigger] quadrants[k]) is Some && has_visible_pixel(
                quadrants[k]->0,
            ),
    ensures
        tile.rect_transparent(0, 0, 256, 256) <==> absent == quadrant_index(0, 0),
        tile.rect_transparent(0, 256, 256, 256) <==> absent == quadrant_index(0, 1),
        tile.rect_transparent(256, 0, 256, 256) <==> absent == quadrant_index(1, 0),
        tile.rect_transparent(256, 256, 256, 256) <==> absent == quadrant_index(1, 1),
{
    lemma_transparent_iff_absent(tile, quadrants, 0, 0);
    lemma_transparent_iff_absent(tile, quadrants, 0, 1);
    lemma_transparent_iff_absent(tile, quadrants, 1, 0);
    lemma_transparent_iff_absent(tile, quadrants, 1, 1);
}

/// Lays four quadrants out in one tile.
///
/// The quadrant numbered `2 * i + j` goes to the pixel offset
/// `(i * TILE_SIZE, j * TILE_SIZE)`. An absent quadrant leaves its region
/// with every channel zero.
pub fn compose_quadrants(quadrants: &Vec<Option<Raster>>) -> (tile: Raster)
    requires
        quadrants_ready(quadrant_views(quadrants@)),
    ensures
        is_composition(tile@, quadrant_views(quadrants@)),
{
    let ghost views = quadrant_views(quadrants@);
    let mut tile = Raster::new(OUTPUT_SIZE, OUTPUT_SIZE);
    let ghost blank = tile@;
    assert forall|x: int, y: int, c: int|
        blank.contains(x, y) && 0 <= c < 4 implies #[trigger] blank.channel(x, y, c) == 0 by {
        crate::raster::lemma_sample_index_in_range(blank.width, blank.height, x, y, c);
    }
    let mut k: usize = 0;
    while k < 4
        invariant
            k <= 4,
            quadrants@.len() == 4,
            views == quadrant_views(quadrants@),
            quadrants_ready(views),
            tile.wf(),
            tile@.width == OUTPUT_SIZE,
            tile@.height == OUTPUT_SIZE,
            forall|x: int, y: int, c: int|
                tile@.contains(x, y) && 0 <= c < 4 ==> #[trigger] tile@.channel(x, y, c) == if quadrant_index(
                    x / 256,
                    y / 256,
                ) < k {
                    composed_channel(views, x, y, c)
                } else {
                    0u8
                },
        decreases 4 - k,
    {
        let i: u32 = (k / 2) as u32;
        let j: u32 = (k % 2) as u32;
        let ghost before = tile@;
        assert(views[k as int] == match quadrants@[k as int] {
            Some(q) => Some(q@),
            None => None,
        });
        match &quadrants[k] {
            Some(quadrant) => {
                let placed = tile.copy_from(quadrant, i * TILE_SIZE, j * TILE_SIZE);
                assert(placed is Ok);
            },
            None => {
                fill_transparent(&mut tile, i * TILE_SIZE, j * TILE_SIZE, TILE_SIZE, TILE_SIZE);
            },
        }
        proof {
            assert forall|x: int, y: int, c: int|
                tile@.contains(x, y) && 0 <= c < 4 implies #[trigger] tile@.channel(x, y, c)
                == if quadrant_index(x / 256, y / 256) < k + 1 {
                composed_channel(views, x, y, c)
            } else {
                0u8
            } by {
                let inside = RasterView::in_rect(i * 256, j * 256, 256, 256, x, y);
                assert(inside <==> quadrant_index(x / 256, y / 256) == k);
                assert(before.contains(x, y));
                if inside {
                    assert(x - i * 256 == x % 256 && y - j * 256 == y % 256);
                } else {
                    assert(tile@.channel(x, y, c) == before.channel(x, y, c));
                }
            }
        }
        k += 1;
    }
    tile
}

/// Encodes a raster as a PNG stream.
pub fn encode_tile(tile: &Raster) -> (encoded: Result<Vec<u8>, ReduceError>)
    requires
        tile.wf(),
    ensures
        match encoded {
            Ok(bytes) => png_encoding(tile@.width, tile@.height, tile@.samples) == Some(bytes@),
            Err(error) => error == ReduceError::Encode && png_encoding(
                tile@.width,
                tile@.height,
                tile@.samples,
            ) is None,
        },
{
    match encode_png(tile.as_raw(), tile.width(), tile.height()) {
        Ok(bytes) => Ok(bytes),
        Err(_) => Err(ReduceError::Encode),
    }
}

/// Why the source tile `bytes` of quadrant `quadrant` cannot be turned into
/// a quadrant, or `None` where it can: it must decode, have integer samples,
/// and be narrow enough for the resampler's buffers to fit in memory.
pub open spec fn load_failure(bytes: Seq<u8>, quadrant: usize) -> Option<ReduceError> {
    match png_image(bytes) {
        None => Some(ReduceError::Decode { quadrant }),
        Some((width, integer)) => if !integer {
            Some(ReduceError::Unsupported { quadrant })
        } else if 16 * (width * TILE_SIZE) > isize::MAX {
            Some(ReduceError::TooLarge { quadrant })
        } else {
            None
        },
    }
}

/// The failure of the first source from position `from` on that is present
/// and cannot be loaded, or `None` where every such source can.
pub open spec fn first_failure(sources: Seq<Option<Vec<u8>>>, from: int) -> Option<ReduceError>
    decreases sources.len() - from,
{
    if from < 0 || from >= sources.len() {
        None
    } else {
        let here = match sources[from] {
            Some(bytes) => load_failure(bytes@, from as usize),
            None => None,
        };
        if here is Some {
            here
        } else {
            first_failure(sources, from + 1)
        }
    }
}

/// Decodes the source tile of one quadrant and resamples it to the size of
/// a quadrant, whatever size it was stored with.
fn load_quadrant(bytes: &Vec<u8>, quadrant: usize) -> (loaded: Result<Raster, ReduceError>)
    ensures
        match loaded {
            Ok(raster) => load_failure(bytes@, quadrant) is None && tile_sized(raster@),
            Err(error) => load_failure(bytes@, quadrant) == Some(error),
        },
{
    match decode_png(bytes) {
        Ok(image) => {
            if !integer_samples(&image) {
                return Err(ReduceError::Unsupported { quadrant });
            }
            let width = image.width();
            if 16u128 * (width as u128 * TILE_SIZE as u128) > isize::MAX as u128 {
                return Err(ReduceError::TooLarge { quadrant });
            }
            let samples = resize_lanczos3(&image, TILE_SIZE, TILE_SIZE);
            Ok(Raster::from_raw(TILE_SIZE, TILE_SIZE, samples).unwrap())
        },
        Err(_) => Err(ReduceError::Decode { quadrant }),
    }
}

/// `quadrants` has a quadrant of the right size for each source that is
/// present, and none for the others.
pub open spec fn quadrants_match(
    sources: Seq<Option<Vec<u8>>>,
    quadrants: Seq<Option<RasterView>>,
) -> bool {
    &&& sources.len() == 4
    &&& quadrants_ready(quadrants)
    &&& forall|k: int| 0 <= k < 4 ==> ((#[trigger] quadrants[k]) is Some <==> sources[k] is Some)
}

/// Some composition of quadrants that match `sources` has the PNG encoding
/// `encoded`.
pub open spec fn encodes_a_composition(
    sources: Seq<Option<Vec<u8>>>,
    encoded: Option<Seq<u8>>,
) -> bool {
    exists|tile: RasterView, quadrants: Seq<Option<RasterView>>|
        quadrants_match(sources, quadrants) && #[trigger] is_composition(tile, quadrants)
            && png_encoding(tile.width, tile.height, tile.samples) == encoded
}

/// Produces the coarser tile from the contents of its four source tiles.
///
/// `sources[2 * i + j]` holds the bytes of the source tile at column offset
/// `i` and row offset `j`, or `None` where that tile does not exist. Sources
/// are loaded in this order. The first one that is present and cannot be
/// loaded ends the work with its failure, and nothing else does: where every
/// present source can be loaded, the tile is composed and handed to the
/// encoder, and the result is the PNG stream of the composed tile unless the
/// encoder refuses it.
pub fn reduce_tile(sources: &Vec<Option<Vec<u8>>>) -> (reduced: Result<Vec<u8>, ReduceError>)
    requires
        sources@.len() == 4,
    ensures
        match first_failure(sources@, 0) {
            Some(failure) => reduced matches Err(error) && error == failure,
            None => match reduced {
                Ok(bytes) => encodes_a_composition(sources@, Some(bytes@)),
                Err(error) => error == ReduceError::Encode && encodes_a_composition(
                    sources@,
                    None,
                ),
            },
        },
{
    let mut quadrants: Vec<Option<Raster>> = Vec::new();
    let mut k: usize = 0;
    while k < 4
        invariant
            k <= 4,
            sources@.len() == 4,
            quadrants@.len() == k,
            first_failure(sources@, 0) == first_failure(sources@, k as int),
            forall|n: int|
                0 <= n < k ==> ((#[trigger] quadrants@[n]) is Some <==> sources@[n] is Some),
            forall|n: int|
                0 <= n < k ==> ((#[trigger] quadrants@[n]) matches Some(q) ==> tile_sized(q@)),
        decreases 4 - k,
    {
        match &sources[k] {
            Some(bytes) => {
                match load_quadrant(bytes, k) {
                    Ok(raster) => {
                        quadrants.push(Some(raster));
                    },
                    Err(error) => {
                        return Err(error);
                    },
                }
            },
            None => {
                quadrants.push(None);
            },
        }
        k += 1;
    }
    let ghost views = quadrant_views(quadrants@);
    assert(quadrants_match(sources@, views));
    let tile = compose_quadrants(&quadrants);
    let encoded = encode_tile(&tile);
    proof {
        let outcome = png_encoding(tile@.width, tile@.height, tile@.samples);
        assert(is_composition(tile@, views));
        assert(encodes_a_composition(sources@, outcome));
    }
    encoded
}

} // verus!
