//! What reducing one tile reads and writes.
//!
//! Every tile found at the finer level names one tile of the coarser level:
//! the parent of its cell. The plan for it says where that tile is written
//! and which four files it is composed from.

use crate::path::column_dir;
use crate::path::column_dir_of;
use crate::path::image_path_coords;
use crate::path::lemma_tile_name_round_trip;
use crate::path::parse_tile_file;
use crate::path::png_suffix;
use crate::path::tile_path;
use crate::path::tile_path_of;
use crate::path::without_png_suffix;
use crate::path::PathError;
use crate::decimal::decimal;
use crate::quad::lemma_cell_in_parent_quad;
use crate::quad::parent_coord;
use crate::quad::quad_of;
use crate::quad::quad_sources;
use crate::quad::quadrant_of;
use vstd::prelude::*;

verus! {

/// The files involved in deriving one coarse tile.
#[derive(Debug, Clone)]
pub struct TilePlan {
    /// Column of the coarse tile.
    pub x: u32,
    /// Row of the coarse tile.
    pub y: u32,
    /// Directory that must exist before the tile is written.
    pub directory: String,
    /// File that the tile is written to, replacing what is there.
    pub path: String,
    /// The four source files in the order of their quadrants. Each may or
    /// may not exist.
    pub sources: Vec<String>,
}

/// `plan` is the plan for the coarse tile above the finer cell `(x, y)`,
/// read at level `zoom` and written at level `output_zoom` under `root`.
pub open spec fn plans_parent_of(
    plan: TilePlan,
    root: Seq<char>,
    zoom: nat,
    output_zoom: nat,
    x: u32,
    y: u32,
) -> bool {
    &&& plan.x == x / 2
    &&& plan.y == y / 2
    &&& plan.directory@ == column_dir_of(root, output_zoom, plan.x as nat)
    &&& plan.path@ == tile_path_of(root, output_zoom, plan.x as nat, plan.y as nat)
    &&& plan.sources@.len() == 4
    &&& forall|k: int|
        0 <= k < 4 ==> (#[trigger] plan.sources@[k])@ == tile_path_of(
            root,
            zoom,
            quad_of(plan.x as int, plan.y as int)[k].0 as nat,
            quad_of(plan.x as int, plan.y as int)[k].1 as nat,
        )
}

/// Plans the reduction that a tile of the finer level gives rise to.
///
/// `image_path` is the name of the tile relative to `root`:
/// `<zoom>/<x>/<y>.png`. A name without the extension `.png` names no tile
/// and gives no plan. A name that does not follow the layout is an error.
/// Otherwise the plan is for the coarse tile `(x / 2, y / 2)`: it is written
/// below `<root>/<output_zoom_level>` and composed from the four tiles of its
/// quad below `<root>/<zoom_level>`.
pub fn plan_tile(root: &str, image_path: &str, zoom_level: u8, output_zoom_level: u8) -> (plan:
    Result<Option<TilePlan>, PathError>)
    ensures
        match without_png_suffix(image_path@) {
            None => plan matches Ok(None),
            Some(stem) => match image_path_coords(stem) {
                Err(error) => plan matches Err(e) && e == error,
                Ok((x, y)) => plan matches Ok(Some(p)) && plans_parent_of(
                    p,
                    root@,
                    zoom_level as nat,
                    output_zoom_level as nat,
                    x,
                    y,
                ),
            },
        },
{
    let (x, y) = match parse_tile_file(image_path) {
        None => {
            return Ok(None);
        },
        Some(Err(error)) => {
            return Err(error);
        },
        Some(Ok(coords)) => coords,
    };
    let (back_x, back_y) = parent_coord(x, y);
    let cells = quad_sources(back_x, back_y);
    let mut sources: Vec<String> = Vec::new();
    let mut k: usize = 0;
    while k < 4
        invariant
            k <= 4,
            cells@.len() == 4,
            forall|n: int|
                0 <= n < 4 ==> ((#[trigger] cells@[n]).0 as int, cells@[n].1 as int) == quad_of(
                    back_x as int,
                    back_y as int,
                )[n],
            sources@.len() == k,
            forall|n: int|
                0 <= n < k ==> (#[trigger] sources@[n])@ == tile_path_of(
                    root@,
                    zoom_level as nat,
                    quad_of(back_x as int, back_y as int)[n].0 as nat,
                    quad_of(back_x as int, back_y as int)[n].1 as nat,
                ),
        decreases 4 - k,
    {
        let (source_x, source_y) = cells[k];
        sources.push(tile_path(root, zoom_level, source_x, source_y));
        k += 1;
    }
    Ok(
        Some(
            TilePlan {
                x: back_x,
                y: back_y,
                directory: column_dir(root, output_zoom_level, back_x),
                path: tile_path(root, output_zoom_level, back_x, back_y),
                sources,
            },
        ),
    )
}

/// The name of the tile `(x, y)` of level `zoom`, relative to the dataset
/// root.
pub open spec fn tile_name_of(zoom: nat, x: nat, y: nat) -> Seq<char> {
    decimal(zoom) + seq!['/'] + decimal(x) + seq!['/'] + decimal(y) + png_suffix()
}

/// The tile that gives rise to a plan is one of the plan's sources: for the
/// tile `(x, y)` of level `zoom`, stored under its plain decimal name, the
/// name denotes `(x, y)`, and the source at the position of the tile's
/// quadrant is the very file `<root>/<name>`. So a plan made for a file that
/// exists never has all four sources absent.
pub proof fn lemma_found_tile_is_a_source(
    plan: TilePlan,
    root: Seq<char>,
    zoom: u8,
    output_zoom: u8,
    x: u32,
    y: u32,
)
    requires
        plans_parent_of(plan, root, zoom as nat, output_zoom as nat, x, y),
    ensures
        without_png_suffix(tile_name_of(zoom as nat, x as nat, y as nat)) matches Some(stem)
            && image_path_coords(stem) == Ok::<(u32, u32), PathError>((x, y)),
        0 <= quadrant_of(x as int, y as int) < 4,
        plan.sources@[quadrant_of(x as int, y as int)]@ == root + seq!['/'] + tile_name_of(
            zoom as nat,
            x as nat,
            y as nat,
        ),
{
    crate::path::lemma_decimal_separator_free(zoom as nat);
    lemma_tile_name_round_trip(decimal(zoom as nat), x, y);
    lemma_cell_in_parent_quad(x as int, y as int);
    let k = quadrant_of(x as int, y as int);
    assert(plan.sources@[k]@ == tile_path_of(root, zoom as nat, x as nat, y as nat));
    assert(tile_path_of(root, zoom as nat, x as nat, y as nat) =~= root + seq!['/'] + tile_name_of(
        zoom as nat,
        x as nat,
        y as nat,
    ));
}

} // verus!
