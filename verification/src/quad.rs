//! The fixed relation between a coarse tile and the four finer tiles under it.
//!
//! The coarse tile `(bx, by)` is derived from the finer tiles
//! `(2bx, 2by)`, `(2bx, 2by + 1)`, `(2bx + 1, 2by)` and `(2bx + 1, 2by + 1)`,
//! whichever of them exist. Seen from below, the finer tile `(x, y)` belongs
//! to the coarse tile `(x / 2, y / 2)`.

use vstd::prelude::*;

verus! {

/// The coarse cell that covers the finer cell `(x, y)`.
pub open spec fn parent_of(x: int, y: int) -> (int, int) {
    (x / 2, y / 2)
}

/// The four finer cells under the coarse cell `(bx, by)`. The cell at column
/// offset `i` and row offset `j` stands at position `2 * i + j`.
pub open spec fn quad_of(bx: int, by: int) -> Seq<(int, int)> {
    seq![(2 * bx, 2 * by), (2 * bx, 2 * by + 1), (2 * bx + 1, 2 * by), (2 * bx + 1, 2 * by + 1)]
}

/// Position of the finer cell `(x, y)` in the quad of its parent.
pub open spec fn quadrant_of(x: int, y: int) -> int {
    2 * (x % 2) + y % 2
}

/// The coarse cell that covers the finer cell `(x, y)`.
pub fn parent_coord(x: u32, y: u32) -> (parent: (u32, u32))
    ensures
        (parent.0 as int, parent.1 as int) == parent_of(x as int, y as int),
{
    (x / 2, y / 2)
}

/// The four finer cells that the coarse cell `(bx, by)` is derived from, in
/// the order of their quadrants. No other cell is consulted.
pub fn quad_sources(bx: u32, by: u32) -> (sources: Vec<(u32, u32)>)
    requires
        2 * bx + 1 <= u32::MAX,
        2 * by + 1 <= u32::MAX,
    ensures
        sources@.len() == 4,
        forall|k: int|
            0 <= k < 4 ==> ((#[trigger] sources@[k]).0 as int, sources@[k].1 as int) == quad_of(
                bx as int,
                by as int,
            )[k],
{
    let mut sources: Vec<(u32, u32)> = Vec::new();
    let mut i: u32 = 0;
    while i < 2
        invariant
            i <= 2,
            2 * bx + 1 <= u32::MAX,
            2 * by + 1 <= u32::MAX,
            sources@.len() == 2 * i,
            forall|k: int|
                0 <= k < sources@.len() ==> ((#[trigger] sources@[k]).0 as int, sources@[k].1 as int)
                    == quad_of(bx as int, by as int)[k],
        decreases 2 - i,
    {
        let mut j: u32 = 0;
        while j < 2
            invariant
                i < 2,
                j <= 2,
                2 * bx + 1 <= u32::MAX,
                2 * by + 1 <= u32::MAX,
                sources@.len() == 2 * i + j,
                forall|k: int|
                    0 <= k < sources@.len() ==> ((#[trigger] sources@[k]).0 as int, sources@[k].1 as int)
                        == quad_of(bx as int, by as int)[k],
            decreases 2 - j,
        {
            sources.push((bx * 2 + i, by * 2 + j));
            j += 1;
        }
        i += 1;
    }
    sources
}

/// The quad of a coarse cell holds exactly the cells that the coarse cell
/// covers: a finer cell is one of the four if and only if its parent is the
/// coarse cell.
pub proof fn lemma_quad_is_all_children(bx: int, by: int, x: int, y: int)
    ensures
        quad_of(bx, by).contains((x, y)) <==> parent_of(x, y) == (bx, by),
{
    let quad = quad_of(bx, by);
    if parent_of(x, y) == (bx, by) {
        assert(quad[quadrant_of(x, y)] == (x, y));
    }
    if quad.contains((x, y)) {
        let k = choose|k: int| 0 <= k < quad.len() && quad[k] == (x, y);
        assert(k == 0 || k == 1 || k == 2 || k == 3);
    }
}

/// Every cell is one of the four cells of its own parent, at the position of
/// its quadrant. A coarse tile that is derived because a finer tile exists
/// therefore has at least that tile among its sources.
pub proof fn lemma_cell_in_parent_quad(x: int, y: int)
    ensures
        0 <= quadrant_of(x, y) < 4,
        quad_of(x / 2, y / 2)[quadrant_of(x, y)] == (x, y),
{
}

} // verus!
