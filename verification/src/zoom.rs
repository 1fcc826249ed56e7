//! Zoom levels: where a run starts and which reduction passes it makes.
//!
//! Lower zoom values are coarser. A run starts at the most detailed level the
//! dataset holds and derives every coarser level down to a minimum.

use vstd::prelude::*;

verus! {

/// Some level in `[min_zoom, max_zoom]` is populated.
pub open spec fn level_found(present: Seq<u8>, max_zoom: u8, min_zoom: u8) -> bool {
    exists|z: u8| min_zoom <= z <= max_zoom && #[trigger] present.contains(z)
}

/// `zoom` is the most detailed populated level in `[min_zoom, max_zoom]`.
pub open spec fn is_last_level(present: Seq<u8>, max_zoom: u8, min_zoom: u8, zoom: u8) -> bool {
    &&& min_zoom <= zoom <= max_zoom
    &&& present.contains(zoom)
    &&& forall|z: u8| zoom < z <= max_zoom ==> !#[trigger] present.contains(z)
}

/// Whether `zoom` occurs in `present`.
pub fn level_present(present: &Vec<u8>, zoom: u8) -> (found: bool)
    ensures
        found == present@.contains(zoom),
{
    let mut i: usize = 0;
    while i < present.len()
        invariant
            i <= present.len(),
            forall|k: int| 0 <= k < i ==> present@[k] != zoom,
        decreases present.len() - i,
    {
        if present[i] == zoom {
            return true;
        }
        i += 1;
    }
    false
}

/// Finds the level a run starts from.
///
/// `present` lists the zoom levels whose directory exists under the dataset
/// root, in any order and with repetitions allowed. The result is the greatest
/// level of `[min_zoom, max_zoom]` among them. When the range holds no
/// populated level (an empty range included) the result is `min_zoom`, so that
/// the run that follows makes no pass at all.
pub fn find_last_zoom_level(present: &Vec<u8>, max_zoom: u8, min_zoom: u8) -> (zoom: u8)
    ensures
        level_found(present@, max_zoom, min_zoom) ==> is_last_level(
            present@,
            max_zoom,
            min_zoom,
            zoom,
        ),
        !level_found(present@, max_zoom, min_zoom) ==> zoom == min_zoom,
{
    if max_zoom < min_zoom {
        return min_zoom;
    }
    let mut zoom: u8 = max_zoom;
    loop
        invariant
            min_zoom <= zoom <= max_zoom,
            forall|z: u8| zoom < z <= max_zoom ==> !#[trigger] present@.contains(z),
        decreases zoom - min_zoom,
    {
        if level_present(present, zoom) {
            return zoom;
        }
        if zoom == min_zoom {
            return min_zoom;
        }
        zoom -= 1;
    }
}

/// The passes of a run that starts at `start` and stops at `min_zoom`, as
/// pairs of source level and destination level, most detailed first.
pub open spec fn passes(start: u8, min_zoom: u8) -> Seq<(u8, u8)> {
    Seq::new(
        if start > min_zoom {
            (start - min_zoom) as nat
        } else {
            0
        },
        |k: int| ((start - k) as u8, (start - k - 1) as u8),
    )
}

/// Lists the reduction passes of a run: every level below `start` down to
/// `min_zoom` is derived from the level just above it, in descending order.
/// A level is derived even when the level above it turned out empty.
pub fn pass_levels(start: u8, min_zoom: u8) -> (levels: Vec<(u8, u8)>)
    ensures
        levels@ == passes(start, min_zoom),
{
    let mut levels: Vec<(u8, u8)> = Vec::new();
    let mut zoom: u8 = start;
    while zoom > min_zoom
        invariant
            zoom <= start,
            start > min_zoom ==> zoom >= min_zoom,
            start <= min_zoom ==> zoom == start,
            levels@.len() == start - zoom,
            forall|k: int| 0 <= k < levels@.len() ==> levels@[k] == passes(start, min_zoom)[k],
        decreases zoom,
    {
        levels.push((zoom, zoom - 1));
        zoom -= 1;
    }
    assert(levels@ =~= passes(start, min_zoom));
    levels
}

/// Every pass steps down by exactly one level, the first pass reads `start`
/// and the last one writes `min_zoom`.
pub proof fn lemma_passes_descend(start: u8, min_zoom: u8)
    ensures
        forall|k: int|
            0 <= k < passes(start, min_zoom).len() ==> {
                let p = #[trigger] passes(start, min_zoom)[k];
                &&& p.0 == p.1 + 1
                &&& min_zoom <= p.1 < start
            },
        forall|k: int|
            0 < k < passes(start, min_zoom).len() ==> (#[trigger] passes(start, min_zoom)[k]).0
                == passes(start, min_zoom)[k - 1].1,
        start > min_zoom ==> passes(start, min_zoom).first().0 == start && passes(
            start,
            min_zoom,
        ).last().1 == min_zoom,
{
}

/// A range of a single level starts at that level and needs no pass, whether
/// or not the level is populated.
pub proof fn lemma_single_level_makes_no_pass(present: Seq<u8>, zoom: u8, found: u8)
    requires
        level_found(present, zoom, zoom) ==> is_last_level(present, zoom, zoom, found),
        !level_found(present, zoom, zoom) ==> found == zoom,
    ensures
        found == zoom,
        passes(found, zoom) =~= Seq::<(u8, u8)>::empty(),
{
}

} // verus!
