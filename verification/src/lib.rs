//! Descending image pyramids for tiled map datasets.
//!
//! A dataset stores one directory per zoom level and, inside it, one raster
//! tile per grid cell at `<zoom>/<x>/<y>.png`. Starting from the most
//! detailed level that is populated, every coarser level is derived from the
//! level above it: each tile is composed of the four tiles of its quad, each
//! resampled to a quarter of the area, with full transparency where a tile
//! of the quad does not exist.
//!
//! The library works on plain values and touches no file. A caller finds out
//! which levels and files exist, reads and writes them, and leaves every
//! decision to the library:
//!
//! * [`zoom`] finds the level to start from and lists the passes of a run;
//! * [`listing`] names the tiles of a level from what its directories hold;
//! * [`plan`] says, for a tile of the finer level, which coarse tile it gives
//!   rise to, where that tile is written and which files it is composed from;
//! * [`reduce`] turns the contents of those files into the coarse tile;
//! * [`quad`], [`path`], [`decimal`] and [`raster`] hold the grid relation,
//!   the file layout, number formatting and the pixel buffers these rest on;
//! * [`codec`] is the boundary to the image codec.

pub mod codec;
pub mod decimal;
pub mod listing;
pub mod path;
pub mod plan;
pub mod quad;
pub mod raster;
pub mod reduce;
pub mod zoom;
