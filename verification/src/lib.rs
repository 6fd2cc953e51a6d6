//! Tile-mosaic core: converts a projected-plane bounding box into a grid of
//! map-tile addresses, coordinates a bounded-concurrency fetch of those tiles,
//! and builds a georeferenced mosaic descriptor for downstream raster tools.

pub mod client;
pub mod descriptor;
pub mod grid;
pub mod scheduler;
