//! Procedural tile-map generation by wave function collapse.
//!
//! A grid of cells starts with every tile of a catalog possible in every
//! cell.  The generator repeatedly pins the most constrained cell to one
//! tile, chosen at random by weight, and narrows the candidates of the
//! surrounding cells until they agree on their shared edges.
pub mod catalog;
pub mod collapse;
pub mod generator;
pub mod grid;
pub mod propagate;
pub mod tiles;

pub use catalog::{make_tile_indexes, MAP_HEIGHT, MAP_WIDTH, STANDARD_FALLBACK};
pub use generator::{collapse, generate, generate_map, run, Generation};
pub use grid::Grid;
pub use tiles::{Catalog, Edge, Side, TileDef, TileKind};
