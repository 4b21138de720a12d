//! Morton (Z-order) codec for 16-bit coordinate pairs, and a tiled layout
//! that repacks a row-major grid into square tiles ordered by Morton key.
pub mod codec;
pub mod layout;
pub mod tiling;
pub mod utils;

pub use codec::{deinterleave_morton, interleave_morton};
pub use layout::{build_tiled_layout, DimensionMismatch, Tile, TiledLayout};
pub use tiling::derive_tile_side;
