//! Merging of per-tile voxel map caches.
//!
//! A tile is a grid of 256 x 256 columns stored layer by layer. Many
//! contributors record the same tile, each only in part and each under
//! block ids of their own. This library decodes such tiles, reconciles the
//! block ids, and merges the records of one tile chunk by chunk, the most
//! recent record of a chunk winning.

pub mod archive;
pub mod bounds;
pub mod buf_rw;
pub mod codec;
pub mod colorizer;
pub mod columns;
pub mod converter;
pub mod decimal;
pub mod key_text;
pub mod keyless;
pub mod keys;
pub mod mc;
pub mod laws;
pub mod merge;
pub mod orchestrate;
pub mod position;
pub mod processor;
pub mod recency;
pub mod replay;
pub mod sort;
pub mod stats;
pub mod text;
pub mod tile;
pub mod tile_path;

pub use bounds::{
    parse_bounds, BoundsError, REGION_CHUNKS, REGION_COLUMNS, REGION_HEIGHT, REGION_WIDTH,
};
pub use keyless::get_block_name_from_voxelmap;
pub use orchestrate::PROGRESS_INTERVAL;
pub use tile::{
    CHUNK_COLUMNS, CHUNK_HEIGHT, CHUNK_WIDTH, TILE_CHUNKS, TILE_COLUMNS, TILE_HEIGHT, TILE_WIDTH,
};
