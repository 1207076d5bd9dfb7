//! Export of sparse voxel maps to gzip-framed NBT files.
//!
//! A [`VoxelMap`] assigns block identifiers to integer grid positions. The
//! encoders turn such a map into one of two tagged trees (the dense byte-grid
//! schematic and the per-cell structure), the tree is rendered to bytes, and the
//! bytes are framed as a gzip stream that carries a file name and a time stamp.
//! Every step up to the bytes of the final stream is computed here; writing
//! them to disk is left to the caller.

pub mod error;
pub mod export;
pub mod gzip;
pub mod input;
pub mod layout;
pub mod nbt;
pub mod palette;
pub mod schem;
pub mod structure;
pub mod voxel;

pub use error::ExportError;
pub use export::{encode, export_bytes, nbt_stream};
pub use gzip::{frame, gzip_frame};
pub use input::{is_space, parse_key, voxels_from_json, voxels_from_pairs};
pub use layout::{dense_codes, Layout};
pub use palette::Palette;
pub use schem::{assemble_schem, dense_grid, to_schem};
pub use structure::{
    assemble_structure, block_records, get_block, record_column, records_from_codes, to_structure,
    BlockRecord,
};
pub use voxel::{BoundingBox, Voxel, VoxelMap};
