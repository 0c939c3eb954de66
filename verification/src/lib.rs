//! Pieces of a SquashFS reader: the adaptive LZMA block decompressor of version 3 images and the
//! extended attribute tables of version 4 images.

pub mod endian;
pub mod error;
pub mod traits;
pub mod v3_lzma;
pub mod v4;
