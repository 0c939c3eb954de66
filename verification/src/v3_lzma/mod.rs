//! Version 3 images whose blocks are compressed with LZMA in one of several framings.

pub mod alone;
pub mod compressor;
pub mod laws;
pub mod outcome_laws;
pub mod raw_stream;
