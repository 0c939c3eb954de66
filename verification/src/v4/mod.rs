//! Version 4 images.

pub mod laws;
pub mod xattr;
