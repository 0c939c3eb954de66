//! Errors of the library.

use vstd::prelude::*;

verus! {

/// What can go wrong when a part of an image is read.
#[derive(Debug)]
pub enum BackhandError {
    /// No known compression yields anything for a block.
    UnsupportedCompression(String),
    /// The extended attribute table holds something unknown.
    InvalidXattrTable(String),
}

} // verus!
