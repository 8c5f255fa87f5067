//! Errors of level construction.  Per-frame simulation code cannot fail:
//! these arise only while a level is being built from its tile grid, and
//! they are fatal to that construction call alone.

use vstd::prelude::*;

verus! {

/// Why building a level failed.
#[derive(Clone, Copy, PartialEq, Eq, Structural, Debug)]
pub enum LoadError {
    /// A tile token is not a valid small nonnegative integer.
    ParseError,
    /// The rows of the tile grid have unequal lengths.
    ShapeError,
    /// No rows were supplied.
    EmptyLevelError,
    /// A texture a tile kind needs cannot be resolved.
    MissingResourceError,
}

} // verus!
