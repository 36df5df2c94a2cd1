//! A geospatial codec: it converts geographic coordinates to and from compact
//! base32 strings ("geohashes"), computes the bounding box a hash denotes, and
//! derives the adjacent hash cells in the eight compass directions.
//!
//! Coordinates are carried in a fixed-point representation: an `i64` count of
//! units of `1 / SCALE` degrees, with `SCALE = 2^53`. Every interval bound the
//! refinement algorithm can produce is an integer in these units as long as a
//! hash has at most `MAX_HASH_LENGTH` characters, so the whole codec runs on
//! exact integer arithmetic.

use vstd::prelude::*;

pub mod codec;
pub mod model;
pub mod neighbors;
pub mod properties;

pub use codec::{decode, decode_bbox, encode, hash_value_of_char};
pub use neighbors::{neighbor, neighbors, Direction, Neighbors};

verus! {

/// Fixed-point units per degree: 2^53.
pub const SCALE: i64 = 9007199254740992;

/// Smallest valid longitude (-180 degrees), in fixed-point units.
pub const LON_MIN: i64 = -180 * SCALE;

/// Largest valid longitude (180 degrees), in fixed-point units.
pub const LON_MAX: i64 = 180 * SCALE;

/// Smallest valid latitude (-90 degrees), in fixed-point units.
pub const LAT_MIN: i64 = -90 * SCALE;

/// Largest valid latitude (90 degrees), in fixed-point units.
pub const LAT_MAX: i64 = 90 * SCALE;

/// Longest supported hash. A hash of `n` characters halves the longitude
/// interval `(5n + 1) / 2` times and the latitude interval `(5n) / 2` times;
/// at 21 characters every bound is still an even count of fixed-point units,
/// so midpoints stay exact. (Beyond roughly this length, subdividing further
/// no longer moves a midpoint representable at the coordinate resolution.)
pub const MAX_HASH_LENGTH: usize = 21;

/// A geographic position: `x` is the longitude and `y` the latitude, both as
/// fixed-point counts of `1 / SCALE` degrees.
#[derive(Clone, Copy, PartialEq, Eq, Structural, Debug)]
pub struct Coordinate {
    pub x: i64,
    pub y: i64,
}

/// An axis-aligned rectangle of coordinates, given by its two extreme corners.
#[derive(Clone, Copy, PartialEq, Eq, Structural, Debug)]
pub struct Rect {
    min: Coordinate,
    max: Coordinate,
}

impl Rect {
    /// The corner with the smallest longitude and latitude.
    pub closed spec fn spec_min(self) -> Coordinate {
        self.min
    }

    /// The corner with the largest longitude and latitude.
    pub closed spec fn spec_max(self) -> Coordinate {
        self.max
    }

    /// Builds the rectangle spanned by two corners, normalizing them so that
    /// `min` holds the smaller component on each axis.
    pub fn new(c1: Coordinate, c2: Coordinate) -> (r: Rect)
        ensures
            r.spec_min().x == if c1.x <= c2.x { c1.x } else { c2.x },
            r.spec_min().y == if c1.y <= c2.y { c1.y } else { c2.y },
            r.spec_max().x == if c1.x <= c2.x { c2.x } else { c1.x },
            r.spec_max().y == if c1.y <= c2.y { c2.y } else { c1.y },
    {
        let min_x = if c1.x <= c2.x { c1.x } else { c2.x };
        let max_x = if c1.x <= c2.x { c2.x } else { c1.x };
        let min_y = if c1.y <= c2.y { c1.y } else { c2.y };
        let max_y = if c1.y <= c2.y { c2.y } else { c1.y };
        Rect { min: Coordinate { x: min_x, y: min_y }, max: Coordinate { x: max_x, y: max_y } }
    }

    /// The corner with the smallest longitude and latitude.
    pub fn min(&self) -> (c: Coordinate)
        ensures
            c == self.spec_min(),
    {
        self.min
    }

    /// The corner with the largest longitude and latitude.
    pub fn max(&self) -> (c: Coordinate)
        ensures
            c == self.spec_max(),
    {
        self.max
    }
}

/// The two ways a codec operation can fail, each carrying the offending value.
#[derive(Clone, Copy, PartialEq, Eq, Structural, Debug)]
pub enum GeohashError {
    /// A coordinate outside the valid longitude or latitude range was given
    /// to the encoder (directly, or through a neighbor probe).
    InvalidCoordinateRange(Coordinate),
    /// A character outside the base32 alphabet was met while decoding.
    InvalidHashCharacter(char),
}

} // verus!
