//! Compass directions and adjacent-cell computation.

use crate::codec::{decode, encode};
use crate::model::{
    bbox_of_hash, in_range, is_first_invalid, lat_error, lon_error, midpoint, spec_encode,
    valid_hash,
};
use crate::{Coordinate, GeohashError, MAX_HASH_LENGTH, SCALE};
use vstd::prelude::*;
use vstd::string::StrSliceExecFns;

verus! {

/// One of the eight compass directions, each mapping to a unit sign vector
/// `(delta latitude, delta longitude)`.
#[derive(Clone, Copy, PartialEq, Eq, Structural, Debug)]
pub enum Direction {
    N,
    NE,
    E,
    SE,
    S,
    SW,
    W,
    NW,
}

/// The latitude component of a direction's sign vector.
pub open spec fn delta_lat(d: Direction) -> int {
    match d {
        Direction::N => 1,
        Direction::NE => 1,
        Direction::E => 0,
        Direction::SE => -1,
        Direction::S => -1,
        Direction::SW => -1,
        Direction::W => 0,
        Direction::NW => 1,
    }
}

/// The longitude component of a direction's sign vector.
pub open spec fn delta_lng(d: Direction) -> int {
    match d {
        Direction::N => 0,
        Direction::NE => 1,
        Direction::E => 1,
        Direction::SE => 1,
        Direction::S => 0,
        Direction::SW => -1,
        Direction::W => -1,
        Direction::NW => -1,
    }
}

impl Direction {
    /// The direction's sign vector as `(delta latitude, delta longitude)`.
    pub fn to_tuple(&self) -> (r: (i64, i64))
        ensures
            r.0 == delta_lat(*self),
            r.1 == delta_lng(*self),
    {
        match self {
            Direction::N => (1, 0),
            Direction::NE => (1, 1),
            Direction::E => (0, 1),
            Direction::SE => (-1, 1),
            Direction::S => (-1, 0),
            Direction::SW => (-1, -1),
            Direction::W => (0, -1),
            Direction::NW => (1, -1),
        }
    }
}

/// The eight compass neighbors of a hash, all at the same precision.
#[derive(Clone, PartialEq, Eq, Debug)]
pub struct Neighbors {
    pub n: String,
    pub ne: String,
    pub e: String,
    pub se: String,
    pub s: String,
    pub sw: String,
    pub w: String,
    pub nw: String,
}

/// The longitude the neighbor finder probes: the cell's center moved one
/// full cell width in the direction's longitude sign.
pub open spec fn probe_x(h: Seq<char>, d: Direction) -> int {
    let b = bbox_of_hash(h);
    midpoint(b.lon_lo, b.lon_hi) + 2 * lon_error(b) * delta_lng(d)
}

/// The latitude the neighbor finder probes.
pub open spec fn probe_y(h: Seq<char>, d: Direction) -> int {
    let b = bbox_of_hash(h);
    midpoint(b.lat_lo, b.lat_hi) + 2 * lat_error(b) * delta_lat(d)
}

/// The probe stays within the valid coordinate ranges: the adjacent cell
/// exists without wrapping around the antimeridian or the poles.
pub open spec fn probe_in_range(h: Seq<char>, d: Direction) -> bool {
    in_range(probe_x(h, d), probe_y(h, d))
}

/// The probed point as a coordinate value.
pub open spec fn probe_coordinate(h: Seq<char>, d: Direction) -> Coordinate {
    Coordinate { x: probe_x(h, d) as i64, y: probe_y(h, d) as i64 }
}

/// The range error a failing probe reports.
pub open spec fn range_error(h: Seq<char>, d: Direction) -> GeohashError {
    GeohashError::InvalidCoordinateRange(probe_coordinate(h, d))
}

/// The hash of the adjacent cell: the probed point encoded at the same
/// length as the source hash.
pub open spec fn spec_neighbor(h: Seq<char>, d: Direction) -> Seq<char> {
    spec_encode(probe_x(h, d), probe_y(h, d), h.len())
}

/// Find the adjacent geohash of the same length in the given direction.
///
/// The cell's decoded center sits at its midpoint, so stepping by exactly
/// twice the half-cell error lands inside the adjacent cell and never two
/// cells away. A probe that leaves the valid coordinate range fails with
/// the encoder's range error: there is no wraparound at the antimeridian or
/// the poles.
pub fn neighbor(hash_str: &str, direction: Direction) -> (r: Result<String, GeohashError>)
    requires
        hash_str@.len() <= MAX_HASH_LENGTH,
    ensures
        valid_hash(hash_str@) && probe_in_range(hash_str@, direction) ==> r is Ok
            && r->Ok_0@ == spec_neighbor(hash_str@, direction) && r->Ok_0@.len()
            == hash_str@.len() && valid_hash(r->Ok_0@),
        valid_hash(hash_str@) && !probe_in_range(hash_str@, direction) ==> r is Err && r->Err_0
            == range_error(hash_str@, direction),
        !valid_hash(hash_str@) ==> r is Err && exists|i: int|
            is_first_invalid(hash_str@, i) && r->Err_0 == GeohashError::InvalidHashCharacter(
                hash_str@[i],
            ),
{
    let decoded = match decode(hash_str) {
        Ok(t) => t,
        Err(err) => {
            return Err(err);
        },
    };
    let coord = decoded.0;
    let lon_err = decoded.1;
    let lat_err = decoded.2;
    let deltas = direction.to_tuple();
    let dlat = deltas.0;
    let dlng = deltas.1;
    proof {
        assert(-(360 * SCALE) <= 2 * (lon_err as int) * (dlng as int) <= 360 * SCALE) by {
            if dlng == 0 {
            } else if dlng == 1 {
            } else {
            }
        }
        assert(-(180 * SCALE) <= 2 * (lat_err as int) * (dlat as int) <= 180 * SCALE) by {
            if dlat == 0 {
            } else if dlat == 1 {
            } else {
            }
        }
    }
    let px: i64 = coord.x + 2 * lon_err * dlng;
    let py: i64 = coord.y + 2 * lat_err * dlat;
    encode(Coordinate { x: px, y: py }, hash_str.unicode_len())
}

/// All eight probes of a hash stay within the valid coordinate ranges.
pub open spec fn all_probes_in_range(h: Seq<char>) -> bool {
    probe_in_range(h, Direction::SW) && probe_in_range(h, Direction::S) && probe_in_range(
        h,
        Direction::SE,
    ) && probe_in_range(h, Direction::W) && probe_in_range(h, Direction::E) && probe_in_range(
        h,
        Direction::NW,
    ) && probe_in_range(h, Direction::N) && probe_in_range(h, Direction::NE)
}

/// The error `neighbors` reports when a probe leaves the valid range: the
/// range error of the first failing direction, in the order the directions
/// are tried.
pub open spec fn first_range_error(h: Seq<char>) -> GeohashError {
    if !probe_in_range(h, Direction::SW) {
        range_error(h, Direction::SW)
    } else if !probe_in_range(h, Direction::S) {
        range_error(h, Direction::S)
    } else if !probe_in_range(h, Direction::SE) {
        range_error(h, Direction::SE)
    } else if !probe_in_range(h, Direction::W) {
        range_error(h, Direction::W)
    } else if !probe_in_range(h, Direction::E) {
        range_error(h, Direction::E)
    } else if !probe_in_range(h, Direction::NW) {
        range_error(h, Direction::NW)
    } else if !probe_in_range(h, Direction::N) {
        range_error(h, Direction::N)
    } else {
        range_error(h, Direction::NE)
    }
}

/// Find all eight compass neighbors of a hash, at the same length.
///
/// All-or-nothing: the first failing direction's error fails the whole
/// call, and no partial record is returned.
pub fn neighbors(hash_str: &str) -> (r: Result<Neighbors, GeohashError>)
    requires
        hash_str@.len() <= MAX_HASH_LENGTH,
    ensures
        valid_hash(hash_str@) && all_probes_in_range(hash_str@) ==> r is Ok && ({
            let ns = r->Ok_0;
            ns.n@ == spec_neighbor(hash_str@, Direction::N) && ns.ne@ == spec_neighbor(
                hash_str@,
                Direction::NE,
            ) && ns.e@ == spec_neighbor(hash_str@, Direction::E) && ns.se@ == spec_neighbor(
                hash_str@,
                Direction::SE,
            ) && ns.s@ == spec_neighbor(hash_str@, Direction::S) && ns.sw@ == spec_neighbor(
                hash_str@,
                Direction::SW,
            ) && ns.w@ == spec_neighbor(hash_str@, Direction::W) && ns.nw@ == spec_neighbor(
                hash_str@,
                Direction::NW,
            )
        }),
        valid_hash(hash_str@) && !all_probes_in_range(hash_str@) ==> r is Err && r->Err_0
            == first_range_error(hash_str@),
        !valid_hash(hash_str@) ==> r is Err && exists|i: int|
            is_first_invalid(hash_str@, i) && r->Err_0 == GeohashError::InvalidHashCharacter(
                hash_str@[i],
            ),
{
    let sw = match neighbor(hash_str, Direction::SW) {
        Ok(v) => v,
        Err(err) => {
            return Err(err);
        },
    };
    let s = match neighbor(hash_str, Direction::S) {
        Ok(v) => v,
        Err(err) => {
            return Err(err);
        },
    };
    let se = match neighbor(hash_str, Direction::SE) {
        Ok(v) => v,
        Err(err) => {
            return Err(err);
        },
    };
    let w = match neighbor(hash_str, Direction::W) {
        Ok(v) => v,
        Err(err) => {
            return Err(err);
        },
    };
    let east = match neighbor(hash_str, Direction::E) {
        Ok(v) => v,
        Err(err) => {
            return Err(err);
        },
    };
    let nw = match neighbor(hash_str, Direction::NW) {
        Ok(v) => v,
        Err(err) => {
            return Err(err);
        },
    };
    let n = match neighbor(hash_str, Direction::N) {
        Ok(v) => v,
        Err(err) => {
            return Err(err);
        },
    };
    let ne = match neighbor(hash_str, Direction::NE) {
        Ok(v) => v,
        Err(err) => {
            return Err(err);
        },
    };
    Ok(Neighbors { n, ne, e: east, se, s, sw, w, nw })
}

} // verus!
