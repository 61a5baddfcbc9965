//! Plane geometry on longitude/latitude pairs held as fixed-point angles.
//!
//! An angle is an `i64` counting units of 10^-8 radian (about 6.4 cm on the
//! Earth's surface). Great-circle trigonometry is not done here: this module
//! only orders and bounds coordinates.

use vstd::prelude::*;

verus! {

/// Angle units per radian.
pub const ANGLE_UNITS_PER_RADIAN: i64 = 100_000_000;

/// The half turn (pi radians) in angle units, rounded up.
pub const HALF_TURN: i64 = 314_159_266;

/// The quarter turn (pi/2 radians) in angle units, rounded up.
pub const QUARTER_TURN: i64 = 157_079_633;

/// Largest magnitude a coordinate of an indexed envelope may have (2^29).
///
/// Extents of two such coordinates, their products and the sums of a few such
/// products all stay inside `i64`.
pub const COORD_LIMIT: i64 = 536_870_912;

/// A point on the sphere: longitude and latitude in angle units.
#[derive(Clone, Copy, Debug, PartialEq, Eq, Structural)]
pub struct GeoPoint {
    pub lon: i64,
    pub lat: i64,
}

/// An axis-aligned longitude/latitude box, given by two opposite corners.
#[derive(Clone, Copy, Debug, PartialEq, Eq, Structural)]
pub struct Envelope {
    pub min: GeoPoint,
    pub max: GeoPoint,
}

/// `x` moved to the nearest value in `[lo, hi]`.
pub open spec fn clamp_spec(x: int, lo: int, hi: int) -> int {
    if x < lo {
        lo
    } else if x > hi {
        hi
    } else {
        x
    }
}

/// The smaller of two integers.
pub open spec fn min_spec(a: int, b: int) -> int {
    if a <= b {
        a
    } else {
        b
    }
}

/// The larger of two integers.
pub open spec fn max_spec(a: int, b: int) -> int {
    if a >= b {
        a
    } else {
        b
    }
}

/// Clamps a coordinate into `[-COORD_LIMIT, COORD_LIMIT]`.
pub fn clamp_coord(x: i64) -> (r: i64)
    ensures
        r == clamp_spec(x as int, -(COORD_LIMIT as int), COORD_LIMIT as int),
        -COORD_LIMIT <= r <= COORD_LIMIT,
{
    if x < -COORD_LIMIT {
        -COORD_LIMIT
    } else if x > COORD_LIMIT {
        COORD_LIMIT
    } else {
        x
    }
}

impl GeoPoint {
    /// Longitude within half a turn of zero, latitude within a quarter turn.
    pub open spec fn is_valid(self) -> bool {
        &&& -HALF_TURN <= self.lon <= HALF_TURN
        &&& -QUARTER_TURN <= self.lat <= QUARTER_TURN
    }

    /// Tells whether the point lies in the valid longitude/latitude range.
    pub fn in_range(&self) -> (b: bool)
        ensures
            b == self.is_valid(),
    {
        -HALF_TURN <= self.lon && self.lon <= HALF_TURN && -QUARTER_TURN <= self.lat && self.lat
            <= QUARTER_TURN
    }
}

impl Envelope {
    /// Corners are ordered and every coordinate is within `COORD_LIMIT`.
    pub open spec fn is_bounded(self) -> bool {
        &&& -COORD_LIMIT <= self.min.lon <= self.max.lon <= COORD_LIMIT
        &&& -COORD_LIMIT <= self.min.lat <= self.max.lat <= COORD_LIMIT
    }

    /// The point lies inside the box, borders included.
    pub open spec fn contains(self, p: GeoPoint) -> bool {
        &&& self.min.lon <= p.lon <= self.max.lon
        &&& self.min.lat <= p.lat <= self.max.lat
    }

    /// Every point of `other` lies inside `self`, provided `other` is ordered.
    pub open spec fn covers(self, other: Envelope) -> bool {
        &&& self.min.lon <= other.min.lon
        &&& self.min.lat <= other.min.lat
        &&& other.max.lon <= self.max.lon
        &&& other.max.lat <= self.max.lat
    }

    /// The box spanned by two corners given in any order, cut to the
    /// coordinate limit.
    pub open spec fn spanning_spec(a: GeoPoint, b: GeoPoint) -> Envelope {
        let lim = COORD_LIMIT as int;
        Envelope {
            min: GeoPoint {
                lon: clamp_spec(min_spec(a.lon as int, b.lon as int), -lim, lim) as i64,
                lat: clamp_spec(min_spec(a.lat as int, b.lat as int), -lim, lim) as i64,
            },
            max: GeoPoint {
                lon: clamp_spec(max_spec(a.lon as int, b.lon as int), -lim, lim) as i64,
                lat: clamp_spec(max_spec(a.lat as int, b.lat as int), -lim, lim) as i64,
            },
        }
    }

    /// The smallest box holding both `self` and `other`.
    pub open spec fn merged_spec(self, other: Envelope) -> Envelope {
        Envelope {
            min: GeoPoint {
                lon: min_spec(self.min.lon as int, other.min.lon as int) as i64,
                lat: min_spec(self.min.lat as int, other.min.lat as int) as i64,
            },
            max: GeoPoint {
                lon: max_spec(self.max.lon as int, other.max.lon as int) as i64,
                lat: max_spec(self.max.lat as int, other.max.lat as int) as i64,
            },
        }
    }

    /// Builds the bounded box spanned by two corners given in any order.
    pub fn spanning(a: GeoPoint, b: GeoPoint) -> (e: Envelope)
        ensures
            e == Envelope::spanning_spec(a, b),
            e.is_bounded(),
    {
        let lo_lon: i64 = if a.lon <= b.lon { a.lon } else { b.lon };
        let lo_lat: i64 = if a.lat <= b.lat { a.lat } else { b.lat };
        let hi_lon: i64 = if a.lon >= b.lon { a.lon } else { b.lon };
        let hi_lat: i64 = if a.lat >= b.lat { a.lat } else { b.lat };
        Envelope {
            min: GeoPoint { lon: clamp_coord(lo_lon), lat: clamp_coord(lo_lat) },
            max: GeoPoint { lon: clamp_coord(hi_lon), lat: clamp_coord(hi_lat) },
        }
    }

    /// Builds the smallest box holding both `self` and `other`.
    pub fn merged(&self, other: &Envelope) -> (e: Envelope)
        ensures
            e == self.merged_spec(*other),
            e.covers(*self),
            e.covers(*other),
            self.is_bounded() && other.is_bounded() ==> e.is_bounded(),
    {
        Envelope {
            min: GeoPoint {
                lon: if self.min.lon <= other.min.lon { self.min.lon } else { other.min.lon },
                lat: if self.min.lat <= other.min.lat { self.min.lat } else { other.min.lat },
            },
            max: GeoPoint {
                lon: if self.max.lon >= other.max.lon { self.max.lon } else { other.max.lon },
                lat: if self.max.lat >= other.max.lat { self.max.lat } else { other.max.lat },
            },
        }
    }

    /// Tells whether the point lies inside the box, borders included.
    pub fn contains_point(&self, p: &GeoPoint) -> (b: bool)
        ensures
            b == self.contains(*p),
    {
        self.min.lon <= p.lon && p.lon <= self.max.lon && self.min.lat <= p.lat && p.lat
            <= self.max.lat
    }
}

/// A box that covers another holds every point the other holds.
pub proof fn lemma_covers_contains(outer: Envelope, inner: Envelope, p: GeoPoint)
    requires
        outer.covers(inner),
        inner.contains(p),
    ensures
        outer.contains(p),
{
}

} // verus!
