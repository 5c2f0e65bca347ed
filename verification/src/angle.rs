//! Rotation angles in fixed point, and the deskew estimate that is handed to
//! the rotation.

use vstd::prelude::*;
use crate::buffer::Point;

verus! {

/// How many units of [`Angle`] make one degree.
pub const MICRODEGREES_PER_DEGREE: i32 = 1_000_000;

/// The largest rotation, in either direction, that a deskew performs: ten
/// degrees. A larger estimate is taken for detection noise.
pub const MAX_DESKEW_MICRODEGREES: i32 = 10_000_000;

/// An angle in millionths of a degree; positive angles turn clockwise.
#[derive(Clone, Copy, Debug, PartialEq, Eq, Structural)]
pub struct Angle {
    pub microdegrees: i32,
}

/// The angle that a deskew applies for an estimate: the estimate itself
/// inside the closed interval of ten degrees either way, no rotation outside.
pub open spec fn clamp_deskew(angle: Angle) -> Angle {
    if -MAX_DESKEW_MICRODEGREES <= angle.microdegrees <= MAX_DESKEW_MICRODEGREES {
        angle
    } else {
        Angle { microdegrees: 0 }
    }
}

/// An angle and the point to rotate about. The angle of every deskew result
/// lies within ten degrees of zero.
#[derive(Clone, Copy, Debug)]
pub struct DeskewResult {
    angle: Angle,
    center: Point,
}

impl DeskewResult {
    #[verifier::type_invariant]
    spec fn within_limit(self) -> bool {
        -MAX_DESKEW_MICRODEGREES <= self.angle.microdegrees <= MAX_DESKEW_MICRODEGREES
    }

    pub closed spec fn spec_angle(&self) -> Angle {
        self.angle
    }

    pub closed spec fn spec_center(&self) -> Point {
        self.center
    }

    /// Makes a deskew result of an estimated angle and a rotation centre. An
    /// estimate of more than ten degrees, in either direction, is replaced
    /// with no rotation.
    pub fn new(estimate: Angle, center: Point) -> (r: Self)
        ensures
            r.angle() == clamp_deskew(estimate),
            r.center() == center,
    {
        if estimate.microdegrees > MAX_DESKEW_MICRODEGREES || estimate.microdegrees
            < -MAX_DESKEW_MICRODEGREES {
            DeskewResult { angle: Angle { microdegrees: 0 }, center }
        } else {
            DeskewResult { angle: estimate, center }
        }
    }

    /// The angle to rotate by; never more than ten degrees either way.
    #[verifier::when_used_as_spec(spec_angle)]
    pub fn angle(&self) -> (r: Angle)
        ensures
            r == self.angle(),
            -MAX_DESKEW_MICRODEGREES <= r.microdegrees <= MAX_DESKEW_MICRODEGREES,
    {
        proof {
            use_type_invariant(self);
        }
        self.angle
    }

    /// The point to rotate about.
    #[verifier::when_used_as_spec(spec_center)]
    pub fn center(&self) -> (r: Point)
        ensures
            r == self.center(),
    {
        self.center
    }
}

} // verus!
