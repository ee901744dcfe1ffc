//! The points to which a game is played.

use crate::error::{Error, ErrorKind};
use crate::points::Points;
use vstd::prelude::*;

verus! {

/// A number of points that is not zero.
#[derive(Clone, Copy, Debug)]
pub struct PointsLimit {
    points: Points,
}

impl View for PointsLimit {
    type V = nat;

    closed spec fn view(&self) -> nat {
        self.points@
    }
}

impl PointsLimit {
    #[verifier::type_invariant]
    spec fn is_not_zero(self) -> bool {
        self.points@ != 0
    }

    /// The limit of `points` points, refused when there are none.
    pub fn new(points: Points) -> (result: Result<PointsLimit, Error>)
        ensures
            match result {
                Ok(limit) => points@ != 0 && limit@ == points@,
                Err(e) => points@ == 0 && e.says(
                    ErrorKind::InvalidArgument,
                    "Points limit cannot be zero"@,
                ),
            },
    {
        if points.is_zero() {
            return Err(Error::invalid_argument("Points limit cannot be zero"));
        }
        Ok(PointsLimit { points })
    }

    pub fn points(&self) -> (points: Points)
        ensures
            points@ == self@,
            points@ != 0,
    {
        proof {
            use_type_invariant(self);
        }
        self.points
    }
}

} // verus!
