//! The points of a single turn at the board.

use crate::decimal::{decimal, decimal_digits};
use crate::error::{Error, ErrorKind};
use crate::points::Points;
use vstd::prelude::*;

verus! {

/// The most points one turn can bring: three darts of at most 60 points
/// each.
pub const POINTS_LIMIT: u16 = 180;

/// The points of one turn, at most [`POINTS_LIMIT`].
#[derive(Clone, Copy, Debug, PartialEq, Eq)]
pub struct Score {
    points: Points,
}

impl View for Score {
    type V = nat;

    closed spec fn view(&self) -> nat {
        self.points@
    }
}

/// The description of the error that refuses a turn of `points` points.
pub open spec fn over_limit(points: nat) -> Seq<char> {
    "The maximum number of points allowed is "@ + decimal_digits(POINTS_LIMIT as nat)
        + ". Given: "@ + decimal_digits(points)
}

impl Score {
    #[verifier::type_invariant]
    spec fn within_limit(self) -> bool {
        self.points@ <= POINTS_LIMIT
    }

    /// The score that `points` points stand for.
    pub closed spec fn of(points: u16) -> Score {
        Score { points: Points::of(points) }
    }

    /// There is one score for every number of points.
    pub proof fn lemma_of_view(self)
        ensures
            self@ <= u16::MAX,
            self == Score::of(self@ as u16),
    {
        self.points.lemma_of_view();
    }

    /// The score of a turn that brought `points` points, refused when no
    /// turn can bring that many.
    pub fn new(points: u16) -> (result: Result<Score, Error>)
        ensures
            match result {
                Ok(score) => points <= POINTS_LIMIT && score@ == points && score == Score::of(
                    points,
                ),
                Err(e) => points > POINTS_LIMIT && e.says(
                    ErrorKind::InvalidArgument,
                    over_limit(points as nat),
                ),
            },
    {
        ScoreBuilder::new().points(Points::new(points)).build()
    }

    pub fn points(&self) -> (points: Points)
        ensures
            points@ == self@,
            points@ <= POINTS_LIMIT,
    {
        proof {
            use_type_invariant(self);
        }
        self.points
    }
}

/// Collects what a [`Score`] is made of and checks it.
pub struct ScoreBuilder {
    points: Result<Points, Error>,
}

impl ScoreBuilder {
    #[verifier::type_invariant]
    spec fn holds_a_score(self) -> bool {
        self.points matches Ok(points) ==> points@ <= POINTS_LIMIT
    }

    /// What the builder will make of the points given so far.
    pub closed spec fn outcome(self) -> Result<Points, Error> {
        self.points
    }

    /// A builder that has not been given any points yet.
    pub fn new() -> (builder: ScoreBuilder)
        ensures
            builder.outcome() matches Err(e) && e.says(
                ErrorKind::InvalidArgument,
                "Missing score points"@,
            ),
    {
        ScoreBuilder { points: Err(Error::invalid_argument("Missing score points")) }
    }

    /// Sets the points of the score; more than [`POINTS_LIMIT`] are kept as
    /// an error.
    pub fn points(self, points: Points) -> (builder: ScoreBuilder)
        ensures
            match builder.outcome() {
                Ok(kept) => points@ <= POINTS_LIMIT && kept == points,
                Err(e) => points@ > POINTS_LIMIT && e.says(
                    ErrorKind::InvalidArgument,
                    over_limit(points@),
                ),
            },
    {
        let mut builder = self;
        builder.points = if points.value() > POINTS_LIMIT {
            let mut description = "The maximum number of points allowed is ".to_owned();
            description.append(decimal(POINTS_LIMIT as u64).as_str());
            description.append(". Given: ");
            description.append(decimal(points.value() as u64).as_str());
            Err(Error::InvalidArgument(description))
        } else {
            Ok(points)
        };
        builder
    }

    /// The score, or the reason why there is none.
    pub fn build(self) -> (result: Result<Score, Error>)
        ensures
            match (self.outcome(), result) {
                (Ok(points), Ok(score)) => score@ == points@ && score == Score::of(points@ as u16),
                (Err(e), Err(r)) => r == e,
                _ => false,
            },
    {
        proof {
            use_type_invariant(&self);
        }
        match self.points {
            Ok(points) => {
                proof {
                    points.lemma_of_view();
                }
                Ok(Score { points })
            },
            Err(e) => Err(e),
        }
    }
}

} // verus!
