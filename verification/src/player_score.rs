//! What a turn is worth to the player who threw it.

use crate::points::Points;
use crate::score::Score;
use vstd::prelude::*;

verus! {

/// A score as it stands in a player's record.
#[derive(Clone, Copy, Debug, PartialEq, Eq)]
pub enum PlayerScore {
    /// The score counts toward the player's total.
    Regular(Score),
    /// The score would have taken the player past the limit: it is recorded
    /// and counts for nothing.
    Overthrow(Score),
}

/// How a turn of `score` is recorded for a player who has `accumulated`
/// points in a game played to `limit`: as an overthrow when it would take
/// the player past the limit, as a regular score otherwise.
pub open spec fn classified(score: Score, accumulated: nat, limit: nat) -> PlayerScore {
    if accumulated + score@ > limit {
        PlayerScore::Overthrow(score)
    } else {
        PlayerScore::Regular(score)
    }
}

impl PlayerScore {
    /// The score that was thrown.
    pub open spec fn thrown(self) -> Score {
        match self {
            PlayerScore::Regular(score) => score,
            PlayerScore::Overthrow(score) => score,
        }
    }

    /// The points that the score adds to the player's total.
    pub open spec fn counted(self) -> nat {
        match self {
            PlayerScore::Regular(score) => score@,
            PlayerScore::Overthrow(_) => 0,
        }
    }

    /// Records `score` for a player who has `accumulated` points in a game
    /// played to `limit`.
    pub fn classify(score: Score, accumulated: Points, limit: Points) -> (player_score: PlayerScore)
        ensures
            player_score == classified(score, accumulated@, limit@),
    {
        let total: u32 = accumulated.value() as u32 + score.points().value() as u32;
        if total > limit.value() as u32 {
            PlayerScore::Overthrow(score)
        } else {
            PlayerScore::Regular(score)
        }
    }

    pub fn game_points(&self) -> (points: Points)
        ensures
            points@ == self.counted(),
    {
        match self {
            PlayerScore::Regular(score) => score.points(),
            PlayerScore::Overthrow(_) => Points::zero(),
        }
    }

    pub fn is_regular(&self) -> (regular: bool)
        ensures
            regular == (self is Regular),
    {
        matches!(self, PlayerScore::Regular(_))
    }

    pub fn is_overthrow(&self) -> (overthrow: bool)
        ensures
            overthrow == (self is Overthrow),
    {
        matches!(self, PlayerScore::Overthrow(_))
    }

    pub fn overthrow(score: Score) -> (player_score: PlayerScore)
        ensures
            player_score == PlayerScore::Overthrow(score),
    {
        PlayerScore::Overthrow(score)
    }

    pub fn regular(score: Score) -> (player_score: PlayerScore)
        ensures
            player_score == PlayerScore::Regular(score),
    {
        PlayerScore::Regular(score)
    }

    pub fn score(&self) -> (score: &Score)
        ensures
            *score == self.thrown(),
    {
        match self {
            PlayerScore::Regular(score) => score,
            PlayerScore::Overthrow(score) => score,
        }
    }
}

} // verus!
