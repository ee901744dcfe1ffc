//! A score as it was stored for a player.

use crate::player_score::PlayerScore;
use uuid::Uuid;
use vstd::prelude::*;

verus! {

/// A stored score.
#[derive(Clone, Copy, Debug)]
pub struct ScoreDetails {
    id: Uuid,
    player_number: usize,
    player_score: PlayerScore,
}

/// What a stored score is made of. The game and the round to which the
/// score belongs are not kept.
pub struct LoadScoreDetailsParameters {
    pub game_id: Uuid,
    pub id: Uuid,
    pub player_number: usize,
    pub player_score: PlayerScore,
    pub round_number: u8,
}

impl View for ScoreDetails {
    type V = (Uuid, usize, PlayerScore);

    closed spec fn view(&self) -> (Uuid, usize, PlayerScore) {
        (self.id, self.player_number, self.player_score)
    }
}

impl ScoreDetails {
    pub fn id(&self) -> (id: Uuid)
        ensures
            id == self@.0,
    {
        self.id
    }

    /// The stored score that `parameters` describe.
    pub fn load(parameters: LoadScoreDetailsParameters) -> (details: ScoreDetails)
        ensures
            details@ == (parameters.id, parameters.player_number, parameters.player_score),
    {
        let LoadScoreDetailsParameters { game_id: _, id, player_number, player_score, round_number: _ } =
            parameters;
        ScoreDetails { id, player_number, player_score }
    }

    pub fn player_number(&self) -> (player_number: usize)
        ensures
            player_number == self@.1,
    {
        self.player_number
    }

    pub fn player_score(&self) -> (player_score: PlayerScore)
        ensures
            player_score == self@.2,
    {
        self.player_score
    }
}

} // verus!
