//! One player's record in a game in which every player is tracked on
//! their own.

use crate::number::Number;
use crate::player_score::{classified, PlayerScore};
use crate::points::Points;
use crate::points_limit::PointsLimit;
use crate::score::Score;
use vstd::prelude::*;

verus! {

/// A player and the scores recorded for them.
pub struct Player {
    number: Number,
    points_limit: PointsLimit,
    points: Points,
    scores: Vec<PlayerScore>,
}

/// What a new player is made of.
pub struct NewPlayerParameters {
    pub number: Number,
    pub points_limit: PointsLimit,
}

/// A player as the rules see them.
pub ghost struct PlayerView {
    pub number: nat,
    pub points_limit: nat,
    pub scores: Seq<PlayerScore>,
}

/// The points that `scores` count for together.
pub open spec fn counted_sum(scores: Seq<PlayerScore>) -> nat
    decreases scores.len(),
{
    if scores.len() == 0 {
        0
    } else {
        counted_sum(scores.drop_last()) + scores.last().counted()
    }
}

/// Whether `scores` is the record of a player in a game played to `limit`:
/// every score is recorded as the rule of the overthrow has it, and none
/// was recorded after the limit was reached.
pub open spec fn recorded(limit: nat, scores: Seq<PlayerScore>) -> bool
    decreases scores.len(),
{
    scores.len() == 0 || {
        let before = scores.drop_last();
        &&& recorded(limit, before)
        &&& counted_sum(before) != limit
        &&& scores.last() == classified(scores.last().thrown(), counted_sum(before), limit)
    }
}

/// The record of a player never counts for more than the limit.
pub proof fn lemma_recorded_within_limit(limit: nat, scores: Seq<PlayerScore>)
    requires
        recorded(limit, scores),
    ensures
        counted_sum(scores) <= limit,
    decreases scores.len(),
{
    if scores.len() > 0 {
        lemma_recorded_within_limit(limit, scores.drop_last());
    }
}

impl PlayerView {
    /// The points counted for the player.
    pub open spec fn points(self) -> nat {
        counted_sum(self.scores)
    }

    /// Whether the player has reached the limit.
    pub open spec fn has_won(self) -> bool {
        self.points() == self.points_limit
    }

    /// What every player keeps to.
    pub open spec fn valid(self) -> bool {
        &&& self.number >= 1
        &&& 0 < self.points_limit <= u16::MAX
        &&& recorded(self.points_limit, self.scores)
    }

    /// The player after a turn of `score`: the score is recorded, unless
    /// the player has won already.
    pub open spec fn added(self, score: Score) -> PlayerView {
        if self.has_won() {
            self
        } else {
            PlayerView {
                scores: self.scores.push(classified(score, self.points(), self.points_limit)),
                ..self
            }
        }
    }
}

impl View for Player {
    type V = PlayerView;

    closed spec fn view(&self) -> PlayerView {
        PlayerView {
            number: self.number@,
            points_limit: self.points_limit@,
            scores: self.scores@,
        }
    }
}

impl Player {
    /// Whether the player is in order: the record keeps to the rules, and
    /// the player knows their points.
    pub closed spec fn wf(&self) -> bool {
        self@.valid() && self.points@ == self@.points()
    }

    /// A player in order keeps to what every player keeps to.
    pub proof fn lemma_valid(&self)
        requires
            self.wf(),
        ensures
            self@.valid(),
            self@.points() <= self@.points_limit,
    {
        lemma_recorded_within_limit(self@.points_limit, self@.scores);
    }

    /// Records a turn of `score` for the player. A player who has won takes
    /// no more scores.
    pub fn add_score(&mut self, score: Score)
        requires
            old(self).wf(),
        ensures
            final(self).wf(),
            final(self)@ == old(self)@.added(score),
    {
        if self.is_winner() {
            return ;
        }
        proof {
            lemma_recorded_within_limit(self@.points_limit, self@.scores);
        }
        let player_score = if self.is_overthrow(&score) {
            PlayerScore::Overthrow(score)
        } else {
            PlayerScore::Regular(score)
        };
        let ghost before = self.scores@;
        self.points = self.points.add(player_score.game_points());
        self.scores.push(player_score);
        proof {
            assert(self.scores@.drop_last() =~= before);
        }
    }

    /// Whether the player has reached the limit.
    pub fn is_winner(&self) -> (winner: bool)
        requires
            self.wf(),
        ensures
            winner == self@.has_won(),
    {
        self.points.value() == self.points_limit.points().value()
    }

    /// A player with nothing on their record.
    pub fn new(parameters: NewPlayerParameters) -> (player: Player)
        ensures
            player.wf(),
            player@ == (PlayerView {
                number: parameters.number@,
                points_limit: parameters.points_limit@,
                scores: Seq::empty(),
            }),
    {
        let NewPlayerParameters { points_limit, number } = parameters;
        // Asked for what they hold, a number says that it is positive and
        // a limit that it is not zero.
        let _ = number.value();
        let _ = points_limit.points().value();
        let player = Player { number, points_limit, points: Points::zero(), scores: Vec::new() };
        assert(player@.scores =~= Seq::empty());
        player
    }

    pub fn number(&self) -> (number: Number)
        ensures
            number@ == self@.number,
    {
        self.number
    }

    /// The points counted for the player. Overthrows count for nothing.
    pub fn points(&self) -> (points: Points)
        requires
            self.wf(),
        ensures
            points@ == self@.points(),
    {
        self.points
    }

    /// The points between the player and the limit.
    pub fn points_to_win(&self) -> (points: Points)
        requires
            self.wf(),
        ensures
            points@ == self@.points_limit - self@.points(),
    {
        proof {
            lemma_recorded_within_limit(self@.points_limit, self@.scores);
        }
        Points::new(self.points_limit.points().value() - self.points.value())
    }

    /// The score recorded last, if there is one.
    pub fn last_score(&self) -> (score: Option<&PlayerScore>)
        ensures
            match score {
                Some(last) => self@.scores.len() > 0 && *last == self@.scores.last(),
                None => self@.scores.len() == 0,
            },
    {
        if self.scores.len() == 0 {
            None
        } else {
            Some(&self.scores[self.scores.len() - 1])
        }
    }

    /// Whether a turn of `score` would take the player past the limit.
    fn is_overthrow(&self, score: &Score) -> (overthrow: bool)
        requires
            self.wf(),
        ensures
            overthrow == (self@.points() + score@ > self@.points_limit),
    {
        let total: u32 = self.points.value() as u32 + score.points().value() as u32;
        total > self.points_limit.points().value() as u32
    }

    /// The scores recorded for the player, the first one first.
    pub fn scores(&self) -> (scores: &[PlayerScore])
        ensures
            scores@ == self@.scores,
    {
        self.scores.as_slice()
    }
}

} // verus!
