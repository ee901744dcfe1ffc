//! The rounds of a persisted two-player game, from which the players'
//! records are worked out anew whenever they are asked for.

use crate::error::Error;
use crate::number::Number;
use crate::points::Points;
use crate::points_limit::PointsLimit;
use crate::round::Round;
use crate::score::Score;
use crate::score_tracker::{NewScoreTrackerParameters, ScoreTracker, ScoreTrackerView};
use uuid::Uuid;
use vstd::pervasive::unreached;
use vstd::prelude::*;

verus! {

/// The number of players of such a game.
pub const PLAYERS_NUMBER: usize = 2;

/// The points to which such a game is played.
pub const POINTS_LIMIT: u16 = 301;

/// The rounds of a game, in the order in which they were thrown.
pub struct GameState {
    game_id: Uuid,
    rounds: Vec<Round>,
}

/// What the state of a persisted game is made of.
pub struct LoadGameStateParameters {
    pub game_id: Uuid,
    pub rounds: Vec<Round>,
}

/// The tracker after the turns `throws` were recorded one after the other.
pub open spec fn with_turns(tracker: ScoreTrackerView, throws: Seq<Score>) -> ScoreTrackerView
    decreases throws.len(),
{
    if throws.len() == 0 {
        tracker
    } else {
        with_turns(tracker, throws.drop_last()).with_turn(throws.last())
    }
}

/// The scores thrown in `rounds`.
pub open spec fn thrown_in(rounds: Seq<Round>) -> Seq<Score> {
    rounds.map_values(|round: Round| round@.player_score.thrown())
}

impl GameState {
    /// The game to which the rounds belong.
    pub closed spec fn id(&self) -> Uuid {
        self.game_id
    }

    /// The rounds, the first one first.
    pub closed spec fn history(&self) -> Seq<Round> {
        self.rounds@
    }

    /// Adds a round after the last one.
    pub fn add_round(&mut self, score_details: Round)
        ensures
            final(self).id() == old(self).id(),
            final(self).history() == old(self).history().push(score_details),
    {
        self.rounds.push(score_details);
    }

    pub fn game_id(&self) -> (game_id: Uuid)
        ensures
            game_id == self.id(),
    {
        self.game_id
    }

    /// The state of the persisted game that `parameters` describe.
    pub fn load(parameters: LoadGameStateParameters) -> (result: Result<GameState, Error>)
        ensures
            result matches Ok(state) && state.id() == parameters.game_id && state.history()
                == parameters.rounds@,
    {
        let LoadGameStateParameters { game_id, rounds } = parameters;
        Ok(GameState { game_id, rounds })
    }

    /// Takes the last round away and hands it out, if there is one.
    pub fn remove_last_round(&mut self) -> (round: Option<Round>)
        ensures
            final(self).id() == old(self).id(),
            match round {
                Some(last) => {
                    &&& old(self).history().len() > 0
                    &&& last == old(self).history().last()
                    &&& final(self).history() == old(self).history().drop_last()
                },
                None => {
                    &&& old(self).history().len() == 0
                    &&& final(self).history() == old(self).history()
                },
            },
    {
        self.rounds.pop()
    }

    pub fn rounds(&self) -> (rounds: &[Round])
        ensures
            rounds@ == self.history(),
    {
        self.rounds.as_slice()
    }

    /// The records of the two players: the scores of the rounds, recorded
    /// one after the other for the player whose turn it is.
    pub fn score_tracker(&self) -> (tracker: ScoreTracker)
        ensures
            tracker.wf(),
            tracker@ == with_turns(
                ScoreTrackerView::fresh(PLAYERS_NUMBER as nat, POINTS_LIMIT as nat),
                thrown_in(self.history()),
            ),
    {
        let mut score_tracker = ScoreTracker::new(
            NewScoreTrackerParameters {
                players_number: players_number(),
                points_limit: points_limit(),
            },
        );
        let ghost fresh = score_tracker@;
        let ghost throws = thrown_in(self.rounds@);
        let mut i: usize = 0;
        assert(throws.take(0) =~= Seq::<Score>::empty());
        while i < self.rounds.len()
            invariant
                i <= self.rounds.len(),
                throws == thrown_in(self.rounds@),
                score_tracker.wf(),
                score_tracker@ == with_turns(fresh, throws.take(i as int)),
            decreases self.rounds.len() - i,
        {
            proof {
                assert(throws.take(i + 1).drop_last() =~= throws.take(i as int));
            }
            let _ = score_tracker.track(*self.rounds[i].player_score().score());
            i = i + 1;
        }
        assert(throws.take(i as int) =~= throws);
        score_tracker
    }
}

fn players_number() -> (number: Number)
    ensures
        number@ == PLAYERS_NUMBER,
{
    match Number::new(PLAYERS_NUMBER) {
        Ok(number) => number,
        Err(_) => unreached(),
    }
}

fn points_limit() -> (limit: PointsLimit)
    ensures
        limit@ == POINTS_LIMIT,
{
    match PointsLimit::new(Points::new(POINTS_LIMIT)) {
        Ok(limit) => limit,
        Err(_) => unreached(),
    }
}

} // verus!
