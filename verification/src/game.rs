//! The game: the aggregate that counts scores, knows whose turn it is and
//! who has won, and can take the last score back.

use crate::error::{Error, ErrorKind};
use crate::history::{collect, collected, insert_round, lemma_rank_of_last, points_of, views};
use crate::number::Number;
use crate::player_score::PlayerScore;
use crate::points::Points;
use crate::round::{NewRoundParameters, Round, RoundView};
use crate::rules::{
    lemma_playable_is_ordered, lemma_replayable_prefix, lemma_replayed_len,
    lemma_total_below_limit, lemma_total_of_push, lemma_total_within_limit, lemma_turns_bounded,
    next_round, next_turn, playable, replayable, replayed, state_of, throws_of, won,
};
use crate::score::Score;
use crate::state::{State, StateView};
use crate::timestamp::{now, Timestamp};
use uuid::Uuid;
use vstd::prelude::*;

verus! {

/// A game as the rules see it.
pub ghost struct GameView {
    pub id: Option<Uuid>,
    pub create_time: Option<Timestamp>,
    pub start_time: Option<Timestamp>,
    pub end_time: Option<Timestamp>,
    pub update_time: Option<Timestamp>,
    pub players_number: nat,
    pub points_limit: nat,
    pub rounds: Seq<RoundView>,
}

impl GameView {
    /// A game of `players_number` players to `points_limit` points in which
    /// nothing has happened yet.
    pub open spec fn fresh(players_number: nat, points_limit: nat) -> GameView {
        GameView {
            id: None,
            create_time: None,
            start_time: None,
            end_time: None,
            update_time: None,
            players_number,
            points_limit,
            rounds: Seq::empty(),
        }
    }

    /// Whether the game has been won.
    pub open spec fn is_over(self) -> bool {
        won(self.points_limit, self.rounds)
    }

    /// What every game keeps to: there is a player and a limit, the rounds
    /// are the course of a game, the game has a start time once something
    /// was thrown and an end time once it is won, and it did not end before
    /// it started.
    pub open spec fn valid(self) -> bool {
        &&& self.players_number >= 1
        &&& 0 < self.points_limit <= u16::MAX
        &&& playable(self.players_number, self.points_limit, self.rounds)
        &&& self.start_time.is_some() == (self.rounds.len() > 0)
        &&& self.end_time.is_some() == self.is_over()
        &&& self.end_time.is_some() ==> !self.start_time.unwrap().after(self.end_time.unwrap())
    }

    /// Where the game stands.
    pub open spec fn state(self) -> StateView {
        state_of(self.players_number, self.points_limit, self.rounds)
    }

    /// The round that a turn of `score` adds to the game.
    pub open spec fn next(self, score: Score) -> RoundView {
        next_round(self.players_number, self.points_limit, self.rounds, score)
    }

    /// Whether a turn of `score` wins the game.
    pub open spec fn wins(self, score: Score) -> bool {
        won(self.points_limit, self.rounds.push(self.next(score)))
    }

    /// Whether the game ends at `now` without ending before it started.
    pub open spec fn ends_in_time(self, now: Timestamp) -> bool {
        self.start_time matches Some(start) ==> !start.after(now)
    }

    /// Whether a turn of `score` can be counted at `now`: the game is not
    /// over, and the turn does not end it before it started.
    pub open spec fn accepts(self, score: Score, now: Timestamp) -> bool {
        !self.is_over() && (self.wins(score) ==> self.ends_in_time(now))
    }

    /// The game after a turn of `score` was counted at `now`.
    pub open spec fn counted(self, score: Score, now: Timestamp) -> GameView {
        GameView {
            rounds: self.rounds.push(self.next(score)),
            start_time: if self.rounds.len() == 0 {
                Some(now)
            } else {
                self.start_time
            },
            end_time: if self.wins(score) {
                Some(now)
            } else {
                self.end_time
            },
            ..self
        }
    }

    /// Whether counting a turn of `score` at `now` may end with `result` and
    /// leave the game as `after`: a turn that the game accepts is counted;
    /// any other is refused and changes nothing.
    pub open spec fn count_outcome(
        self,
        score: Score,
        now: Timestamp,
        result: Result<(), Error>,
        after: GameView,
    ) -> bool {
        match result {
            Ok(_) => self.accepts(score, now) && after == self.counted(score, now),
            Err(e) => {
                &&& !self.accepts(score, now)
                &&& after == self
                &&& if self.is_over() {
                    e.says(ErrorKind::FailedPrecondition, "Cannot count a score when game is over"@)
                } else {
                    e.says(ErrorKind::InvalidArgument, "End time cannot be less than start time"@)
                }
            },
        }
    }

    /// The game after the turns `throws` were counted one after the other,
    /// all of them at `now`.
    pub open spec fn played(self, throws: Seq<Score>, now: Timestamp) -> GameView
        decreases throws.len(),
    {
        if throws.len() == 0 {
            self
        } else {
            self.played(throws.drop_last(), now).counted(throws.last(), now)
        }
    }

    /// The game after its last round was taken back.
    pub open spec fn cancelled(self) -> GameView {
        GameView {
            rounds: self.rounds.drop_last(),
            start_time: if self.rounds.len() == 1 {
                None
            } else {
                self.start_time
            },
            end_time: None,
            ..self
        }
    }
}

/// What loading a game at `now` comes to: the game, or the kind and the
/// description of the error that refuses it.
///
/// A game cannot be played to zero points. The rounds are taken in the
/// order of their keys, and no two of them may stand at the same key. Their
/// scores are then counted one after the other, as if they were thrown at
/// `now`, and none may follow the one that wins the game.
pub open spec fn loaded(
    id: Uuid,
    create_time: Timestamp,
    update_time: Timestamp,
    players_number: nat,
    points_limit: nat,
    rounds: Seq<RoundView>,
    now: Timestamp,
) -> Result<GameView, (ErrorKind, Seq<char>)> {
    if points_limit == 0 {
        Err((ErrorKind::InvalidArgument, "Points limit cannot be zero"@))
    } else {
        match collected(rounds) {
            None => Err((ErrorKind::Unexpected, "Fatal error while round insert"@)),
            Some(sorted) => if !replayable(players_number, points_limit, throws_of(sorted)) {
                Err((ErrorKind::FailedPrecondition, "Cannot count a score when game is over"@))
            } else {
                let played = replayed(players_number, points_limit, throws_of(sorted));
                Ok(
                    GameView {
                        id: Some(id),
                        create_time: Some(create_time),
                        update_time: Some(update_time),
                        start_time: if played.len() > 0 {
                            Some(now)
                        } else {
                            None
                        },
                        end_time: if won(points_limit, played) {
                            Some(now)
                        } else {
                            None
                        },
                        players_number,
                        points_limit,
                        rounds: played,
                    },
                )
            },
        }
    }
}

/// A game of darts.
pub struct Game {
    create_time: Option<Timestamp>,
    end_time: Option<Timestamp>,
    id: Option<Uuid>,
    players_number: Number,
    points_limit: Points,
    rounds: Vec<Round>,
    start_time: Option<Timestamp>,
    state: State,
    update_time: Option<Timestamp>,
}

/// What a persisted game is made of. The rounds may come in any order. The
/// start and the end of the game are not taken from here: they follow from
/// the rounds.
pub struct LoadGameParameters {
    pub create_time: Timestamp,
    pub end_time: Option<Timestamp>,
    pub id: Uuid,
    pub players_number: Number,
    pub points_limit: Points,
    pub rounds: Vec<Round>,
    pub start_time: Option<Timestamp>,
    pub update_time: Timestamp,
}

/// What a new game is made of.
pub struct NewGameParameters {
    pub players_number: Number,
    pub points_limit: Points,
}

impl View for Game {
    type V = GameView;

    closed spec fn view(&self) -> GameView {
        GameView {
            id: self.id,
            create_time: self.create_time,
            start_time: self.start_time,
            end_time: self.end_time,
            update_time: self.update_time,
            players_number: self.players_number@,
            points_limit: self.points_limit@,
            rounds: views(self.rounds@),
        }
    }
}

/// Works out where a game of `players_number` players to `points_limit`
/// points stands after `rounds`.
pub fn derive_state(players_number: Number, points_limit: Points, rounds: &Vec<Round>) -> (state:
    State)
    requires
        playable(players_number@, points_limit@, views(rounds@)),
        rounds@.len() < usize::MAX,
    ensures
        state@ == state_of(players_number@, points_limit@, views(rounds@)),
{
    let ghost all = views(rounds@);
    let players = players_number.value();
    let limit = points_limit.value();
    if rounds.len() == 0 {
        return State::not_started(points_limit);
    }
    let last = &rounds[rounds.len() - 1];
    assert(all.last() == last@);
    proof {
        lemma_total_within_limit(players_number@, points_limit@, all, last@.player_number);
        lemma_turns_bounded(players_number@, points_limit@, all, all.len() - 1);
    }
    let reached = points_of(rounds, last.player_number());
    if reached.value() == limit {
        return State::finished(last.player_number());
    }
    let (round_number, player_number) = if last.player_number().value() >= players {
        (Number::following(last.number().value()), Number::one())
    } else {
        (last.number(), Number::following(last.player_number().value()))
    };
    proof {
        lemma_total_within_limit(players_number@, points_limit@, all, player_number@);
    }
    let counted = points_of(rounds, player_number);
    State::in_progress(
        player_number,
        round_number,
        Points::new(limit - counted.value()),
    )
}

impl Game {
    /// Whether the game is in order: it keeps to what every game keeps to,
    /// and knows where it stands.
    pub closed spec fn wf(&self) -> bool {
        &&& self@.valid()
        &&& self.state@ == self@.state()
        &&& self.rounds@.len() < usize::MAX
    }

    /// A game in order keeps to what every game keeps to.
    pub proof fn lemma_valid(&self)
        requires
            self.wf(),
        ensures
            self@.valid(),
            self@.rounds.len() < usize::MAX,
    {
    }

    /// Records when the game was stored first. This can be done once.
    pub fn assign_create_time(&mut self, create_time: Timestamp) -> (result: Result<(), Error>)
        ensures
            old(self).wf() ==> final(self).wf(),
            match result {
                Ok(_) => old(self)@.create_time.is_none() && final(self)@ == (GameView {
                    create_time: Some(create_time),
                    ..old(self)@
                }),
                Err(e) => old(self)@.create_time.is_some() && final(self)@ == old(self)@
                    && e.says(
                    ErrorKind::Unexpected,
                    "Attempt to reassign game creation time"@,
                ),
            },
    {
        if self.create_time.is_some() {
            return Err(Error::unexpected("Attempt to reassign game creation time"));
        }
        self.create_time = Some(create_time);
        Ok(())
    }

    /// Records the identifier under which the game was stored. This can be
    /// done once.
    pub fn assign_id(&mut self, id: Uuid) -> (result: Result<(), Error>)
        ensures
            old(self).wf() ==> final(self).wf(),
            match result {
                Ok(_) => old(self)@.id.is_none() && final(self)@ == (GameView {
                    id: Some(id),
                    ..old(self)@
                }),
                Err(e) => old(self)@.id.is_some() && final(self)@ == old(self)@ && e.says(
                    ErrorKind::Unexpected,
                    "Game ID reassignment attempt"@,
                ),
            },
    {
        if self.id.is_some() {
            return Err(Error::unexpected("Game ID reassignment attempt"));
        }
        self.id = Some(id);
        Ok(())
    }

    /// Records when the game was stored last. The time of the last update
    /// never goes back.
    pub fn change_update_time(&mut self, update_time: Timestamp) -> (result: Result<(), Error>)
        ensures
            old(self).wf() ==> final(self).wf(),
            match result {
                Ok(_) => !(old(self)@.update_time matches Some(time) && time.after(update_time))
                    && final(self)@ == (GameView {
                    update_time: Some(update_time),
                    ..old(self)@
                }),
                Err(e) => (old(self)@.update_time matches Some(time) && time.after(update_time))
                    && final(self)@ == old(self)@ && e.says(
                    ErrorKind::InvalidArgument,
                    "Update time cannot be less than before"@,
                ),
            },
    {
        if let Some(time) = self.update_time {
            if time.is_after(&update_time) {
                return Err(Error::invalid_argument("Update time cannot be less than before"));
            }
        }
        self.update_time = Some(update_time);
        Ok(())
    }

    /// Records when the first score was counted. This can be done once.
    fn assign_start_time(&mut self, start_time: Timestamp) -> (result: Result<(), Error>)
        ensures
            match result {
                Ok(_) => old(self).start_time.is_none() && *final(self) == (Game {
                    start_time: Some(start_time),
                    ..*old(self)
                }),
                Err(e) => old(self).start_time.is_some() && *final(self) == *old(self) && e.says(
                    ErrorKind::FailedPrecondition,
                    "Attempt to reassign start time"@,
                ),
            },
    {
        if self.start_time.is_some() {
            return Err(Error::failed_precondition("Attempt to reassign start time"));
        }
        self.start_time = Some(start_time);
        Ok(())
    }

    /// Whether the end time of the game can be set to `end_time`, and if
    /// not, why not: it can be set once, on a game that has started, to a
    /// time that is not before the start.
    spec fn end_time_refused(&self, end_time: Timestamp) -> Option<(ErrorKind, Seq<char>)> {
        if self.end_time.is_some() {
            Some((ErrorKind::FailedPrecondition, "Attempt to reassign end time"@))
        } else {
            match self.start_time {
                Some(time) => if time.after(end_time) {
                    Some((ErrorKind::InvalidArgument, "End time cannot be less than start time"@))
                } else {
                    None
                },
                None => Some(
                    (
                        ErrorKind::FailedPrecondition,
                        "Attempt to assign end time without start time"@,
                    ),
                ),
            }
        }
    }

    /// Records when the game was won.
    fn assign_end_time(&mut self, end_time: Timestamp) -> (result: Result<(), Error>)
        ensures
            match result {
                Ok(_) => old(self).end_time_refused(end_time).is_none() && *final(self) == (Game {
                    end_time: Some(end_time),
                    ..*old(self)
                }),
                Err(e) => {
                    &&& *final(self) == *old(self)
                    &&& old(self).end_time_refused(end_time) matches Some(reason)
                    &&& e.says(reason.0, reason.1)
                },
            },
    {
        if self.end_time.is_some() {
            return Err(Error::failed_precondition("Attempt to reassign end time"));
        }
        if let Some(time) = self.start_time {
            if time.is_after(&end_time) {
                return Err(Error::invalid_argument("End time cannot be less than start time"));
            }
        } else {
            return Err(
                Error::failed_precondition("Attempt to assign end time without start time"),
            );
        }
        self.end_time = Some(end_time);
        Ok(())
    }

    /// Why the number of players or the limit of the game can no longer be
    /// changed, if so.
    spec fn settled(&self, in_progress: Seq<char>, finished: Seq<char>) -> Option<
        (ErrorKind, Seq<char>),
    > {
        match self.state@ {
            StateView::InProgress { .. } => Some((ErrorKind::FailedPrecondition, in_progress)),
            StateView::Finished { .. } => Some((ErrorKind::FailedPrecondition, finished)),
            StateView::NotStarted { .. } => None,
        }
    }

    /// Sets the number of players, as long as nothing has been thrown.
    fn change_players_number(&mut self, players_number: Number) -> (result: Result<(), Error>)
        ensures
            match result {
                Ok(_) => old(self).state@ is NotStarted && *final(self) == (Game {
                    players_number,
                    ..*old(self)
                }),
                Err(e) => {
                    &&& *final(self) == *old(self)
                    &&& old(self).settled(
                        "Cannot update players number when game is in progress"@,
                        "Cannot update players number when game is over"@,
                    ) matches Some(reason)
                    &&& e.says(reason.0, reason.1)
                },
            },
    {
        if self.is_in_progress() {
            return Err(
                Error::failed_precondition("Cannot update players number when game is in progress"),
            );
        }
        if self.is_finished() {
            return Err(
                Error::failed_precondition("Cannot update players number when game is over"),
            );
        }
        self.players_number = players_number;
        Ok(())
    }

    /// Sets the limit, which cannot be zero, as long as nothing has been
    /// thrown. Every player then has the whole limit to go.
    fn change_points_limit(&mut self, points_limit: Points) -> (result: Result<(), Error>)
        ensures
            match result {
                Ok(_) => {
                    &&& points_limit@ != 0
                    &&& old(self).state@ is NotStarted
                    &&& final(self)@ == (GameView { points_limit: points_limit@, ..old(self)@ })
                    &&& final(self).rounds == old(self).rounds
                    &&& final(self).state@ == (StateView::NotStarted {
                        points_to_win: points_limit@,
                    })
                },
                Err(e) => *final(self) == *old(self) && if points_limit@ == 0 {
                    e.says(ErrorKind::InvalidArgument, "Points limit cannot be zero"@)
                } else {
                    &&& old(self).settled(
                        "Cannot update points limit when game is in progress"@,
                        "Cannot update points limit when Game is over"@,
                    ) matches Some(reason)
                    &&& e.says(reason.0, reason.1)
                },
            },
    {
        if points_limit.is_zero() {
            return Err(Error::invalid_argument("Points limit cannot be zero"));
        }
        if self.is_in_progress() {
            return Err(
                Error::failed_precondition("Cannot update points limit when game is in progress"),
            );
        }
        if self.is_finished() {
            return Err(Error::failed_precondition("Cannot update points limit when Game is over"));
        }
        self.points_limit = points_limit;
        self.state = State::not_started(points_limit);
        Ok(())
    }

    /// A game of one player with nothing set.
    fn init() -> (game: Game)
        ensures
            game@ == GameView::fresh(1, 0),
            game.state@ is NotStarted,
            game.rounds@.len() == 0,
    {
        let game = Game {
            create_time: None,
            end_time: None,
            id: None,
            players_number: Number::one(),
            points_limit: Points::zero(),
            rounds: Vec::new(),
            start_time: None,
            state: State::not_started(Points::zero()),
            update_time: None,
        };
        assert(game@.rounds =~= Seq::empty());
        game
    }

    fn is_finished(&self) -> (finished: bool)
        ensures
            finished == (self.state@ is Finished),
    {
        proof {
            self.state.lemma_kind();
        }
        matches!(self.state, State::Finished(_))
    }

    fn is_in_progress(&self) -> (in_progress: bool)
        ensures
            in_progress == (self.state@ is InProgress),
    {
        proof {
            self.state.lemma_kind();
        }
        matches!(self.state, State::InProgress(_))
    }

    /// A game in which nothing has been thrown yet. A game cannot be played
    /// to zero points.
    pub fn new(parameters: NewGameParameters) -> (result: Result<Game, Error>)
        ensures
            match result {
                Ok(game) => parameters.points_limit@ != 0 && game.wf() && game@ == GameView::fresh(
                    parameters.players_number@,
                    parameters.points_limit@,
                ),
                Err(e) => parameters.points_limit@ == 0 && e.says(
                    ErrorKind::InvalidArgument,
                    "Points limit cannot be zero"@,
                ),
            },
    {
        let NewGameParameters { points_limit, players_number } = parameters;
        // Asked for its value, a number says that it is positive.
        let _ = players_number.value();
        let _ = points_limit.value();
        let mut game = Game::init();
        match game.change_points_limit(points_limit) {
            Ok(_) => {},
            Err(e) => {
                return Err(e);
            },
        }
        match game.change_players_number(players_number) {
            Ok(_) => {},
            Err(e) => {
                return Err(e);
            },
        }
        assert(game@.rounds =~= Seq::empty());
        Ok(game)
    }

    /// Counts a turn of `score` thrown at `now` for the player whose turn it
    /// is.
    ///
    /// The turn is recorded as the next round of the game, as an overthrow
    /// if it would take the player past the limit. The game starts with its
    /// first round and ends with the round that brings a player to the
    /// limit. A game that is over takes no more turns, and no game ends
    /// before it started: such a turn is refused and nothing changes.
    pub fn count_score_at(&mut self, score: Score, now: Timestamp) -> (result: Result<(), Error>)
        requires
            old(self).wf(),
            old(self)@.rounds.len() + 1 < usize::MAX,
        ensures
            final(self).wf(),
            old(self)@.count_outcome(score, now, result, final(self)@),
    {
        let limit = self.points_limit.value();
        let ghost before = self@;
        proof {
            self.state.lemma_kind();
        }
        let (round_number, player_number) = match &self.state {
            State::Finished(_) => {
                return Err(Error::failed_precondition("Cannot count a score when game is over"));
            },
            State::NotStarted(state) => (Number::one(), state.player_number()),
            State::InProgress(state) => (state.round_number(), state.player_number()),
        };
        proof {
            assert(round_number@ == next_turn(before.players_number, before.rounds).0);
            assert(player_number@ == next_turn(before.players_number, before.rounds).1);
            lemma_total_below_limit(
                before.players_number,
                before.points_limit,
                before.rounds,
                player_number@,
            );
            lemma_playable_is_ordered(before.players_number, before.points_limit, before.rounds);
            lemma_rank_of_last(before.rounds, (round_number@, player_number@));
        }
        let reached = points_of(&self.rounds, player_number);
        let player_score = PlayerScore::classify(score, reached, self.points_limit);
        let wins = reached.value() as u32 + score.points().value() as u32 == limit as u32;
        let round = Round::new(NewRoundParameters { number: round_number, player_number, player_score });
        proof {
            assert(round@ == before.next(score));
            lemma_total_of_push(before.rounds, round@, player_number@);
            assert(before.rounds.push(round@).last() == round@);
            assert(wins == before.wins(score));
        }
        if self.rounds.len() == 0 {
            // A game without rounds has no start time: this cannot fail.
            match self.assign_start_time(now) {
                Ok(_) => {},
                Err(e) => {
                    return Err(e);
                },
            }
        }
        if wins {
            // This fails only where the game would end before it started.
            match self.assign_end_time(now) {
                Ok(_) => {},
                Err(e) => {
                    return Err(e);
                },
            }
        }
        // The round stands after all others, so that its place is free.
        if !insert_round(&mut self.rounds, round) {
            return Err(Error::unexpected("Fatal error while round insert"));
        }
        proof {
            assert(self@.rounds =~= before.rounds.push(round@));
            assert(self@.rounds.drop_last() =~= before.rounds);
            assert(self@ == before.counted(score, now));
        }
        self.state = derive_state(self.players_number, self.points_limit, &self.rounds);
        Ok(())
    }

    /// Counts a turn of `score` thrown now for the player whose turn it is:
    /// [`Game::count_score_at`] at the time that the clock shows.
    ///
    /// Whatever the clock shows, a game that is over refuses the turn; a
    /// turn that does not win the game is counted; so is one that wins the
    /// game with its first round. A turn that is refused changes nothing.
    pub fn count_score(&mut self, score: Score) -> (result: Result<(), Error>)
        requires
            old(self).wf(),
            old(self)@.rounds.len() + 1 < usize::MAX,
        ensures
            final(self).wf(),
            exists|now: Timestamp| old(self)@.count_outcome(score, now, result, final(self)@),
            old(self)@.is_over() ==> result is Err,
            !old(self)@.is_over() && (!old(self)@.wins(score) || old(self)@.rounds.len() == 0)
                ==> result is Ok,
            result is Ok ==> final(self)@.rounds == old(self)@.rounds.push(old(self)@.next(score)),
            result is Err ==> final(self)@ == old(self)@,
    {
        let now = now();
        let result = self.count_score_at(score, now);
        assert(old(self)@.count_outcome(score, now, result, self@));
        result
    }

    /// Takes the last round back, and hands it out.
    ///
    /// The game then stands where it stood before that round was thrown: it
    /// is not over, and it has not started if no round is left. With no
    /// round to take back nothing changes.
    pub fn cancel_last_score(&mut self) -> (result: Result<Round, Error>)
        requires
            old(self).wf(),
        ensures
            final(self).wf(),
            match result {
                Ok(round) => {
                    &&& old(self)@.rounds.len() > 0
                    &&& round@ == old(self)@.rounds.last()
                    &&& final(self)@ == old(self)@.cancelled()
                },
                Err(e) => {
                    &&& old(self)@.rounds.len() == 0
                    &&& final(self)@ == old(self)@
                    &&& e.says(
                        ErrorKind::FailedPrecondition,
                        "Cannot cancel a score when no score has been counted"@,
                    )
                },
            },
    {
        let ghost before = self@;
        match self.rounds.pop() {
            None => Err(
                Error::failed_precondition("Cannot cancel a score when no score has been counted"),
            ),
            Some(round) => {
                if self.rounds.len() == 0 {
                    self.start_time = None;
                }
                self.end_time = None;
                proof {
                    assert(self@.rounds =~= before.rounds.drop_last());
                    assert(round@ == before.rounds.last());
                }
                self.state = derive_state(self.players_number, self.points_limit, &self.rounds);
                Ok(round)
            },
        }
    }

    /// Gives a game in which nothing has been thrown the rounds of a
    /// persisted game: they are brought into the order of their keys, and
    /// their scores are counted one after the other as if thrown at `now`.
    fn assign_rounds(&mut self, rounds: Vec<Round>, now: Timestamp) -> (result: Result<(), Error>)
        requires
            old(self).wf(),
            old(self)@.rounds.len() == 0,
            rounds@.len() < usize::MAX,
        ensures
            final(self).wf(),
            match (result, collected(views(rounds@))) {
                (Ok(_), Some(sorted)) => {
                    let throws = throws_of(sorted);
                    let played = replayed(
                        old(self)@.players_number,
                        old(self)@.points_limit,
                        throws,
                    );
                    &&& replayable(old(self)@.players_number, old(self)@.points_limit, throws)
                    &&& final(self)@ == (GameView {
                        rounds: played,
                        start_time: if played.len() > 0 {
                            Some(now)
                        } else {
                            None
                        },
                        end_time: if won(old(self)@.points_limit, played) {
                            Some(now)
                        } else {
                            None
                        },
                        ..old(self)@
                    })
                },
                (Err(e), Some(sorted)) => {
                    &&& !replayable(
                        old(self)@.players_number,
                        old(self)@.points_limit,
                        throws_of(sorted),
                    )
                    &&& e.says(
                        ErrorKind::FailedPrecondition,
                        "Cannot count a score when game is over"@,
                    )
                },
                (Err(e), None) => e.says(ErrorKind::Unexpected, "Fatal error while round insert"@),
                (Ok(_), None) => false,
            },
    {
        // Only a game without rounds is given rounds.
        if self.rounds.len() != 0 {
            return Err(Error::unexpected("Game rounds reassignment attempt"));
        }
        let ghost given = views(rounds@);
        let sorted = match collect(rounds) {
            Some(sorted) => sorted,
            None => {
                return Err(Error::unexpected("Fatal error while round insert"));
            },
        };
        let ghost empty = self@;
        let ghost players = empty.players_number;
        let ghost limit = empty.points_limit;
        let ghost throws = throws_of(views(sorted@));
        proof {
            assert(throws.take(0) =~= Seq::empty());
            assert(empty.rounds =~= Seq::empty());
            assert(empty == GameView { rounds: Seq::empty(), ..empty });
        }
        let mut i: usize = 0;
        while i < sorted.len()
            invariant
                i <= sorted.len(),
                sorted@.len() < usize::MAX,
                given == views(rounds@),
                collected(given) == Some(views(sorted@)),
                empty == old(self)@,
                self.wf(),
                throws == throws_of(views(sorted@)),
                players == empty.players_number,
                limit == empty.points_limit,
                replayable(players, limit, throws.take(i as int)),
                self@ == (GameView {
                    rounds: replayed(players, limit, throws.take(i as int)),
                    start_time: if i > 0 {
                        Some(now)
                    } else {
                        None
                    },
                    end_time: if won(limit, replayed(players, limit, throws.take(i as int))) {
                        Some(now)
                    } else {
                        None
                    },
                    ..empty
                }),
            decreases sorted.len() - i,
        {
            let score = *sorted[i].player_score().score();
            let ghost before = self@;
            proof {
                lemma_replayed_len(players, limit, throws.take(i as int));
                assert(throws.take(i + 1).drop_last() =~= throws.take(i as int));
                assert(throws.take(i + 1).last() == score);
            }
            match self.count_score_at(score, now) {
                Ok(_) => {
                    proof {
                        assert(!now.after(now));
                        lemma_replayed_len(players, limit, throws.take(i + 1));
                    }
                },
                Err(e) => {
                    proof {
                        assert(!now.after(now));
                        assert(before.is_over());
                        if replayable(players, limit, throws) {
                            lemma_replayable_prefix(players, limit, throws, i as int);
                        }
                    }
                    return Err(e);
                },
            }
            i = i + 1;
        }
        proof {
            assert(throws.take(i as int) =~= throws);
            lemma_replayed_len(players, limit, throws);
        }
        Ok(())
    }

    /// The persisted game that `parameters` describe, with its rounds
    /// counted as if they were thrown at `now`.
    pub fn load_at(parameters: LoadGameParameters, now: Timestamp) -> (result: Result<Game, Error>)
        requires
            parameters.rounds@.len() < usize::MAX,
        ensures
            match (
                result,
                loaded(
                    parameters.id,
                    parameters.create_time,
                    parameters.update_time,
                    parameters.players_number@,
                    parameters.points_limit@,
                    views(parameters.rounds@),
                    now,
                ),
            ) {
                (Ok(game), Ok(view)) => game.wf() && game@ == view,
                (Err(e), Err(reason)) => e.says(reason.0, reason.1),
                _ => false,
            },
    {
        let LoadGameParameters {
            create_time,
            end_time: _,
            id,
            players_number,
            points_limit,
            rounds,
            start_time: _,
            update_time,
        } = parameters;
        let mut game = match Game::new(NewGameParameters { points_limit, players_number }) {
            Ok(game) => game,
            Err(e) => {
                return Err(e);
            },
        };
        match game.assign_id(id) {
            Ok(_) => {},
            Err(e) => {
                return Err(e);
            },
        }
        match game.assign_create_time(create_time) {
            Ok(_) => {},
            Err(e) => {
                return Err(e);
            },
        }
        match game.assign_rounds(rounds, now) {
            Ok(_) => {},
            Err(e) => {
                return Err(e);
            },
        }
        match game.change_update_time(update_time) {
            Ok(_) => {},
            Err(e) => {
                return Err(e);
            },
        }
        Ok(game)
    }

    /// The persisted game that `parameters` describe:
    /// [`Game::load_at`] at the time that the clock shows.
    ///
    /// Whether the game is refused, and the players, the limit, the rounds
    /// and the state of the game that comes back, do not depend on what the
    /// clock shows.
    pub fn load(parameters: LoadGameParameters) -> (result: Result<Game, Error>)
        requires
            parameters.rounds@.len() < usize::MAX,
        ensures
            exists|now: Timestamp|
                match (
                    result,
                    #[trigger] loaded(
                        parameters.id,
                        parameters.create_time,
                        parameters.update_time,
                        parameters.players_number@,
                        parameters.points_limit@,
                        views(parameters.rounds@),
                        now,
                    ),
                ) {
                    (Ok(game), Ok(view)) => game.wf() && game@ == view,
                    (Err(e), Err(reason)) => e.says(reason.0, reason.1),
                    _ => false,
                },
    {
        let now = now();
        let result = Game::load_at(parameters, now);
        assert(match (
            result,
            loaded(
                parameters.id,
                parameters.create_time,
                parameters.update_time,
                parameters.players_number@,
                parameters.points_limit@,
                views(parameters.rounds@),
                now,
            ),
        ) {
            (Ok(game), Ok(view)) => game.wf() && game@ == view,
            (Err(e), Err(reason)) => e.says(reason.0, reason.1),
            _ => false,
        });
        result
    }

    pub fn create_time(&self) -> (create_time: Option<Timestamp>)
        ensures
            create_time == self@.create_time,
    {
        self.create_time
    }

    pub fn end_time(&self) -> (end_time: Option<Timestamp>)
        ensures
            end_time == self@.end_time,
    {
        self.end_time
    }

    pub fn id(&self) -> (id: Option<Uuid>)
        ensures
            id == self@.id,
    {
        self.id
    }

    pub fn players_number(&self) -> (players_number: Number)
        ensures
            players_number@ == self@.players_number,
    {
        self.players_number
    }

    /// The rounds of the game in the order in which they were thrown.
    pub fn rounds(&self) -> (rounds: &Vec<Round>)
        ensures
            views(rounds@) == self@.rounds,
    {
        &self.rounds
    }

    pub fn start_time(&self) -> (start_time: Option<Timestamp>)
        ensures
            start_time == self@.start_time,
    {
        self.start_time
    }

    pub fn points_limit(&self) -> (points_limit: Points)
        ensures
            points_limit@ == self@.points_limit,
    {
        self.points_limit
    }

    /// Where the game stands.
    pub fn state(&self) -> (state: &State)
        requires
            self.wf(),
        ensures
            state@ == self@.state(),
    {
        &self.state
    }

    pub fn update_time(&self) -> (update_time: Option<Timestamp>)
        ensures
            update_time == self@.update_time,
    {
        self.update_time
    }

    /// The player who has won, if the game is over.
    pub fn winner(&self) -> (winner: Option<Number>)
        requires
            self.wf(),
        ensures
            match winner {
                Some(player) => self@.is_over() && player@ == self@.rounds.last().player_number,
                None => !self@.is_over(),
            },
    {
        proof {
            self.state.lemma_kind();
        }
        match &self.state {
            State::Finished(state) => Some(state.winner()),
            _ => None,
        }
    }
}

} // verus!
