//! Where a game stands: before the first throw, in play, or over.

use crate::number::Number;
use crate::points::Points;
use vstd::prelude::*;

verus! {

/// Where a game stands, as the rules see it.
pub ghost enum StateView {
    /// Nothing has been thrown yet.
    NotStarted { points_to_win: nat },
    /// It is `player_number`'s turn in round `round_number`, with
    /// `points_to_win` points between that player and the limit.
    InProgress { player_number: nat, round_number: nat, points_to_win: nat },
    /// `winner` has reached the limit.
    Finished { winner: nat },
}

/// Where a game stands.
#[derive(Clone, Copy, Debug)]
pub enum State {
    NotStarted(NotStartedState),
    InProgress(InProgressState),
    Finished(FinishedState),
}

/// A game in play.
#[derive(Clone, Copy, Debug)]
pub struct InProgressState {
    player_number: Number,
    round_number: Number,
    points_to_win: Points,
}

/// A game before its first throw.
#[derive(Clone, Copy, Debug)]
pub struct NotStartedState {
    points_to_win: Points,
}

/// A game that has been won.
#[derive(Clone, Copy, Debug)]
pub struct FinishedState {
    winner: Number,
}

impl View for InProgressState {
    type V = StateView;

    closed spec fn view(&self) -> StateView {
        StateView::InProgress {
            player_number: self.player_number@,
            round_number: self.round_number@,
            points_to_win: self.points_to_win@,
        }
    }
}

impl View for NotStartedState {
    type V = StateView;

    closed spec fn view(&self) -> StateView {
        StateView::NotStarted { points_to_win: self.points_to_win@ }
    }
}

impl View for FinishedState {
    type V = StateView;

    closed spec fn view(&self) -> StateView {
        StateView::Finished { winner: self.winner@ }
    }
}

impl View for State {
    type V = StateView;

    open spec fn view(&self) -> StateView {
        match self {
            State::NotStarted(state) => state@,
            State::InProgress(state) => state@,
            State::Finished(state) => state@,
        }
    }
}

impl State {
    /// The view of a state is of the same kind as the state.
    pub proof fn lemma_kind(self)
        ensures
            self is NotStarted <==> self@ is NotStarted,
            self is InProgress <==> self@ is InProgress,
            self is Finished <==> self@ is Finished,
    {
    }

    /// The state of a game in which nothing has been thrown and every
    /// player has `points_to_win` points to go.
    pub fn not_started(points_to_win: Points) -> (state: State)
        ensures
            state@ == (StateView::NotStarted { points_to_win: points_to_win@ }),
    {
        State::NotStarted(NotStartedState { points_to_win })
    }

    /// The state of a game in which `player_number` is to throw in round
    /// `round_number` with `points_to_win` points to go.
    pub fn in_progress(player_number: Number, round_number: Number, points_to_win: Points) -> (state:
        State)
        ensures
            state@ == (StateView::InProgress {
                player_number: player_number@,
                round_number: round_number@,
                points_to_win: points_to_win@,
            }),
    {
        State::InProgress(InProgressState { player_number, round_number, points_to_win })
    }

    /// The state of a game that `winner` has won.
    pub fn finished(winner: Number) -> (state: State)
        ensures
            state@ == (StateView::Finished { winner: winner@ }),
    {
        State::Finished(FinishedState { winner })
    }
}

impl FinishedState {
    pub fn winner(&self) -> (winner: Number)
        ensures
            self@ == (StateView::Finished { winner: winner@ }),
    {
        self.winner
    }
}

impl InProgressState {
    pub fn player_number(&self) -> (player_number: Number)
        ensures
            self@ matches StateView::InProgress { player_number: p, .. } && p == player_number@,
    {
        self.player_number
    }

    pub fn round_number(&self) -> (round_number: Number)
        ensures
            self@ matches StateView::InProgress { round_number: r, .. } && r == round_number@,
    {
        self.round_number
    }

    pub fn points_to_win(&self) -> (points_to_win: Points)
        ensures
            self@ matches StateView::InProgress { points_to_win: p, .. } && p == points_to_win@,
    {
        self.points_to_win
    }
}

impl NotStartedState {
    /// The player who opens the game.
    pub fn player_number(&self) -> (player_number: Number)
        ensures
            player_number@ == 1,
    {
        Number::one()
    }

    pub fn points_to_win(&self) -> (points_to_win: Points)
        ensures
            self@ == (StateView::NotStarted { points_to_win: points_to_win@ }),
    {
        self.points_to_win
    }
}

} // verus!
