//! Rounds: the facts that a game is made of.

use crate::error::Error;
use crate::number::Number;
use crate::player_score::PlayerScore;
use core::cmp::Ordering;
use uuid::Uuid;
use vstd::prelude::*;
use vstd::std_specs::cmp::{PartialEqSpecImpl, PartialOrdSpecImpl};

verus! {

/// One player's recorded score at one turn of the game.
#[derive(Clone, Copy, Debug)]
pub struct Round {
    id: Option<Uuid>,
    number: Number,
    player_number: Number,
    player_score: PlayerScore,
}

/// What a persisted round is made of.
pub struct LoadRoundParameters {
    pub id: Uuid,
    pub number: Number,
    pub player_number: Number,
    pub player_score: PlayerScore,
}

/// What a new round is made of.
pub struct NewRoundParameters {
    pub number: Number,
    pub player_number: Number,
    pub player_score: PlayerScore,
}

/// A round as the rules see it.
pub ghost struct RoundView {
    pub id: Option<Uuid>,
    pub number: nat,
    pub player_number: nat,
    pub player_score: PlayerScore,
}

impl RoundView {
    /// What tells rounds apart and orders them: the round's number, then the
    /// player's.
    pub open spec fn key(self) -> (nat, nat) {
        (self.number, self.player_number)
    }
}

/// Whether the key `a` comes before the key `b`.
pub open spec fn key_before(a: (nat, nat), b: (nat, nat)) -> bool {
    a.0 < b.0 || (a.0 == b.0 && a.1 < b.1)
}

impl View for Round {
    type V = RoundView;

    closed spec fn view(&self) -> RoundView {
        RoundView {
            id: self.id,
            number: self.number@,
            player_number: self.player_number@,
            player_score: self.player_score,
        }
    }
}

impl PartialEq for Round {
    /// Rounds are equal when they stand at the same place in the game,
    /// whatever was thrown.
    fn eq(&self, other: &Round) -> (equal: bool) {
        self.number.value() == other.number.value() && self.player_number.value()
            == other.player_number.value()
    }
}

impl PartialEqSpecImpl for Round {
    open spec fn obeys_eq_spec() -> bool {
        true
    }

    open spec fn eq_spec(&self, other: &Round) -> bool {
        self@.key() == other@.key()
    }
}

impl Eq for Round {

}

impl PartialOrd for Round {
    /// Rounds are ordered by their number, then by their player's number.
    fn partial_cmp(&self, other: &Round) -> (order: Option<Ordering>) {
        if self.number.value() < other.number.value() {
            Some(Ordering::Less)
        } else if self.number.value() > other.number.value() {
            Some(Ordering::Greater)
        } else if self.player_number.value() < other.player_number.value() {
            Some(Ordering::Less)
        } else if self.player_number.value() > other.player_number.value() {
            Some(Ordering::Greater)
        } else {
            Some(Ordering::Equal)
        }
    }
}

impl PartialOrdSpecImpl for Round {
    open spec fn obeys_partial_cmp_spec() -> bool {
        true
    }

    open spec fn partial_cmp_spec(&self, other: &Round) -> Option<Ordering> {
        if key_before(self@.key(), other@.key()) {
            Some(Ordering::Less)
        } else if key_before(other@.key(), self@.key()) {
            Some(Ordering::Greater)
        } else {
            Some(Ordering::Equal)
        }
    }
}

impl Round {
    /// Gives the round the identifier under which it was stored.
    pub fn assign_id(&mut self, id: Uuid)
        ensures
            final(self)@ == (RoundView { id: Some(id), ..old(self)@ }),
    {
        self.id = Some(id);
    }

    pub fn id(&self) -> (id: Option<Uuid>)
        ensures
            id == self@.id,
    {
        self.id
    }

    /// Whether the round has been stored.
    pub fn is_persisted(&self) -> (persisted: bool)
        ensures
            persisted == self@.id.is_some(),
    {
        self.id.is_some()
    }

    /// A round that was stored under `id`.
    pub fn load(parameters: LoadRoundParameters) -> (result: Result<Round, Error>)
        ensures
            result matches Ok(round) && round@ == (RoundView {
                id: Some(parameters.id),
                number: parameters.number@,
                player_number: parameters.player_number@,
                player_score: parameters.player_score,
            }),
    {
        let LoadRoundParameters { id, player_number, player_score, number } = parameters;
        Ok(Round { id: Some(id), player_number, player_score, number })
    }

    /// A round that has not been stored yet.
    pub fn new(parameters: NewRoundParameters) -> (round: Round)
        ensures
            round@ == (RoundView {
                id: None,
                number: parameters.number@,
                player_number: parameters.player_number@,
                player_score: parameters.player_score,
            }),
    {
        let NewRoundParameters { number, player_number, player_score } = parameters;
        Round { id: None, player_number, player_score, number }
    }

    pub fn number(&self) -> (number: Number)
        ensures
            number@ == self@.number,
    {
        self.number
    }

    pub fn player_number(&self) -> (player_number: Number)
        ensures
            player_number@ == self@.player_number,
    {
        self.player_number
    }

    pub fn player_score(&self) -> (player_score: &PlayerScore)
        ensures
            *player_score == self@.player_score,
    {
        &self.player_score
    }

    /// Whether the round stands before `other` in the game.
    pub fn is_before(&self, other: &Round) -> (before: bool)
        ensures
            before == key_before(self@.key(), other@.key()),
    {
        self.number.value() < other.number.value() || (self.number.value()
            == other.number.value() && self.player_number.value() < other.player_number.value())
    }
}

} // verus!
