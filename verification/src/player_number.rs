//! The two seats of a two-player game.

use crate::decimal::{signed_decimal, signed_digits};
use crate::error::{Error, ErrorKind};
use vstd::prelude::*;
use vstd::std_specs::convert::FromSpecImpl;

verus! {

/// One of the two players of a two-player game.
#[derive(Clone, Copy, Debug, Eq, Hash, PartialEq, Structural)]
pub enum PlayerNumber {
    One,
    Two,
}

/// The description of the error that refuses `value` as a player number.
pub open spec fn not_a_player(value: int) -> Seq<char> {
    "Invalid player number: "@ + signed_digits(value)
}

impl PlayerNumber {
    /// The other player.
    pub open spec fn other(self) -> PlayerNumber {
        match self {
            PlayerNumber::One => PlayerNumber::Two,
            PlayerNumber::Two => PlayerNumber::One,
        }
    }

    /// The number of the player: one or two.
    pub open spec fn index(self) -> int {
        match self {
            PlayerNumber::One => 1,
            PlayerNumber::Two => 2,
        }
    }

    /// Both players, the first one first.
    pub fn all() -> (players: Vec<PlayerNumber>)
        ensures
            players@ == seq![PlayerNumber::One, PlayerNumber::Two],
    {
        let mut players = Vec::new();
        players.push(PlayerNumber::One);
        players.push(PlayerNumber::Two);
        assert(players@ =~= seq![PlayerNumber::One, PlayerNumber::Two]);
        players
    }

    /// The name of the player.
    pub fn name(&self) -> (name: &'static str)
        ensures
            name@ == match self {
                PlayerNumber::One => "Player1"@,
                PlayerNumber::Two => "Player2"@,
            },
    {
        match self {
            PlayerNumber::One => "Player1",
            PlayerNumber::Two => "Player2",
        }
    }

    /// The player who throws after this one.
    pub fn next_player_number(self) -> (next: PlayerNumber)
        ensures
            next == self.other(),
    {
        match self {
            PlayerNumber::One => PlayerNumber::Two,
            PlayerNumber::Two => PlayerNumber::One,
        }
    }

    /// Passes the turn on to the other player.
    pub fn next(&mut self)
        ensures
            *final(self) == old(self).other(),
    {
        *self = match self {
            PlayerNumber::One => PlayerNumber::Two,
            PlayerNumber::Two => PlayerNumber::One,
        };
    }

    /// Hands the turn back to the other player.
    pub fn previous(&mut self)
        ensures
            *final(self) == old(self).other(),
    {
        *self = match self {
            PlayerNumber::One => PlayerNumber::Two,
            PlayerNumber::Two => PlayerNumber::One,
        };
    }

    /// The player with the number `value`, which is one or two.
    pub fn try_from_i32(value: i32) -> (result: Result<PlayerNumber, Error>)
        ensures
            match result {
                Ok(player) => player.index() == value,
                Err(e) => value != 1 && value != 2 && e.says(
                    ErrorKind::Unexpected,
                    not_a_player(value as int),
                ),
            },
    {
        if value == 1 {
            return Ok(PlayerNumber::One);
        }
        if value == 2 {
            return Ok(PlayerNumber::Two);
        }
        let mut description = "Invalid player number: ".to_owned();
        description.append(signed_decimal(value as i64).as_str());
        Err(Error::Unexpected(description))
    }
}

impl From<PlayerNumber> for i32 {
    fn from(value: PlayerNumber) -> (number: i32) {
        match value {
            PlayerNumber::One => 1,
            PlayerNumber::Two => 2,
        }
    }
}

impl FromSpecImpl<PlayerNumber> for i32 {
    open spec fn obeys_from_spec() -> bool {
        true
    }

    open spec fn from_spec(value: PlayerNumber) -> i32 {
        match value {
            PlayerNumber::One => 1i32,
            PlayerNumber::Two => 2i32,
        }
    }
}

} // verus!
