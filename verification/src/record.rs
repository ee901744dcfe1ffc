//! Games and rounds as a store keeps them: plain numbers and words, from
//! which the library makes its own values and to which it turns them back.

use crate::error::{Error, ErrorKind};
use crate::game::{loaded, Game, GameView, LoadGameParameters};
use crate::history::views;
use crate::number::Number;
use crate::player_score::PlayerScore;
use crate::points::Points;
use crate::round::{NewRoundParameters, Round, RoundView};
use crate::score::{over_limit, Score, POINTS_LIMIT};
use crate::timestamp::{now, Timestamp};
use uuid::Uuid;
use vstd::prelude::*;

verus! {

/// A round as a store keeps it.
#[derive(Debug)]
pub struct RoundsColumnItem {
    pub round_number: i32,
    pub player_number: i32,
    pub points_kind: String,
    pub points: i32,
}

/// A game as a store keeps it.
pub struct GameRow {
    pub end_time: Option<Timestamp>,
    pub id: Uuid,
    pub insert_time: Timestamp,
    pub players_number: i32,
    pub points_limit: i32,
    pub rounds: Vec<RoundsColumnItem>,
    pub start_time: Option<Timestamp>,
    pub update_time: Timestamp,
}

/// The kind and the description of an error.
pub type Refusal = (ErrorKind, Seq<char>);

/// The refusal of a number that does not fit where it is needed.
pub open spec fn out_of_range() -> Refusal {
    (ErrorKind::Unexpected, "out of range integral type conversion attempted"@)
}

/// The refusal of a number that is zero where a positive one is needed.
pub open spec fn not_positive() -> Refusal {
    (ErrorKind::InvalidArgument, "Number must be greater than 0"@)
}

/// The score that the store's `points` of the kind `points_kind` stand
/// for. The points fit in sixteen bits, the kind is `regular` or
/// `overthrow`, and no turn brings more points than a score can hold.
pub open spec fn player_score_of(points: int, points_kind: Seq<char>) -> Result<
    PlayerScore,
    Refusal,
> {
    if points < 0 || points > u16::MAX {
        Err(out_of_range())
    } else if points_kind == "regular"@ {
        if points > POINTS_LIMIT {
            Err((ErrorKind::InvalidArgument, over_limit(points as nat)))
        } else {
            Ok(PlayerScore::Regular(Score::of(points as u16)))
        }
    } else if points_kind == "overthrow"@ {
        if points > POINTS_LIMIT {
            Err((ErrorKind::InvalidArgument, over_limit(points as nat)))
        } else {
            Ok(PlayerScore::Overthrow(Score::of(points as u16)))
        }
    } else {
        Err((ErrorKind::Unexpected, "Invalid points kind"@))
    }
}

/// The round that the store's `item` stands for. Its numbers are not
/// negative, its score is one, and its numbers are not zero: what fails
/// first decides.
pub open spec fn round_of(item: RoundsColumnItem) -> Result<RoundView, Refusal> {
    if item.round_number < 0 || item.player_number < 0 {
        Err(out_of_range())
    } else {
        match player_score_of(item.points as int, item.points_kind@) {
            Err(refusal) => Err(refusal),
            Ok(player_score) => if item.round_number == 0 || item.player_number == 0 {
                Err(not_positive())
            } else {
                Ok(
                    RoundView {
                        id: None,
                        number: item.round_number as nat,
                        player_number: item.player_number as nat,
                        player_score,
                    },
                )
            },
        }
    }
}

/// The rounds that the store's `items` stand for, or the refusal of the
/// first item that stands for none.
pub open spec fn rounds_of(items: Seq<RoundsColumnItem>) -> Result<Seq<RoundView>, Refusal>
    decreases items.len(),
{
    if items.len() == 0 {
        Ok(Seq::empty())
    } else {
        match rounds_of(items.drop_last()) {
            Err(refusal) => Err(refusal),
            Ok(rounds) => match round_of(items.last()) {
                Err(refusal) => Err(refusal),
                Ok(round) => Ok(rounds.push(round)),
            },
        }
    }
}

/// The game that the store's `row` stands for when it is loaded at `now`.
/// The number of players and the limit fit where they are needed, every
/// round is one, there is a player, and the game loads.
pub open spec fn game_of(row: GameRow, now: Timestamp) -> Result<GameView, Refusal> {
    if row.players_number < 0 || row.points_limit < 0 || row.points_limit > u16::MAX {
        Err(out_of_range())
    } else {
        match rounds_of(row.rounds@) {
            Err(refusal) => Err(refusal),
            Ok(rounds) => if row.players_number == 0 {
                Err(not_positive())
            } else {
                loaded(
                    row.id,
                    row.insert_time,
                    row.update_time,
                    row.players_number as nat,
                    row.points_limit as nat,
                    rounds,
                    now,
                )
            },
        }
    }
}

/// Whether `result` fails exactly where `expected` does, with the same
/// refusal.
pub open spec fn refused_as<T, V>(result: Result<T, Error>, expected: Result<V, Refusal>) -> bool {
    match (result, expected) {
        (Err(e), Err(refusal)) => e.says(refusal.0, refusal.1),
        (Ok(_), Ok(_)) => true,
        _ => false,
    }
}

fn refuse_out_of_range() -> (e: Error)
    ensures
        e.says(out_of_range().0, out_of_range().1),
{
    Error::unexpected("out of range integral type conversion attempted")
}

/// The score that the store's `points` of the kind `points_kind` stand
/// for.
pub fn player_score(points: i32, points_kind: String) -> (result: Result<PlayerScore, Error>)
    ensures
        refused_as(result, player_score_of(points as int, points_kind@)),
        result matches Ok(player_score) ==> player_score_of(points as int, points_kind@) == Ok::<
            PlayerScore,
            Refusal,
        >(player_score),
{
    if points < 0 || points > u16::MAX as i32 {
        return Err(refuse_out_of_range());
    }
    let points: u16 = points as u16;
    if points_kind == "regular".to_owned() {
        return match Score::new(points) {
            Ok(score) => Ok(PlayerScore::Regular(score)),
            Err(e) => Err(e),
        };
    }
    if points_kind == "overthrow".to_owned() {
        return match Score::new(points) {
            Ok(score) => Ok(PlayerScore::Overthrow(score)),
            Err(e) => Err(e),
        };
    }
    Err(Error::unexpected("Invalid points kind"))
}

/// The round that the store's `item` stands for.
pub fn round_from_item(item: &RoundsColumnItem) -> (result: Result<Round, Error>)
    ensures
        refused_as(result, round_of(*item)),
        result matches Ok(round) ==> round_of(*item) == Ok::<RoundView, Refusal>(round@),
{
    if item.round_number < 0 {
        return Err(refuse_out_of_range());
    }
    let round_number: usize = item.round_number as usize;
    if item.player_number < 0 {
        return Err(refuse_out_of_range());
    }
    let player_number: usize = item.player_number as usize;
    let player_score = match player_score(item.points, item.points_kind.clone()) {
        Ok(player_score) => player_score,
        Err(e) => {
            return Err(e);
        },
    };
    let number = match Number::new(round_number) {
        Ok(number) => number,
        Err(e) => {
            return Err(e);
        },
    };
    let player_number = match Number::new(player_number) {
        Ok(number) => number,
        Err(e) => {
            return Err(e);
        },
    };
    Ok(Round::new(NewRoundParameters { number, player_number, player_score }))
}

/// The round as a store keeps it. Numbers too large for the store are cut
/// down to the bits that fit.
pub fn item_from_round(value: &Round) -> (item: RoundsColumnItem)
    ensures
        item.round_number == value@.number as i32,
        item.player_number == value@.player_number as i32,
        item.points == value@.player_score.thrown()@,
        item.points_kind@ == if value@.player_score is Regular {
            "regular"@
        } else {
            "overthrow"@
        },
{
    let (points_kind, points): (&str, i32) = match value.player_score() {
        PlayerScore::Regular(score) => ("regular", score.points().value() as i32),
        PlayerScore::Overthrow(score) => ("overthrow", score.points().value() as i32),
    };
    RoundsColumnItem {
        round_number: #[verifier::truncate]
        (value.number().value() as i32),
        player_number: #[verifier::truncate]
        (value.player_number().value() as i32),
        points_kind: points_kind.to_owned(),
        points,
    }
}

/// The rounds that the store's `items` stand for.
pub fn rounds_from_items(items: &Vec<RoundsColumnItem>) -> (result: Result<Vec<Round>, Error>)
    ensures
        refused_as(result, rounds_of(items@)),
        result matches Ok(rounds) ==> rounds@.len() == items@.len() && rounds_of(items@) == Ok::<
            Seq<RoundView>,
            Refusal,
        >(views(rounds@)),
{
    let mut rounds: Vec<Round> = Vec::new();
    let mut i: usize = 0;
    assert(items@.take(0) =~= Seq::<RoundsColumnItem>::empty());
    assert(views(rounds@) =~= Seq::<RoundView>::empty());
    while i < items.len()
        invariant
            i <= items.len(),
            rounds@.len() == i,
            rounds_of(items@.take(i as int)) == Ok::<Seq<RoundView>, Refusal>(views(rounds@)),
        decreases items.len() - i,
    {
        let ghost before = views(rounds@);
        proof {
            assert(items@.take(i + 1).drop_last() =~= items@.take(i as int));
        }
        match round_from_item(&items[i]) {
            Ok(round) => {
                rounds.push(round);
                proof {
                    assert(views(rounds@) =~= before.push(round@));
                }
            },
            Err(e) => {
                proof {
                    lemma_rounds_of_prefix(items@, i + 1);
                }
                return Err(e);
            },
        }
        i = i + 1;
    }
    assert(items@.take(i as int) =~= items@);
    Ok(rounds)
}

/// The refusal of the first items is the refusal of all.
pub proof fn lemma_rounds_of_prefix(items: Seq<RoundsColumnItem>, n: int)
    requires
        0 <= n <= items.len(),
        rounds_of(items.take(n)) is Err,
    ensures
        rounds_of(items) == rounds_of(items.take(n)),
    decreases items.len(),
{
    if n == items.len() {
        assert(items.take(n) =~= items);
    } else {
        assert(items.drop_last().take(n) =~= items.take(n));
        lemma_rounds_of_prefix(items.drop_last(), n);
    }
}

/// The game that the store's `row` stands for, with its rounds counted as
/// if they were thrown at `now`.
pub fn game_from_row_at(row: GameRow, now: Timestamp) -> (result: Result<Game, Error>)
    requires
        row.rounds@.len() < usize::MAX,
    ensures
        refused_as(result, game_of(row, now)),
        result matches Ok(game) ==> game.wf() && game_of(row, now) == Ok::<
            GameView,
            Refusal,
        >(game@),
{
    let GameRow {
        end_time,
        id,
        insert_time,
        players_number,
        points_limit,
        rounds,
        start_time,
        update_time,
    } = row;
    if players_number < 0 {
        return Err(refuse_out_of_range());
    }
    let players_number: usize = players_number as usize;
    if points_limit < 0 || points_limit > u16::MAX as i32 {
        return Err(refuse_out_of_range());
    }
    let points_limit: u16 = points_limit as u16;
    let rounds = match rounds_from_items(&rounds) {
        Ok(rounds) => rounds,
        Err(e) => {
            return Err(e);
        },
    };
    let players_number = match Number::new(players_number) {
        Ok(number) => number,
        Err(e) => {
            return Err(e);
        },
    };
    Game::load_at(
        LoadGameParameters {
            create_time: insert_time,
            end_time,
            id,
            players_number,
            points_limit: Points::new(points_limit),
            rounds,
            start_time,
            update_time,
        },
        now,
    )
}

/// The game that the store's `row` stands for: [`game_from_row_at`] at the
/// time that the clock shows.
pub fn game_from_row(row: GameRow) -> (result: Result<Game, Error>)
    requires
        row.rounds@.len() < usize::MAX,
    ensures
        exists|now: Timestamp|
            {
                &&& refused_as(result, #[trigger] game_of(row, now))
                &&& result matches Ok(game) ==> game.wf() && game_of(row, now) == Ok::<
                    GameView,
                    Refusal,
                >(game@)
            },
{
    let now = now();
    let result = game_from_row_at(row, now);
    assert(refused_as(result, game_of(row, now)));
    result
}

} // verus!
