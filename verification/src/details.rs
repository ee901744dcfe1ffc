//! A game as it is shown: who is to throw, what every player still needs,
//! and the rounds, the latest first.

use crate::decimal::{decimal, decimal_digits};
use crate::game::{Game, GameView};
use crate::history::{points_of, views};
use crate::number::Number;
use crate::player_score::PlayerScore;
use crate::round::{Round, RoundView};
use crate::rules::{lemma_total_within_limit, lemma_turns_bounded, total};
use crate::state::{State, StateView};
use uuid::Uuid;
use vstd::prelude::*;

verus! {

/// Whether the points of a turn count.
#[derive(Clone, Copy, Debug, PartialEq, Eq, Structural)]
pub enum PointKind {
    Score,
    Overthrow,
}

/// The points of one turn.
#[derive(Clone, Copy, Debug, PartialEq, Eq, Structural)]
pub struct Point {
    pub kind: PointKind,
    pub value: i32,
}

/// The turns of one round, in the order of the players.
#[derive(Debug, PartialEq, Eq)]
pub struct RoundPoints {
    pub number: i32,
    pub points: Vec<Point>,
}

/// What a player still needs.
#[derive(Debug, PartialEq, Eq)]
pub struct PlayerDetails {
    pub name: String,
    pub points_to_win: i32,
}

/// A game as it is shown.
#[derive(Debug, PartialEq, Eq)]
pub struct GameDetails {
    pub game_id: Uuid,
    pub winner: String,
    pub player: String,
    pub player_points_to_win: i32,
    pub rounds: Vec<RoundPoints>,
    pub player_details: Vec<PlayerDetails>,
}

/// The name of the player with the number `number`.
pub open spec fn player_name(number: nat) -> Seq<char> {
    "Player"@ + decimal_digits(number)
}

/// The points of a turn as they are shown.
pub open spec fn point_of(player_score: PlayerScore) -> Point {
    match player_score {
        PlayerScore::Regular(score) => Point { kind: PointKind::Score, value: score@ as i32 },
        PlayerScore::Overthrow(score) => Point { kind: PointKind::Overthrow, value: score@ as i32 },
    }
}

/// The rounds by their numbers, the first round first: each number with
/// the turns of that round in the order in which they were thrown.
pub open spec fn by_number(rounds: Seq<RoundView>) -> Seq<(nat, Seq<Point>)>
    decreases rounds.len(),
{
    if rounds.len() == 0 {
        Seq::empty()
    } else {
        let before = by_number(rounds.drop_last());
        let point = point_of(rounds.last().player_score);
        if before.len() > 0 && before.last().0 == rounds.last().number {
            before.update(before.len() - 1, (before.last().0, before.last().1.push(point)))
        } else {
            before.push((rounds.last().number, seq![point]))
        }
    }
}

/// The points of the turns of the round with the number `number`, in the
/// order in which they were thrown.
pub open spec fn points_in(rounds: Seq<RoundView>, number: nat) -> Seq<Point>
    decreases rounds.len(),
{
    if rounds.len() == 0 {
        Seq::empty()
    } else if rounds.last().number == number {
        points_in(rounds.drop_last(), number).push(point_of(rounds.last().player_score))
    } else {
        points_in(rounds.drop_last(), number)
    }
}

/// Whether the numbers of the rounds never go down.
pub open spec fn numbers_rise(rounds: Seq<RoundView>) -> bool {
    forall|i: int, j: int|
        0 <= i < j < rounds.len() ==> (#[trigger] rounds[i]).number <= (#[trigger] rounds[j]).number
}

/// In rounds whose numbers all differ from `number`, no turn belongs to
/// the round with that number.
pub proof fn lemma_no_points_in(rounds: Seq<RoundView>, number: nat)
    requires
        forall|i: int| 0 <= i < rounds.len() ==> (#[trigger] rounds[i]).number != number,
    ensures
        points_in(rounds, number) == Seq::<Point>::empty(),
    decreases rounds.len(),
{
    if rounds.len() > 0 {
        let before = rounds.drop_last();
        assert forall|i: int| 0 <= i < before.len() implies (#[trigger] before[i]).number
            != number by {
            assert(before[i] == rounds[i]);
        }
        lemma_no_points_in(before, number);
    }
}

/// What the rounds by their numbers come to, where the numbers of the
/// rounds never go down: the numbers rise from entry to entry, every entry
/// holds the turns of the round with its number, at least one, and the last
/// entry belongs to the last round.
pub proof fn law_by_number(rounds: Seq<RoundView>)
    requires
        numbers_rise(rounds),
    ensures
        forall|k: int, l: int|
            0 <= k < l < by_number(rounds).len() ==> (#[trigger] by_number(rounds)[k]).0 < (
            #[trigger] by_number(rounds)[l]).0,
        forall|k: int|
            0 <= k < by_number(rounds).len() ==> (#[trigger] by_number(rounds)[k]).1 == points_in(
                rounds,
                by_number(rounds)[k].0,
            ) && by_number(rounds)[k].1.len() > 0,
        rounds.len() > 0 ==> by_number(rounds).len() > 0 && by_number(rounds).last().0
            == rounds.last().number,
        rounds.len() == 0 ==> by_number(rounds).len() == 0,
    decreases rounds.len(),
{
    if rounds.len() > 0 {
        let before = rounds.drop_last();
        let last = rounds.last();
        assert forall|i: int| 0 <= i < before.len() implies before[i] == rounds[i] by {}
        assert forall|i: int, j: int| 0 <= i < j < before.len() implies (#[trigger] before[i]).number
            <= (#[trigger] before[j]).number by {
            assert(rounds[i].number <= rounds[j].number);
        }
        law_by_number(before);
        let earlier = by_number(before);
        let all = by_number(rounds);
        if before.len() > 0 {
            assert(rounds[before.len() - 1].number <= rounds[rounds.len() - 1].number);
        }
        if earlier.len() > 0 && earlier.last().0 == last.number {
            assert forall|k: int| 0 <= k < all.len() implies (#[trigger] all[k]).1 == points_in(
                rounds,
                all[k].0,
            ) && all[k].1.len() > 0 by {
                if k < all.len() - 1 {
                    assert(earlier[k].0 < earlier[earlier.len() - 1].0);
                    assert(all[k] == earlier[k]);
                }
            }
            assert forall|k: int, l: int| 0 <= k < l < all.len() implies (#[trigger] all[k]).0 < (
            #[trigger] all[l]).0 by {
                assert(earlier[k].0 < earlier[l].0);
            }
        } else {
            assert forall|i: int| 0 <= i < before.len() implies (#[trigger] before[i]).number
                != last.number by {
                assert(rounds[i].number <= rounds[rounds.len() - 1].number);
                assert(before[i].number <= before[before.len() - 1].number) by {
                    if i < before.len() - 1 {
                        assert(rounds[i].number <= rounds[before.len() - 1].number);
                    }
                }
            }
            lemma_no_points_in(before, last.number);
            assert(seq![point_of(last.player_score)] =~= Seq::<Point>::empty().push(
                point_of(last.player_score),
            ));
            assert forall|k: int| 0 <= k < all.len() implies (#[trigger] all[k]).1 == points_in(
                rounds,
                all[k].0,
            ) && all[k].1.len() > 0 by {
                if k < all.len() - 1 {
                    assert(all[k] == earlier[k]);
                    assert(earlier[k].0 <= earlier[earlier.len() - 1].0) by {
                        if k < earlier.len() - 1 {
                            assert(earlier[k].0 < earlier[earlier.len() - 1].0);
                        }
                    }
                }
            }
            assert forall|k: int, l: int| 0 <= k < l < all.len() implies (#[trigger] all[k]).0 < (
            #[trigger] all[l]).0 by {
                if l < all.len() - 1 {
                    assert(earlier[k].0 < earlier[l].0);
                } else {
                    assert(all[k] == earlier[k]);
                    assert(earlier[k].0 <= earlier[earlier.len() - 1].0) by {
                        if k < earlier.len() - 1 {
                            assert(earlier[k].0 < earlier[earlier.len() - 1].0);
                        }
                    }
                }
            }
        }
    }
}

/// What is shown of the rounds as the rules see it.
pub open spec fn round_points_views(rounds: Seq<RoundPoints>) -> Seq<(nat, Seq<Point>)> {
    rounds.map_values(|round: RoundPoints| (round.number as nat, round.points@))
}

/// Values that are shown in another shape.
pub trait ToRpc<T> {
    /// The shape in which the value is shown.
    spec fn shown(&self) -> T;

    /// The value as it is shown.
    fn to_rpc(self) -> (shown: T) where Self: Sized
        ensures
            shown == self.shown(),
    ;
}

impl ToRpc<Point> for &PlayerScore {
    open spec fn shown(&self) -> Point {
        point_of(**self)
    }

    fn to_rpc(self) -> (shown: Point) {
        point(self)
    }
}

/// The name of the player with the number `number`.
pub fn name_of(number: Number) -> (name: String)
    ensures
        name@ == player_name(number@),
{
    let mut name = "Player".to_owned();
    name.append(decimal(number.value() as u64).as_str());
    name
}

/// The points of a turn as they are shown.
pub fn point(player_score: &PlayerScore) -> (point: Point)
    ensures
        point == point_of(*player_score),
{
    match player_score {
        PlayerScore::Regular(score) => Point {
            kind: PointKind::Score,
            value: score.points().value() as i32,
        },
        PlayerScore::Overthrow(score) => Point {
            kind: PointKind::Overthrow,
            value: score.points().value() as i32,
        },
    }
}

/// The rounds of the game by their numbers, the latest round first.
pub fn rounds(game: &Game) -> (shown: Vec<RoundPoints>)
    requires
        game.wf(),
        game@.rounds.len() <= i32::MAX,
    ensures
        round_points_views(shown@) == by_number(game@.rounds).reverse(),
{
    let all = game.rounds();
    let ghost seen = views(all@);
    // Asked for its value, a number says that it is positive.
    let _ = game.players_number().value();
    proof {
        game.lemma_valid();
    }
    let mut groups: Vec<RoundPoints> = Vec::new();
    let mut i: usize = 0;
    proof {
        assert(seen.take(0) =~= Seq::<RoundView>::empty());
        assert(round_points_views(groups@) =~= Seq::<(nat, Seq<Point>)>::empty());
    }
    while i < all.len()
        invariant
            i <= all.len(),
            seen == views(all@),
            seen == game@.rounds,
            game@.valid(),
            seen.len() <= i32::MAX,
            forall|k: int| 0 <= k < groups@.len() ==> (#[trigger] groups@[k]).number >= 1,
            round_points_views(groups@) == by_number(seen.take(i as int)),
        decreases all.len() - i,
    {
        let ghost before = round_points_views(groups@);
        proof {
            assert(seen.take(i + 1).drop_last() =~= seen.take(i as int));
            assert(seen.take(i + 1).last() == all@[i as int]@);
            lemma_turns_bounded(game@.players_number, game@.points_limit, seen, i as int);
        }
        let round: &Round = &all[i];
        let number: i32 = round.number().value() as i32;
        let shown = point(round.player_score());
        let last = groups.len();
        proof {
            if last > 0 {
                assert(before.last() == (
                    groups@[last - 1].number as nat,
                    groups@[last - 1].points@,
                ));
            }
        }
        if last > 0 && groups[last - 1].number == number {
            groups[last - 1].points.push(shown);
            proof {
                assert(round_points_views(groups@) =~= before.update(
                    before.len() - 1,
                    (before.last().0, before.last().1.push(shown)),
                ));
            }
        } else {
            let mut points: Vec<Point> = Vec::new();
            points.push(shown);
            groups.push(RoundPoints { number, points });
            proof {
                assert(points@ =~= seq![shown]);
                assert(round_points_views(groups@) =~= before.push((number as nat, seq![shown])));
            }
        }
        i = i + 1;
    }
    proof {
        assert(seen.take(i as int) =~= seen);
    }
    let ghost rising = round_points_views(groups@);
    let mut shown: Vec<RoundPoints> = Vec::new();
    proof {
        assert(round_points_views(shown@) =~= Seq::<(nat, Seq<Point>)>::empty());
    }
    while groups.len() > 0
        invariant
            groups@.len() <= rising.len(),
            round_points_views(groups@) == rising.take(groups@.len() as int),
            shown@.len() == rising.len() - groups@.len(),
            forall|k: int|
                0 <= k < shown@.len() ==> #[trigger] round_points_views(shown@)[k] == rising[
                    rising.len() - 1 - k
                ],
        decreases groups.len(),
    {
        let ghost left = round_points_views(groups@);
        let ghost done = round_points_views(shown@);
        match groups.pop() {
            Some(group) => {
                shown.push(group);
                proof {
                    assert(round_points_views(groups@) =~= left.drop_last());
                    assert(left.drop_last() =~= rising.take(groups@.len() as int));
                    assert(round_points_views(shown@) =~= done.push(left.last()));
                    assert(left.last() == rising[left.len() - 1]);
                }
            },
            None => {},
        }
    }
    proof {
        assert(round_points_views(shown@) =~= rising.reverse());
    }
    shown
}

/// What every player of the game still needs, the first player first.
pub fn player_details(game: &Game) -> (details: Vec<PlayerDetails>)
    requires
        game.wf(),
    ensures
        details@.len() == game@.players_number,
        forall|i: int|
            0 <= i < details@.len() ==> {
                &&& (#[trigger] details@[i]).name@ == player_name((i + 1) as nat)
                &&& details@[i].points_to_win == game@.points_limit - total(
                    game@.rounds,
                    (i + 1) as nat,
                )
            },
{
    let players = game.players_number().value();
    let limit = game.points_limit().value();
    let all = game.rounds();
    proof {
        game.lemma_valid();
    }
    let mut details: Vec<PlayerDetails> = Vec::new();
    let mut i: usize = 0;
    while i < players
        invariant
            i <= players,
            players == game@.players_number,
            limit == game@.points_limit,
            views(all@) == game@.rounds,
            game@.valid(),
            details@.len() == i,
            forall|k: int|
                0 <= k < i ==> {
                    &&& (#[trigger] details@[k]).name@ == player_name((k + 1) as nat)
                    &&& details@[k].points_to_win == game@.points_limit - total(
                        game@.rounds,
                        (k + 1) as nat,
                    )
                },
        decreases players - i,
    {
        let number = Number::following(i);
        proof {
            lemma_total_within_limit(
                game@.players_number,
                game@.points_limit,
                game@.rounds,
                number@,
            );
        }
        let counted = points_of(all, number);
        details.push(
            PlayerDetails {
                name: name_of(number),
                points_to_win: (limit - counted.value()) as i32,
            },
        );
        i = i + 1;
    }
    details
}

/// What is shown of where the game stands: the name of the winner, or
/// nothing where there is none; the name of the player who is to throw, or
/// nothing where the game is over; and the points that this player needs.
pub open spec fn standing(game: GameView) -> (Seq<char>, Seq<char>, int) {
    match game.state() {
        StateView::NotStarted { points_to_win } => (
            Seq::empty(),
            player_name(1),
            points_to_win as int,
        ),
        StateView::InProgress { player_number, points_to_win, .. } => (
            Seq::empty(),
            player_name(player_number),
            points_to_win as int,
        ),
        StateView::Finished { winner } => (player_name(winner), Seq::empty(), 0),
    }
}

/// The game as it is shown. The game has been stored, so that it has an
/// identifier.
pub fn game_details(game: &Game) -> (details: GameDetails)
    requires
        game.wf(),
        game@.id.is_some(),
        game@.rounds.len() <= i32::MAX,
    ensures
        Some(details.game_id) == game@.id,
        details.winner@ == standing(game@).0,
        details.player@ == standing(game@).1,
        details.player_points_to_win == standing(game@).2,
        round_points_views(details.rounds@) == by_number(game@.rounds).reverse(),
        details.player_details@.len() == game@.players_number,
        forall|i: int|
            0 <= i < details.player_details@.len() ==> {
                &&& (#[trigger] details.player_details@[i]).name@ == player_name((i + 1) as nat)
                &&& details.player_details@[i].points_to_win == game@.points_limit - total(
                    game@.rounds,
                    (i + 1) as nat,
                )
            },
{
    let state = game.state();
    proof {
        state.lemma_kind();
    }
    let (winner, player, player_points_to_win) = match state {
        State::NotStarted(state) => (
            String::new(),
            name_of(state.player_number()),
            state.points_to_win().value() as i32,
        ),
        State::InProgress(state) => (
            String::new(),
            name_of(state.player_number()),
            state.points_to_win().value() as i32,
        ),
        State::Finished(state) => (name_of(state.winner()), String::new(), 0),
    };
    let game_id = match game.id() {
        Some(id) => id,
        None => vstd::pervasive::unreached(),
    };
    GameDetails {
        game_id,
        winner,
        player,
        player_points_to_win,
        rounds: rounds(game),
        player_details: player_details(game),
    }
}

} // verus!
