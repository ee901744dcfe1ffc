//! What holds of every game.

use crate::details::numbers_rise;
use crate::game::{loaded, GameView};
use crate::game_state::with_turns;
use crate::history::{distinct_keys, law_collected_in_any_order};
use crate::player::{counted_sum, PlayerView};
use crate::player_score::PlayerScore;
use crate::round::{key_before, RoundView};
use crate::rules::{
    lemma_playable_is_ordered, lemma_playable_prefix, lemma_replay_of_course,
    lemma_replayed_is_playable, lemma_replayed_len, lemma_total_below_limit,
    lemma_total_within_limit, lemma_won_by, next_round, next_turn, ordered, playable, replayable,
    replayed, throws_of, total,
};
use crate::score::Score;
use crate::score_tracker::{first_least, law_first_least, ScoreTrackerView};
use crate::state::StateView;
use crate::timestamp::Timestamp;
use uuid::Uuid;
use vstd::arithmetic::div_mod::{
    lemma_fundamental_div_mod, lemma_fundamental_div_mod_converse, lemma_mod_bound,
};
use vstd::prelude::*;

verus! {

/// The turn after `turn` turns of a game of `players` players: the player
/// numbers run from one to `players` again and again, and the round number
/// goes up by one each time they start over.
proof fn lemma_turn_step(players: nat, turn: nat)
    requires
        players >= 1,
    ensures
        (turn + 1) % players == if turn % players + 1 >= players {
            0
        } else {
            turn % players + 1
        },
        (turn + 1) / players == if turn % players + 1 >= players {
            turn / players + 1
        } else {
            turn / players
        },
{
    let d = players as int;
    let x = turn as int;
    let q = x / d;
    let r = x % d;
    lemma_fundamental_div_mod(x, d);
    lemma_mod_bound(x, d);
    assert(d * q == q * d) by (nonlinear_arith);
    if r + 1 >= d {
        assert(x + 1 == (q + 1) * d + 0) by (nonlinear_arith)
            requires
                x == q * d + r,
                r + 1 == d,
        ;
        lemma_fundamental_div_mod_converse(x + 1, d, q + 1, 0);
    } else {
        lemma_fundamental_div_mod_converse(x + 1, d, q, r + 1);
    }
}

/// The rounds of a game take the players in turn: the round at place `i`,
/// counted from zero, belongs to player `i % players + 1` and to round
/// `i / players + 1`. With one player every throw opens a new round; with
/// more, a new round opens after the last player has thrown.
pub proof fn law_turn_rotation(players: nat, limit: nat, rounds: Seq<RoundView>, i: int)
    requires
        playable(players, limit, rounds),
        players >= 1,
        0 <= i < rounds.len(),
    ensures
        rounds[i].player_number == i % (players as int) + 1,
        rounds[i].number == i / (players as int) + 1,
    decreases i,
{
    lemma_playable_prefix(players, limit, rounds, i + 1);
    let upto = rounds.take(i + 1);
    assert(upto.last() == rounds[i]);
    let before = upto.drop_last();
    assert(before =~= rounds.take(i));
    if i == 0 {
        lemma_fundamental_div_mod_converse(0, players as int, 0, 0);
    } else {
        law_turn_rotation(players, limit, rounds, i - 1);
        assert(before.last() == rounds[i - 1]);
        lemma_turn_step(players, (i - 1) as nat);
    }
}

/// The turn that follows the rounds of a game is the next in the same
/// rotation.
pub proof fn law_next_turn(players: nat, limit: nat, rounds: Seq<RoundView>)
    requires
        playable(players, limit, rounds),
        players >= 1,
    ensures
        next_turn(players, rounds).1 == rounds.len() % players + 1,
        next_turn(players, rounds).0 == rounds.len() / players + 1,
{
    if rounds.len() == 0 {
        lemma_fundamental_div_mod_converse(0, players as int, 0, 0);
    } else {
        law_turn_rotation(players, limit, rounds, rounds.len() - 1);
        lemma_turn_step(players, (rounds.len() - 1) as nat);
    }
}

/// No player's counted points are ever more than the limit.
pub proof fn law_total_within_limit(game: GameView, player: nat)
    requires
        game.valid(),
    ensures
        total(game.rounds, player) <= game.points_limit,
{
    lemma_total_within_limit(game.players_number, game.points_limit, game.rounds, player);
}

/// Whatever is thrown, in whatever order, no player's counted points are
/// ever more than the limit.
pub proof fn law_total_within_limit_of_throws(
    players: nat,
    limit: nat,
    throws: Seq<Score>,
    player: nat,
)
    requires
        replayable(players, limit, throws),
    ensures
        total(replayed(players, limit, throws), player) <= limit,
{
    lemma_replayed_is_playable(players, limit, throws);
    lemma_total_within_limit(players, limit, replayed(players, limit, throws), player);
}

/// A game is finished with `player` as its winner exactly when the counted
/// points of `player` are the limit.
pub proof fn law_finished_when_limit_reached(game: GameView, player: nat)
    requires
        game.valid(),
    ensures
        game.state() == (StateView::Finished { winner: player }) <==> total(game.rounds, player)
            == game.points_limit,
{
    lemma_won_by(game.players_number, game.points_limit, game.rounds, player);
}

/// Taking the last score back undoes counting it: the game is again as it
/// was before, with the same rounds and in the same state.
pub proof fn law_cancel_undoes_count(game: GameView, score: Score, now: Timestamp)
    requires
        game.valid(),
        game.accepts(score, now),
    ensures
        game.counted(score, now).cancelled() == game,
        game.counted(score, now).cancelled().state() == game.state(),
{
    assert(game.rounds.push(game.next(score)).drop_last() =~= game.rounds);
}

/// Counting turns one after the other in a new game gives the rounds that
/// the rules of replay give.
pub proof fn law_played_is_replayed(players: nat, limit: nat, throws: Seq<Score>, now: Timestamp)
    ensures
        GameView::fresh(players, limit).played(throws, now).players_number == players,
        GameView::fresh(players, limit).played(throws, now).points_limit == limit,
        GameView::fresh(players, limit).played(throws, now).rounds == replayed(
            players,
            limit,
            throws,
        ),
    decreases throws.len(),
{
    if throws.len() > 0 {
        law_played_is_replayed(players, limit, throws.drop_last(), now);
    }
}

/// Loading the rounds of a game, given in whatever order, gives a game with
/// the same rounds in the same state: the state that counting the scores
/// of those rounds one after the other in a new game leads to.
pub proof fn law_load_round_trip(
    game: GameView,
    given: Seq<RoundView>,
    id: Uuid,
    create_time: Timestamp,
    update_time: Timestamp,
    now: Timestamp,
)
    requires
        game.valid(),
        given.to_multiset() == game.rounds.to_multiset(),
    ensures
        loaded(id, create_time, update_time, game.players_number, game.points_limit, given, now)
            matches Ok(again) && again.rounds == game.rounds && again.state() == game.state()
            && again.valid() && again.state() == GameView::fresh(
            game.players_number,
            game.points_limit,
        ).played(throws_of(game.rounds), now).state(),
{
    lemma_playable_is_ordered(game.players_number, game.points_limit, game.rounds);
    law_collected_in_any_order(given, game.rounds);
    lemma_replay_of_course(game.players_number, game.points_limit, game.rounds);
    law_played_is_replayed(game.players_number, game.points_limit, throws_of(game.rounds), now);
}

/// The rounds of a game stand in the order of their keys, and no two of
/// them stand at the same key.
pub proof fn law_rounds_are_ordered(game: GameView)
    requires
        game.valid(),
    ensures
        ordered(game.rounds),
        distinct_keys(game.rounds),
{
    lemma_playable_is_ordered(game.players_number, game.points_limit, game.rounds);
}

/// The numbers of the rounds of a game never go down.
pub proof fn law_round_numbers_rise(game: GameView)
    requires
        game.valid(),
    ensures
        numbers_rise(game.rounds),
{
    lemma_playable_is_ordered(game.players_number, game.points_limit, game.rounds);
    assert forall|i: int, j: int| 0 <= i < j < game.rounds.len() implies (
    #[trigger] game.rounds[i]).number <= (#[trigger] game.rounds[j]).number by {
        assert(key_before(game.rounds[i].key(), game.rounds[j].key()));
    }
}

/// The scores of `player` in `rounds`, the first one first.
pub open spec fn scores_of(rounds: Seq<RoundView>, player: nat) -> Seq<PlayerScore>
    decreases rounds.len(),
{
    if rounds.len() == 0 {
        Seq::empty()
    } else if rounds.last().player_number == player {
        scores_of(rounds.drop_last(), player).push(rounds.last().player_score)
    } else {
        scores_of(rounds.drop_last(), player)
    }
}

/// The scores of a player count for the player's total.
proof fn lemma_scores_count_for_total(rounds: Seq<RoundView>, player: nat)
    ensures
        counted_sum(scores_of(rounds, player)) == total(rounds, player),
    decreases rounds.len(),
{
    if rounds.len() > 0 {
        lemma_scores_count_for_total(rounds.drop_last(), player);
        let before = scores_of(rounds.drop_last(), player);
        assert(before.push(rounds.last().player_score).drop_last() =~= before);
    }
}

/// How many scores a player has after the rounds of a game: one for every
/// full round, and one more if the player has thrown in the round that is
/// under way.
proof fn lemma_scores_len(players: nat, limit: nat, rounds: Seq<RoundView>, player: nat)
    requires
        playable(players, limit, rounds),
        1 <= player <= players,
    ensures
        scores_of(rounds, player).len() == rounds.len() / players + if player <= rounds.len()
            % players {
            1nat
        } else {
            0nat
        },
    decreases rounds.len(),
{
    if rounds.len() == 0 {
        lemma_fundamental_div_mod_converse(0, players as int, 0, 0);
    } else {
        let before = rounds.drop_last();
        lemma_scores_len(players, limit, before, player);
        law_turn_rotation(players, limit, rounds, rounds.len() - 1);
        lemma_turn_step(players, before.len());
        lemma_mod_bound(before.len() as int, players as int);
    }
}

/// Where the first `turn` players have one score more than the others, who
/// all have the same number of scores, the turn is at place `turn`.
proof fn lemma_first_least_is(players: Seq<PlayerView>, turn: int, each: nat)
    requires
        0 <= turn < players.len(),
        forall|i: int| 0 <= i < turn ==> (#[trigger] players[i]).scores.len() == each + 1,
        forall|i: int| turn <= i < players.len() ==> (#[trigger] players[i]).scores.len() == each,
    ensures
        first_least(players) == turn,
{
    law_first_least(players);
    let least = first_least(players);
    assert(players[least].scores.len() <= players[turn].scores.len());
    if least > turn {
        assert(players[least].scores.len() < players[turn].scores.len());
    }
}

/// As long as nobody has won, keeping score player by player comes to the
/// same as keeping it round by round: every player's record holds the
/// scores of that player's rounds.
pub proof fn law_records_agree_with_rounds(players: nat, limit: nat, throws: Seq<Score>)
    requires
        players >= 1,
        limit > 0,
        replayable(players, limit, throws),
    ensures
        with_turns(ScoreTrackerView::fresh(players, limit), throws).points_limit == limit,
        with_turns(ScoreTrackerView::fresh(players, limit), throws).players.len() == players,
        forall|i: int|
            0 <= i < players ==> (#[trigger] with_turns(
                ScoreTrackerView::fresh(players, limit),
                throws,
            ).players[i]) == (PlayerView {
                number: (i + 1) as nat,
                points_limit: limit,
                scores: scores_of(replayed(players, limit, throws), (i + 1) as nat),
            }),
    decreases throws.len(),
{
    let fresh = ScoreTrackerView::fresh(players, limit);
    if throws.len() > 0 {
        let earlier = throws.drop_last();
        let before = with_turns(fresh, earlier);
        let rounds = replayed(players, limit, earlier);
        law_records_agree_with_rounds(players, limit, earlier);
        lemma_replayed_is_playable(players, limit, earlier);
        lemma_replayed_len(players, limit, earlier);
        law_next_turn(players, limit, rounds);
        lemma_mod_bound(rounds.len() as int, players as int);
        let turn = (rounds.len() % players) as int;
        let round = next_round(players, limit, rounds, throws.last());
        assert(round.player_number == turn + 1);
        assert forall|i: int| 0 <= i < players implies (#[trigger] before.players[i]).scores.len()
            == rounds.len() / players + if i < turn {
            1nat
        } else {
            0nat
        } by {
            lemma_scores_len(players, limit, rounds, (i + 1) as nat);
        }
        lemma_first_least_is(before.players, turn, rounds.len() / players);
        let mover = before.players[turn];
        lemma_scores_count_for_total(rounds, (turn + 1) as nat);
        lemma_total_below_limit(players, limit, rounds, (turn + 1) as nat);
        assert(!mover.has_won());
        let after = with_turns(fresh, throws);
        assert(after == before.with_turn(throws.last()));
        assert(rounds.push(round).drop_last() =~= rounds);
        assert forall|i: int| 0 <= i < players implies (#[trigger] after.players[i]) == (PlayerView {
            number: (i + 1) as nat,
            points_limit: limit,
            scores: scores_of(replayed(players, limit, throws), (i + 1) as nat),
        }) by {
            if i != turn {
                assert(after.players[i] == before.players[i]);
            }
        }
    } else {
        assert forall|i: int| 0 <= i < players implies (#[trigger] with_turns(
            fresh,
            throws,
        ).players[i]) == (PlayerView {
            number: (i + 1) as nat,
            points_limit: limit,
            scores: scores_of(replayed(players, limit, throws), (i + 1) as nat),
        }) by {}
    }
}

} // verus!