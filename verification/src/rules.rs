//! The rules of the game, stated over the rounds played so far.
//!
//! A game is played by `players` players to `limit` points. Its whole course
//! is the sequence of its rounds in the order in which they were thrown;
//! whose turn it is, what a throw is worth and who has won all follow from
//! that sequence.

use crate::player_score::classified;
use crate::round::{key_before, RoundView};
use crate::score::Score;
use crate::state::StateView;
use vstd::prelude::*;

verus! {

/// The points counted for `player` over `rounds`.
pub open spec fn total(rounds: Seq<RoundView>, player: nat) -> nat
    decreases rounds.len(),
{
    if rounds.len() == 0 {
        0
    } else {
        total(rounds.drop_last(), player) + if rounds.last().player_number == player {
            rounds.last().player_score.counted()
        } else {
            0
        }
    }
}

/// The round number and the player number of the turn that follows
/// `rounds`: the first player of the first round opens; after the last
/// player of a round the first player of the next round throws; otherwise
/// the next player of the same round.
pub open spec fn next_turn(players: nat, rounds: Seq<RoundView>) -> (nat, nat) {
    if rounds.len() == 0 {
        (1, 1)
    } else if rounds.last().player_number >= players {
        (rounds.last().number + 1, 1)
    } else {
        (rounds.last().number, rounds.last().player_number + 1)
    }
}

/// The round that a turn of `score` adds to `rounds`.
pub open spec fn next_round(players: nat, limit: nat, rounds: Seq<RoundView>, score: Score)
    -> RoundView {
    let turn = next_turn(players, rounds);
    RoundView {
        id: None,
        number: turn.0,
        player_number: turn.1,
        player_score: classified(score, total(rounds, turn.1), limit),
    }
}

/// Whether the player who threw last has reached the limit.
pub open spec fn won(limit: nat, rounds: Seq<RoundView>) -> bool {
    rounds.len() > 0 && total(rounds, rounds.last().player_number) == limit
}

/// Whether `rounds` is the course of a game: every round is the one that
/// its throw adds to the rounds before it, and nothing was thrown after the
/// game was won.
pub open spec fn playable(players: nat, limit: nat, rounds: Seq<RoundView>) -> bool
    decreases rounds.len(),
{
    rounds.len() == 0 || {
        let before = rounds.drop_last();
        &&& playable(players, limit, before)
        &&& !won(limit, before)
        &&& rounds.last() == next_round(players, limit, before, rounds.last().player_score.thrown())
    }
}

/// Where a game stands after `rounds`.
pub open spec fn state_of(players: nat, limit: nat, rounds: Seq<RoundView>) -> StateView {
    if rounds.len() == 0 {
        StateView::NotStarted { points_to_win: limit }
    } else if won(limit, rounds) {
        StateView::Finished { winner: rounds.last().player_number }
    } else {
        let turn = next_turn(players, rounds);
        StateView::InProgress {
            player_number: turn.1,
            round_number: turn.0,
            points_to_win: (limit - total(rounds, turn.1)) as nat,
        }
    }
}

/// The rounds that the turns `throws`, counted one after the other, add to
/// an empty game.
pub open spec fn replayed(players: nat, limit: nat, throws: Seq<Score>) -> Seq<RoundView>
    decreases throws.len(),
{
    if throws.len() == 0 {
        Seq::empty()
    } else {
        let before = replayed(players, limit, throws.drop_last());
        before.push(next_round(players, limit, before, throws.last()))
    }
}

/// Whether all of `throws` can be counted one after the other: the game is
/// not won before the last of them.
pub open spec fn replayable(players: nat, limit: nat, throws: Seq<Score>) -> bool
    decreases throws.len(),
{
    throws.len() == 0 || {
        &&& replayable(players, limit, throws.drop_last())
        &&& !won(limit, replayed(players, limit, throws.drop_last()))
    }
}

/// The scores that were thrown in `rounds`.
pub open spec fn throws_of(rounds: Seq<RoundView>) -> Seq<Score> {
    rounds.map_values(|round: RoundView| round.player_score.thrown())
}

/// Whether the rounds stand in the order of their keys, no key twice.
pub open spec fn ordered(rounds: Seq<RoundView>) -> bool {
    forall|i: int, j: int|
        0 <= i < j < rounds.len() ==> key_before(#[trigger] rounds[i].key(), #[trigger] rounds[j].key())
}

/// A total never shrinks when rounds are added.
pub proof fn lemma_total_of_prefix(rounds: Seq<RoundView>, n: int, player: nat)
    requires
        0 <= n <= rounds.len(),
    ensures
        total(rounds.take(n), player) <= total(rounds, player),
    decreases rounds.len(),
{
    if n == rounds.len() {
        assert(rounds.take(n) =~= rounds);
    } else {
        lemma_total_of_prefix(rounds.drop_last(), n, player);
        assert(rounds.drop_last().take(n) =~= rounds.take(n));
    }
}

/// The total of a player after one more round.
pub proof fn lemma_total_of_push(rounds: Seq<RoundView>, round: RoundView, player: nat)
    ensures
        total(rounds.push(round), player) == total(rounds, player) + if round.player_number
            == player {
            round.player_score.counted()
        } else {
            0
        },
{
    assert(rounds.push(round).drop_last() =~= rounds);
}

/// The course of a game stays one when its last rounds are taken back.
pub proof fn lemma_playable_prefix(players: nat, limit: nat, rounds: Seq<RoundView>, n: int)
    requires
        playable(players, limit, rounds),
        0 <= n <= rounds.len(),
    ensures
        playable(players, limit, rounds.take(n)),
        n < rounds.len() ==> !won(limit, rounds.take(n)),
    decreases rounds.len(),
{
    if n == rounds.len() {
        assert(rounds.take(n) =~= rounds);
    } else {
        assert(rounds.drop_last().take(n) =~= rounds.take(n));
        if n == rounds.len() - 1 {
            assert(rounds.take(n) =~= rounds.drop_last());
        } else {
            lemma_playable_prefix(players, limit, rounds.drop_last(), n);
        }
    }
}

/// In the course of a game every player number lies between one and the
/// number of players, and no round number is larger than the number of
/// rounds thrown up to it.
pub proof fn lemma_turns_bounded(players: nat, limit: nat, rounds: Seq<RoundView>, i: int)
    requires
        playable(players, limit, rounds),
        players >= 1,
        0 <= i < rounds.len(),
    ensures
        1 <= rounds[i].player_number <= players,
        1 <= rounds[i].number <= i + 1,
    decreases rounds.len(),
{
    let before = rounds.drop_last();
    if i < rounds.len() - 1 {
        lemma_turns_bounded(players, limit, before, i);
    } else if before.len() > 0 {
        lemma_turns_bounded(players, limit, before, i - 1);
    }
}

/// In the course of a game the rounds stand in the order of their keys:
/// every key comes before the key of the turn that follows.
pub proof fn lemma_playable_is_ordered(players: nat, limit: nat, rounds: Seq<RoundView>)
    requires
        playable(players, limit, rounds),
        players >= 1,
    ensures
        ordered(rounds),
        forall|i: int|
            0 <= i < rounds.len() ==> key_before(
                #[trigger] rounds[i].key(),
                next_turn(players, rounds),
            ),
    decreases rounds.len(),
{
    if rounds.len() > 0 {
        let before = rounds.drop_last();
        lemma_playable_is_ordered(players, limit, before);
        lemma_turns_bounded(players, limit, rounds, rounds.len() - 1);
        assert forall|i: int| 0 <= i < rounds.len() implies key_before(
            #[trigger] rounds[i].key(),
            next_turn(players, rounds),
        ) by {
            if i < rounds.len() - 1 {
                assert(before[i] == rounds[i]);
                assert(key_before(before[i].key(), next_turn(players, before)));
            }
        }
        assert forall|i: int, j: int| 0 <= i < j < rounds.len() implies key_before(
            #[trigger] rounds[i].key(),
            #[trigger] rounds[j].key(),
        ) by {
            assert(before[i] == rounds[i]);
            if j < rounds.len() - 1 {
                assert(before[j] == rounds[j]);
            } else {
                assert(key_before(before[i].key(), next_turn(players, before)));
            }
        }
    }
}

/// No player's total is ever larger than the limit.
pub proof fn lemma_total_within_limit(players: nat, limit: nat, rounds: Seq<RoundView>, player: nat)
    requires
        playable(players, limit, rounds),
    ensures
        total(rounds, player) <= limit,
    decreases rounds.len(),
{
    if rounds.len() > 0 {
        lemma_total_within_limit(players, limit, rounds.drop_last(), player);
    }
}

/// As long as the game is not won, every player's total is below the limit.
pub proof fn lemma_total_below_limit(players: nat, limit: nat, rounds: Seq<RoundView>, player: nat)
    requires
        playable(players, limit, rounds),
        !won(limit, rounds),
        limit > 0,
    ensures
        total(rounds, player) < limit,
    decreases rounds.len(),
{
    if rounds.len() > 0 {
        lemma_total_below_limit(players, limit, rounds.drop_last(), player);
        lemma_total_within_limit(players, limit, rounds, player);
    }
}

/// A player's total equals the limit exactly when the game is won and that
/// player threw last.
pub proof fn lemma_won_by(players: nat, limit: nat, rounds: Seq<RoundView>, player: nat)
    requires
        playable(players, limit, rounds),
        limit > 0,
    ensures
        total(rounds, player) == limit <==> won(limit, rounds) && rounds.last().player_number
            == player,
{
    if rounds.len() > 0 {
        lemma_total_below_limit(players, limit, rounds.drop_last(), player);
        lemma_total_within_limit(players, limit, rounds, player);
    }
}

/// Counting turns adds one round for each.
pub proof fn lemma_replayed_len(players: nat, limit: nat, throws: Seq<Score>)
    ensures
        replayed(players, limit, throws).len() == throws.len(),
    decreases throws.len(),
{
    if throws.len() > 0 {
        lemma_replayed_len(players, limit, throws.drop_last());
    }
}

/// Turns that can be counted give the course of a game.
pub proof fn lemma_replayed_is_playable(players: nat, limit: nat, throws: Seq<Score>)
    requires
        replayable(players, limit, throws),
    ensures
        playable(players, limit, replayed(players, limit, throws)),
    decreases throws.len(),
{
    if throws.len() > 0 {
        let before = replayed(players, limit, throws.drop_last());
        lemma_replayed_is_playable(players, limit, throws.drop_last());
        let round = next_round(players, limit, before, throws.last());
        assert(before.push(round).drop_last() =~= before);
    }
}

/// Where turns can be counted, so can the first `n` of them.
pub proof fn lemma_replayable_prefix(players: nat, limit: nat, throws: Seq<Score>, n: int)
    requires
        replayable(players, limit, throws),
        0 <= n <= throws.len(),
    ensures
        replayable(players, limit, throws.take(n)),
        n < throws.len() ==> !won(limit, replayed(players, limit, throws.take(n))),
    decreases throws.len(),
{
    if n == throws.len() {
        assert(throws.take(n) =~= throws);
    } else {
        assert(throws.drop_last().take(n) =~= throws.take(n));
        if n == throws.len() - 1 {
            assert(throws.take(n) =~= throws.drop_last());
        } else {
            lemma_replayable_prefix(players, limit, throws.drop_last(), n);
        }
    }
}

/// Counting the scores of the course of a game again gives that course.
pub proof fn lemma_replay_of_course(players: nat, limit: nat, rounds: Seq<RoundView>)
    requires
        playable(players, limit, rounds),
    ensures
        replayable(players, limit, throws_of(rounds)),
        replayed(players, limit, throws_of(rounds)) == rounds,
    decreases rounds.len(),
{
    if rounds.len() > 0 {
        lemma_replay_of_course(players, limit, rounds.drop_last());
        assert(throws_of(rounds).drop_last() =~= throws_of(rounds.drop_last()));
        assert(replayed(players, limit, throws_of(rounds)) =~= rounds);
    } else {
        assert(replayed(players, limit, throws_of(rounds)) =~= rounds);
    }
}

} // verus!
