//! Tracking a game player by player: the turn goes to the player with the
//! fewest scores on their record.

use crate::number::Number;
use crate::player::{NewPlayerParameters, Player, PlayerView};
use crate::points_limit::PointsLimit;
use crate::score::Score;
use vstd::prelude::*;

verus! {

/// The players of a game and their records.
pub struct ScoreTracker {
    players_number: Number,
    players: Vec<Player>,
    points_limit: PointsLimit,
}

/// What a new tracker is made of.
pub struct NewScoreTrackerParameters {
    pub players_number: Number,
    pub points_limit: PointsLimit,
}

/// A tracker as the rules see it.
pub ghost struct ScoreTrackerView {
    pub points_limit: nat,
    pub players: Seq<PlayerView>,
}

/// The players as the rules see them.
pub open spec fn player_views(players: Seq<Player>) -> Seq<PlayerView> {
    players.map_values(|player: Player| player@)
}

/// The place of the first of the players who have the fewest scores.
pub open spec fn first_least(players: Seq<PlayerView>) -> int
    decreases players.len(),
{
    if players.len() <= 1 {
        0
    } else {
        let least = first_least(players.drop_last());
        if players.last().scores.len() < players[least].scores.len() {
            players.len() - 1
        } else {
            least
        }
    }
}

/// The place of the first of the players who have won, or the number of
/// players where none has.
pub open spec fn first_winner(players: Seq<PlayerView>) -> int
    decreases players.len(),
{
    if players.len() == 0 {
        0
    } else {
        let first = first_winner(players.drop_last());
        if first < players.len() - 1 {
            first
        } else if players.last().has_won() {
            players.len() - 1
        } else {
            players.len() as int
        }
    }
}

/// No player has fewer scores than the one at [`first_least`], and every
/// player before that one has more.
pub proof fn law_first_least(players: Seq<PlayerView>)
    requires
        players.len() > 0,
    ensures
        0 <= first_least(players) < players.len(),
        forall|i: int|
            0 <= i < players.len() ==> players[first_least(players)].scores.len()
                <= #[trigger] players[i].scores.len(),
        forall|i: int|
            0 <= i < first_least(players) ==> players[first_least(players)].scores.len()
                < #[trigger] players[i].scores.len(),
    decreases players.len(),
{
    if players.len() > 1 {
        let before = players.drop_last();
        law_first_least(before);
        assert forall|i: int| 0 <= i < before.len() implies before[i] == players[i] by {}
        let least = first_least(players);
        assert forall|i: int| 0 <= i < players.len() implies players[least].scores.len()
            <= #[trigger] players[i].scores.len() by {
            if i < before.len() {
                assert(before[first_least(before)].scores.len() <= before[i].scores.len());
            }
        }
        assert forall|i: int| 0 <= i < least implies players[least].scores.len()
            < #[trigger] players[i].scores.len() by {
            assert(before[first_least(before)].scores.len() <= before[i].scores.len());
            if least < before.len() {
                assert(before[first_least(before)].scores.len() < before[i].scores.len());
            }
        }
    }
}

/// The player at [`first_winner`] has won, and no player before that one
/// has.
pub proof fn law_first_winner(players: Seq<PlayerView>)
    ensures
        0 <= first_winner(players) <= players.len(),
        first_winner(players) < players.len() ==> players[first_winner(players)].has_won(),
        forall|i: int| 0 <= i < first_winner(players) ==> !(#[trigger] players[i]).has_won(),
    decreases players.len(),
{
    if players.len() > 0 {
        let before = players.drop_last();
        law_first_winner(before);
        assert forall|i: int| 0 <= i < before.len() implies before[i] == players[i] by {}
        assert forall|i: int| 0 <= i < first_winner(players) implies !(#[trigger] players[i]).has_won() by {
            if i < before.len() {
                assert(!before[i].has_won());
            }
        }
    }
}

impl ScoreTrackerView {
    /// A tracker of `players_number` players with nothing on their records.
    pub open spec fn fresh(players_number: nat, points_limit: nat) -> ScoreTrackerView {
        ScoreTrackerView {
            points_limit,
            players: Seq::new(
                players_number,
                |i: int|
                    PlayerView { number: (i + 1) as nat, points_limit, scores: Seq::empty() },
            ),
        }
    }

    /// What every tracker keeps to: there is a player, the players are
    /// numbered from one, and each of them keeps to the rules of the same
    /// game.
    pub open spec fn valid(self) -> bool {
        &&& self.players.len() >= 1
        &&& forall|i: int|
            0 <= i < self.players.len() ==> {
                &&& (#[trigger] self.players[i]).valid()
                &&& self.players[i].number == i + 1
                &&& self.players[i].points_limit == self.points_limit
            }
    }

    /// The place of the player whose turn it is.
    pub open spec fn turn(self) -> int {
        first_least(self.players)
    }

    /// The tracker after a turn of `score` was recorded for the player
    /// whose turn it is.
    pub open spec fn with_turn(self, score: Score) -> ScoreTrackerView {
        ScoreTrackerView {
            players: self.players.update(self.turn(), self.players[self.turn()].added(score)),
            ..self
        }
    }
}

impl View for ScoreTracker {
    type V = ScoreTrackerView;

    closed spec fn view(&self) -> ScoreTrackerView {
        ScoreTrackerView { points_limit: self.points_limit@, players: player_views(self.players@) }
    }
}

impl ScoreTracker {
    /// Whether the tracker is in order.
    pub closed spec fn wf(&self) -> bool {
        &&& self@.valid()
        &&& self.players@.len() == self.players_number@
        &&& forall|i: int| 0 <= i < self.players@.len() ==> (#[trigger] self.players@[i]).wf()
    }

    /// A tracker in order keeps to what every tracker keeps to.
    pub proof fn lemma_valid(&self)
        requires
            self.wf(),
        ensures
            self@.valid(),
    {
    }

    /// Gives the tracker its players, numbered from one, with nothing on
    /// their records.
    fn initialize_players(&mut self)
        ensures
            final(self).players_number == old(self).players_number,
            final(self).points_limit == old(self).points_limit,
            final(self).wf(),
            final(self)@ == ScoreTrackerView::fresh(
                old(self).players_number@,
                old(self).points_limit@,
            ),
    {
        let count = self.players_number.value();
        // Asked for its points, a limit says that it is not zero.
        let _ = self.points_limit.points().value();
        let mut players: Vec<Player> = Vec::new();
        let mut i: usize = 0;
        while i < count
            invariant
                i <= count,
                count == self.players_number@,
                players@.len() == i,
                0 < self.points_limit@ <= u16::MAX,
                forall|j: int|
                    0 <= j < i ==> {
                        &&& (#[trigger] players@[j]).wf()
                        &&& players@[j]@ == (PlayerView {
                            number: (j + 1) as nat,
                            points_limit: self.points_limit@,
                            scores: Seq::empty(),
                        })
                    },
            decreases count - i,
        {
            players.push(
                Player::new(
                    NewPlayerParameters {
                        number: Number::following(i),
                        points_limit: self.points_limit,
                    },
                ),
            );
            i = i + 1;
        }
        self.players = players;
        proof {
            assert(self@.players =~= ScoreTrackerView::fresh(
                self.players_number@,
                self.points_limit@,
            ).players);
            assert forall|j: int| 0 <= j < self@.players.len() implies {
                &&& (#[trigger] self@.players[j]).valid()
                &&& self@.players[j].number == j + 1
                &&& self@.players[j].points_limit == self@.points_limit
            } by {
                self.players@[j].lemma_valid();
            }
        }
    }

    /// A tracker of a game in which nothing has been thrown.
    pub fn new(parameters: NewScoreTrackerParameters) -> (tracker: ScoreTracker)
        ensures
            tracker.wf(),
            tracker@ == ScoreTrackerView::fresh(
                parameters.players_number@,
                parameters.points_limit@,
            ),
    {
        let NewScoreTrackerParameters { players_number, points_limit } = parameters;
        let mut score_tracker = ScoreTracker { players_number, players: Vec::new(), points_limit };
        score_tracker.initialize_players();
        score_tracker
    }

    /// The place of the player whose turn it is.
    fn turn(&self) -> (at: usize)
        requires
            self.wf(),
        ensures
            at == self@.turn(),
            at < self.players@.len(),
    {
        // Asked for its value, a number says that it is positive.
        let _ = self.players_number.value();
        let ghost all = self@.players;
        let mut at: usize = 0;
        let mut i: usize = 1;
        assert(all.take(1).drop_last() =~= Seq::<PlayerView>::empty());
        while i < self.players.len()
            invariant
                1 <= i <= self.players.len(),
                all == player_views(self.players@),
                at < i,
                at == first_least(all.take(i as int)),
            decreases self.players.len() - i,
        {
            proof {
                assert(all.take(i + 1).drop_last() =~= all.take(i as int));
                assert(all.take(i + 1).last() == self.players@[i as int]@);
                assert(all.take(i + 1)[at as int] == self.players@[at as int]@);
            }
            if self.players[i].scores().len() < self.players[at].scores().len() {
                at = i;
            }
            i = i + 1;
        }
        assert(all.take(i as int) =~= all);
        at
    }

    /// The player whose turn it is: the first of those with the fewest
    /// scores on their record.
    pub fn player(&self) -> (player: &Player)
        requires
            self.wf(),
        ensures
            player.wf(),
            player@ == self@.players[self@.turn()],
    {
        let at = self.turn();
        &self.players[at]
    }

    /// Records a turn of `score` for the player whose turn it is, and hands
    /// out that player.
    pub fn track(&mut self, score: Score) -> (player: &Player)
        requires
            old(self).wf(),
        ensures
            final(self).wf(),
            final(self)@ == old(self)@.with_turn(score),
            player.wf(),
            player@ == final(self)@.players[old(self)@.turn()],
    {
        let at = self.turn();
        let ghost before = self.players@;
        self.players[at].add_score(score);
        proof {
            self.players@[at as int].lemma_valid();
            assert(self.players@ =~= before.update(at as int, self.players@[at as int]));
            assert(self@.players =~= old(self)@.with_turn(score).players);
            assert forall|i: int| 0 <= i < self.players@.len() implies (#[trigger] self.players@[i]).wf() by {
                if i != at {
                    assert(self.players@[i] == before[i]);
                }
            }
            assert forall|i: int| 0 <= i < self@.players.len() implies {
                &&& (#[trigger] self@.players[i]).valid()
                &&& self@.players[i].number == i + 1
                &&& self@.players[i].points_limit == self@.points_limit
            } by {
                if i != at {
                    assert(self@.players[i] == old(self)@.players[i]);
                } else {
                    assert(old(self)@.players[i].valid());
                }
            }
        }
        &self.players[at]
    }

    /// The players, the first one first.
    pub fn players(&self) -> (players: &[Player])
        ensures
            player_views(players@) == self@.players,
    {
        self.players.as_slice()
    }

    pub fn points_limit(&self) -> (points_limit: PointsLimit)
        ensures
            points_limit@ == self@.points_limit,
    {
        self.points_limit
    }

    /// The first of the players who have reached the limit, if one has.
    pub fn winner(&self) -> (winner: Option<&Player>)
        requires
            self.wf(),
        ensures
            match winner {
                Some(player) => {
                    &&& first_winner(self@.players) < self@.players.len()
                    &&& player@ == self@.players[first_winner(self@.players)]
                    &&& player.wf()
                },
                None => first_winner(self@.players) == self@.players.len(),
            },
    {
        let ghost all = self@.players;
        let mut i: usize = 0;
        assert(all.take(0) =~= Seq::<PlayerView>::empty());
        while i < self.players.len()
            invariant
                i <= self.players.len(),
                all == player_views(self.players@),
                self.wf(),
                first_winner(all.take(i as int)) == i,
            decreases self.players.len() - i,
        {
            proof {
                assert(all.take(i + 1).drop_last() =~= all.take(i as int));
                assert(all.take(i + 1).last() == self.players@[i as int]@);
            }
            if self.players[i].is_winner() {
                proof {
                    lemma_first_winner_found(all, i as int);
                }
                return Some(&self.players[i]);
            }
            i = i + 1;
        }
        assert(all.take(i as int) =~= all);
        None
    }
}

/// Where the first winner among the first `n + 1` players stands at `n`,
/// that is the first winner among all.
pub proof fn lemma_first_winner_found(players: Seq<PlayerView>, n: int)
    requires
        0 <= n < players.len(),
        first_winner(players.take(n + 1)) == n,
    ensures
        first_winner(players) == n,
    decreases players.len(),
{
    if n + 1 == players.len() {
        assert(players.take(n + 1) =~= players);
    } else {
        assert(players.drop_last().take(n + 1) =~= players.take(n + 1));
        lemma_first_winner_found(players.drop_last(), n);
    }
}

} // verus!
