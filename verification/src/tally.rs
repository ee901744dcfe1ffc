//! Keeping score with nothing but a list: every player has a list of
//! scores, and a score that would take the list past the points of the
//! game is kept as an overflow.

use crate::decimal::{decimal, decimal_digits};
use vstd::prelude::*;

verus! {

/// The points of one turn.
#[derive(Clone, Copy, Debug, PartialEq, Eq)]
pub struct Score(pub u8);

/// A number of points in a game: a total, or the points to which the game
/// is played.
#[derive(Clone, Copy, Debug)]
pub struct GameScore(pub u16);

/// A score on a player's list.
#[derive(Clone, Copy, Debug, PartialEq, Eq)]
pub enum PlayerScore {
    /// The score counts.
    Score(Score),
    /// The score would have taken the player past the points of the game
    /// and counts for nothing.
    Overflow(Score),
}

/// The points that the scores of a list count for together.
pub open spec fn total_of(scores: Seq<PlayerScore>) -> nat
    decreases scores.len(),
{
    if scores.len() == 0 {
        0
    } else {
        total_of(scores.drop_last()) + match scores.last() {
            PlayerScore::Score(score) => score.0 as nat,
            PlayerScore::Overflow(_) => 0nat,
        }
    }
}

/// The list after a turn of `score` in a game played to `game_score`
/// points.
pub open spec fn with_score(scores: Seq<PlayerScore>, score: Score, game_score: GameScore)
    -> Seq<PlayerScore> {
    if total_of(scores) + score.0 > game_score.0 {
        scores.push(PlayerScore::Overflow(score))
    } else {
        scores.push(PlayerScore::Score(score))
    }
}

/// The total of the first scores of a list is no more than the total of
/// all.
pub proof fn lemma_total_of_prefix(scores: Seq<PlayerScore>, n: int)
    requires
        0 <= n <= scores.len(),
    ensures
        total_of(scores.take(n)) <= total_of(scores),
    decreases scores.len(),
{
    if n == scores.len() {
        assert(scores.take(n) =~= scores);
    } else {
        lemma_total_of_prefix(scores.drop_last(), n);
        assert(scores.drop_last().take(n) =~= scores.take(n));
    }
}

/// A list that counts for no more than the points of the game still does
/// so after one more turn: no list ever counts for more.
pub proof fn law_total_within_game_score(scores: Seq<PlayerScore>, score: Score, game_score: GameScore)
    requires
        total_of(scores) <= game_score.0,
    ensures
        total_of(with_score(scores, score, game_score)) <= game_score.0,
{
    assert(with_score(scores, score, game_score).drop_last() =~= scores);
}

/// Lists that take scores.
pub trait AddScore {
    /// The scores on the list.
    spec fn list(&self) -> Seq<PlayerScore>;

    /// Adds a turn of `score` in a game played to `game_score` points: as
    /// an overflow if it would take the list past those points.
    fn add_score(&mut self, score: Score, game_score: &GameScore)
        requires
            total_of(old(self).list()) <= u16::MAX,
        ensures
            final(self).list() == with_score(old(self).list(), score, *game_score),
    ;
}

/// Lists of scores that can be added up.
pub trait TotalGameScore {
    /// The scores on the list.
    spec fn listed(&self) -> Seq<PlayerScore>;

    /// The points that the scores count for together.
    fn total_game_score(self) -> (total: GameScore) where Self: Sized
        requires
            total_of(self.listed()) <= u16::MAX,
        ensures
            total.0 == total_of(self.listed()),
    ;
}

/// The points to which a game is played where nothing else is said.
pub fn max_game_score() -> (game_score: GameScore)
    ensures
        game_score.0 == 301,
{
    GameScore::new(301)
}

impl Score {
    pub fn new(x: u8) -> (score: Score)
        ensures
            score.0 == x,
    {
        Score(x)
    }

    pub fn value(&self) -> (value: u8)
        ensures
            value == self.0,
    {
        self.0
    }
}

impl GameScore {
    pub fn new(x: u16) -> (game_score: GameScore)
        ensures
            game_score.0 == x,
    {
        GameScore(x)
    }

    pub fn value(&self) -> (value: u16)
        ensures
            value == self.0,
    {
        self.0
    }

    /// The number of points in decimal notation.
    pub fn to_string(&self) -> (text: String)
        ensures
            text@ == decimal_digits(self.0 as nat),
    {
        decimal(self.0 as u64)
    }

    /// The points that are left of `self` when `rhs` are taken away.
    pub fn sub(&self, rhs: &GameScore) -> (left: GameScore)
        requires
            rhs.0 <= self.0,
        ensures
            left.0 == self.0 - rhs.0,
    {
        GameScore(self.0 - rhs.0)
    }

    /// Whether `self` is less than `other`.
    pub fn is_less_than(&self, other: &GameScore) -> (less: bool)
        ensures
            less == (self.0 < other.0),
    {
        self.0 < other.0
    }
}

impl PartialEq for GameScore {
    fn eq(&self, other: &GameScore) -> (equal: bool) {
        self.0 == other.0
    }
}

impl vstd::std_specs::cmp::PartialEqSpecImpl for GameScore {
    open spec fn obeys_eq_spec() -> bool {
        true
    }

    open spec fn eq_spec(&self, other: &GameScore) -> bool {
        self.0 == other.0
    }
}

impl PlayerScore {
    /// The points of the turn, whether they count or not.
    pub fn into_inner(self) -> (points: u8)
        ensures
            points == match self {
                PlayerScore::Score(score) => score.0,
                PlayerScore::Overflow(score) => score.0,
            },
    {
        match self {
            PlayerScore::Score(score) => score.0,
            PlayerScore::Overflow(score) => score.0,
        }
    }
}

impl AddScore for Vec<PlayerScore> {
    open spec fn list(&self) -> Seq<PlayerScore> {
        self@
    }

    fn add_score(&mut self, score: Score, game_score: &GameScore) {
        self::add_score(self, score, game_score);
    }
}

/// Adds a turn of `score` to `scores` in a game played to `game_score`
/// points: as an overflow if it would take the list past those points.
pub fn add_score(scores: &mut Vec<PlayerScore>, score: Score, game_score: &GameScore)
    requires
        total_of(old(scores)@) <= u16::MAX,
    ensures
        final(scores)@ == with_score(old(scores)@, score, *game_score),
{
    let player_game_score: GameScore = total_game_score(scores);
    if player_game_score.0 as u32 + score.0 as u32 > game_score.0 as u32 {
        scores.push(PlayerScore::Overflow(score));
    } else {
        scores.push(PlayerScore::Score(score));
    }
}

impl TotalGameScore for &Vec<PlayerScore> {
    open spec fn listed(&self) -> Seq<PlayerScore> {
        self@
    }

    fn total_game_score(self) -> (total: GameScore) {
        self::total_game_score(self)
    }
}

/// The points that `scores` count for together.
pub fn total_game_score(scores: &Vec<PlayerScore>) -> (total: GameScore)
    requires
        total_of(scores@) <= u16::MAX,
    ensures
        total.0 == total_of(scores@),
{
    let mut acc: u16 = 0;
    let mut i: usize = 0;
    while i < scores.len()
        invariant
            i <= scores.len(),
            acc == total_of(scores@.take(i as int)),
            total_of(scores@) <= u16::MAX,
        decreases scores.len() - i,
    {
        proof {
            lemma_total_of_prefix(scores@, i + 1);
            assert(scores@.take(i + 1).drop_last() =~= scores@.take(i as int));
        }
        acc = match scores[i] {
            PlayerScore::Score(score) => score.0 as u16 + acc,
            PlayerScore::Overflow(_) => acc,
        };
        i = i + 1;
    }
    assert(scores@.take(i as int) =~= scores@);
    GameScore(acc)
}

} // verus!
