use playground::game_state::{GameState, LoadGameStateParameters};
use playground::number::Number;
use playground::player::{NewPlayerParameters, Player};
use playground::player_score::PlayerScore;
use playground::points::Points;
use playground::points_limit::PointsLimit;
use playground::round::{NewRoundParameters, Round};
use playground::score::Score;
use playground::schedule::{GamePreview, LoadGamePreviewParameters, Schedule};
use playground::score_details::{LoadScoreDetailsParameters, ScoreDetails};
use playground::score_tracker::{NewScoreTrackerParameters, ScoreTracker};
use playground::timestamp::Timestamp;
use playground::tally;
use playground::tally::{AddScore, TotalGameScore};
use uuid::Uuid;

fn score(points: u16) -> Score {
    Score::new(points).unwrap()
}

fn limit(points: u16) -> PointsLimit {
    PointsLimit::new(Points::new(points)).unwrap()
}

fn player(number: usize, points: u16) -> Player {
    Player::new(NewPlayerParameters {
        number: Number::new(number).unwrap(),
        points_limit: limit(points),
    })
}

fn tracker(players: usize, points: u16) -> ScoreTracker {
    ScoreTracker::new(NewScoreTrackerParameters {
        players_number: Number::new(players).unwrap(),
        points_limit: limit(points),
    })
}

fn lens(tracker: &ScoreTracker) -> Vec<usize> {
    tracker.players().iter().map(|p| p.scores().len()).collect()
}

#[test]
fn new_player_has_no_scores() {
    let player = player(3, 301);

    assert_eq!(player.number().value(), 3);
    assert_eq!(player.points(), Points::zero());
    assert_eq!(player.points_to_win(), Points::new(301));
    assert_eq!(player.last_score(), None);
    assert!(player.scores().is_empty());
    assert!(!player.is_winner());
}

#[test]
fn player_adds_scores_up_to_the_limit() {
    let mut player = player(1, 101);

    player.add_score(score(60));
    assert_eq!(player.points(), Points::new(60));
    assert_eq!(player.points_to_win(), Points::new(41));
    assert_eq!(player.last_score(), Some(&PlayerScore::Regular(score(60))));

    player.add_score(score(42));
    assert_eq!(player.points(), Points::new(60));
    assert_eq!(player.points_to_win(), Points::new(41));
    assert_eq!(
        player.last_score(),
        Some(&PlayerScore::Overthrow(score(42)))
    );
    assert!(!player.is_winner());

    player.add_score(score(41));
    assert_eq!(player.points(), Points::new(101));
    assert_eq!(player.points_to_win(), Points::zero());
    assert!(player.is_winner());
    assert_eq!(
        player.scores().to_vec(),
        vec![
            PlayerScore::Regular(score(60)),
            PlayerScore::Overthrow(score(42)),
            PlayerScore::Regular(score(41)),
        ]
    );
}

#[test]
fn winner_takes_no_more_scores() {
    let mut player = player(1, 100);
    player.add_score(score(100));
    assert!(player.is_winner());

    player.add_score(score(0));
    player.add_score(score(5));

    assert_eq!(player.scores().len(), 1);
    assert_eq!(player.points(), Points::new(100));
}

#[test]
fn player_with_the_largest_limit() {
    let mut player = player(1, 65535);
    for _ in 0..364 {
        player.add_score(score(180));
    }
    assert_eq!(player.points(), Points::new(65520));

    player.add_score(score(16));
    assert_eq!(player.points(), Points::new(65520));
    assert_eq!(
        player.last_score(),
        Some(&PlayerScore::Overthrow(score(16)))
    );
    player.add_score(score(15));
    assert!(player.is_winner());
}

#[test]
fn new_tracker_numbers_its_players() {
    let tracker = tracker(3, 301);

    assert_eq!(tracker.points_limit().points(), Points::new(301));
    assert_eq!(tracker.players().len(), 3);
    assert_eq!(
        tracker
            .players()
            .iter()
            .map(|p| p.number().value())
            .collect::<Vec<usize>>(),
        vec![1, 2, 3]
    );
    assert_eq!(tracker.player().number().value(), 1);
    assert!(tracker.winner().is_none());
}

#[test]
fn tracker_gives_the_turn_to_the_shortest_record() {
    let mut tracker = tracker(3, 301);

    assert_eq!(tracker.track(score(10)).number().value(), 1);
    assert_eq!(lens(&tracker), vec![1, 0, 0]);
    assert_eq!(tracker.player().number().value(), 2);
    assert_eq!(tracker.track(score(20)).number().value(), 2);
    assert_eq!(tracker.track(score(30)).number().value(), 3);
    assert_eq!(lens(&tracker), vec![1, 1, 1]);
    assert_eq!(tracker.player().number().value(), 1);
    let player = tracker.track(score(40));
    assert_eq!(player.number().value(), 1);
    assert_eq!(player.points(), Points::new(50));
    assert_eq!(lens(&tracker), vec![2, 1, 1]);
}

#[test]
fn tracker_finds_the_winner() {
    let mut tracker = tracker(2, 101);

    tracker.track(score(100));
    tracker.track(score(50));
    assert!(tracker.winner().is_none());
    tracker.track(score(2));
    tracker.track(score(51));

    let winner = tracker.winner().unwrap();
    assert_eq!(winner.number().value(), 2);
    assert_eq!(winner.points(), Points::new(101));
    assert_eq!(
        tracker.players()[0].scores().to_vec(),
        vec![
            PlayerScore::Regular(score(100)),
            PlayerScore::Overthrow(score(2))
        ]
    );
}

#[test]
fn tracker_keeps_offering_the_turn_to_a_winner_with_the_shortest_record() {
    let mut tracker = tracker(2, 100);

    tracker.track(score(100));
    tracker.track(score(1));
    assert_eq!(tracker.player().number().value(), 1);
    assert_eq!(tracker.track(score(7)).number().value(), 1);

    assert_eq!(lens(&tracker), vec![1, 1]);
    assert_eq!(tracker.winner().unwrap().number().value(), 1);
}

fn round(number: usize, player: usize, player_score: PlayerScore) -> Round {
    Round::new(NewRoundParameters {
        number: Number::new(number).unwrap(),
        player_number: Number::new(player).unwrap(),
        player_score,
    })
}

#[test]
fn game_state_keeps_its_rounds() {
    let mut state = GameState::load(LoadGameStateParameters {
        game_id: Uuid::from_u128(3),
        rounds: vec![round(1, 1, PlayerScore::Regular(score(10)))],
    })
    .unwrap();

    assert_eq!(state.game_id(), Uuid::from_u128(3));
    assert_eq!(state.rounds().len(), 1);

    state.add_round(round(1, 2, PlayerScore::Regular(score(20))));
    assert_eq!(state.rounds().len(), 2);
    assert_eq!(state.rounds()[1].player_number().value(), 2);

    let last = state.remove_last_round().unwrap();
    assert_eq!(last.player_number().value(), 2);
    assert_eq!(*last.player_score(), PlayerScore::Regular(score(20)));
    assert!(state.remove_last_round().is_some());
    assert!(state.remove_last_round().is_none());
    assert!(state.rounds().is_empty());
}

#[test]
fn game_state_tracks_two_players_to_301() {
    let state = GameState::load(LoadGameStateParameters {
        game_id: Uuid::nil(),
        rounds: vec![
            round(1, 1, PlayerScore::Regular(score(180))),
            round(1, 2, PlayerScore::Regular(score(60))),
            round(2, 1, PlayerScore::Regular(score(122))),
        ],
    })
    .unwrap();

    let tracker = state.score_tracker();

    assert_eq!(tracker.points_limit().points(), Points::new(301));
    assert_eq!(tracker.players().len(), 2);
    assert_eq!(
        tracker.players()[0].scores().to_vec(),
        vec![
            PlayerScore::Regular(score(180)),
            PlayerScore::Overthrow(score(122))
        ]
    );
    assert_eq!(
        tracker.players()[1].scores().to_vec(),
        vec![PlayerScore::Regular(score(60))]
    );
    assert_eq!(tracker.player().number().value(), 2);
}

#[test]
fn tally_adds_scores_and_overflows() {
    let mut scores: Vec<tally::PlayerScore> = vec![];
    let game_score = tally::GameScore::new(301);

    tally::add_score(&mut scores, tally::Score::new(180), &game_score);
    tally::add_score(&mut scores, tally::Score::new(122), &game_score);
    scores.add_score(tally::Score::new(121), &game_score);

    assert_eq!(
        scores,
        vec![
            tally::PlayerScore::Score(tally::Score::new(180)),
            tally::PlayerScore::Overflow(tally::Score::new(122)),
            tally::PlayerScore::Score(tally::Score::new(121)),
        ]
    );
    assert_eq!(tally::total_game_score(&scores).value(), 301);
    assert_eq!((&scores).total_game_score().value(), 301);
    assert_eq!(tally::total_game_score(&vec![]).value(), 0);
}

#[test]
fn tally_values() {
    assert_eq!(tally::max_game_score().value(), 301);
    assert_eq!(tally::Score::new(17).value(), 17);
    assert_eq!(
        tally::max_game_score()
            .sub(&tally::GameScore::new(41))
            .value(),
        260
    );
    assert!(tally::GameScore::new(5) == tally::GameScore::new(5));
    assert!(tally::GameScore::new(5) != tally::GameScore::new(6));
    assert!(tally::GameScore::new(5).is_less_than(&tally::GameScore::new(6)));
    assert!(!tally::GameScore::new(6).is_less_than(&tally::GameScore::new(6)));
    assert_eq!(
        tally::PlayerScore::Score(tally::Score::new(9)).into_inner(),
        9
    );
    assert_eq!(
        tally::PlayerScore::Overflow(tally::Score::new(200)).into_inner(),
        200
    );
}

#[test]
fn tally_with_the_largest_game_score() {
    let mut scores: Vec<tally::PlayerScore> = vec![];
    let game_score = tally::GameScore::new(65535);
    for _ in 0..257 {
        scores.add_score(tally::Score::new(255), &game_score);
    }
    assert_eq!(tally::total_game_score(&scores).value(), 65535);

    scores.add_score(tally::Score::new(1), &game_score);

    assert_eq!(
        scores.last(),
        Some(&tally::PlayerScore::Overflow(tally::Score::new(1)))
    );
    assert_eq!(tally::total_game_score(&scores).value(), 65535);
}

#[test]
fn schedule_keeps_its_previews() {
    let first = GamePreview::new(Uuid::from_u128(1), Timestamp::new(10, 0));
    let second = GamePreview::load(LoadGamePreviewParameters {
        game_id: Uuid::from_u128(2),
        start_time: Timestamp::new(20, 5),
    });
    assert_eq!(first.game_id(), Uuid::from_u128(1));
    assert_eq!(first.start_time(), Timestamp::new(10, 0));
    assert_eq!(second.game_id(), Uuid::from_u128(2));
    assert_eq!(second.start_time(), Timestamp::new(20, 5));

    let schedule = Schedule::new(vec![first, second]);
    assert_eq!(schedule.game_previews().len(), 2);
    assert_eq!(schedule.game_previews()[1].game_id(), Uuid::from_u128(2));
    let previews = schedule.into_game_previews();
    assert_eq!(previews.len(), 2);
    assert_eq!(previews[0].start_time(), Timestamp::new(10, 0));
}

#[test]
fn score_details_keep_the_score() {
    let details = ScoreDetails::load(LoadScoreDetailsParameters {
        game_id: Uuid::from_u128(1),
        id: Uuid::from_u128(2),
        player_number: 2,
        player_score: PlayerScore::Overthrow(score(99)),
        round_number: 7,
    });

    assert_eq!(details.id(), Uuid::from_u128(2));
    assert_eq!(details.player_number(), 2);
    assert_eq!(details.player_score(), PlayerScore::Overthrow(score(99)));
}
