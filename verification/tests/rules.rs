use playground::game::{derive_state, Game, LoadGameParameters, NewGameParameters};
use playground::history::{collect, insert_round, points_of};
use playground::number::Number;
use playground::player_score::PlayerScore;
use playground::points::Points;
use playground::points_limit::PointsLimit;
use playground::score_tracker::{NewScoreTrackerParameters, ScoreTracker};
use playground::round::{NewRoundParameters, Round};
use playground::score::Score;
use playground::state::State;
use playground::timestamp::Timestamp;
use uuid::Uuid;

fn new_game(players: usize, limit: u16) -> Game {
    Game::new(NewGameParameters {
        players_number: Number::new(players).unwrap(),
        points_limit: Points::new(limit),
    })
    .unwrap()
}

fn score(points: u16) -> Score {
    Score::new(points).unwrap()
}

fn round(number: usize, player: usize, points: u16, regular: bool) -> Round {
    Round::new(NewRoundParameters {
        number: Number::new(number).unwrap(),
        player_number: Number::new(player).unwrap(),
        player_score: if regular {
            PlayerScore::Regular(score(points))
        } else {
            PlayerScore::Overthrow(score(points))
        },
    })
}

fn keys(rounds: &[Round]) -> Vec<(usize, usize)> {
    rounds
        .iter()
        .map(|r| (r.number().value(), r.player_number().value()))
        .collect()
}

fn regular_total(game: &Game, player: usize) -> u32 {
    game.rounds()
        .iter()
        .filter(|r| r.player_number().value() == player)
        .map(|r| r.player_score().game_points().value() as u32)
        .sum()
}

/// Throws that run through all scores a turn can bring.
fn throws(count: usize) -> Vec<u16> {
    (0..count).map(|i| ((i * 37 + 11) % 181) as u16).collect()
}

#[test]
fn totals_never_pass_the_limit() {
    for players in 1..=4 {
        for limit in [1u16, 50, 301, 1000] {
            let mut game = new_game(players, limit);
            for points in throws(120) {
                if game.count_score(score(points)).is_err() {
                    break;
                }
                for player in 1..=players {
                    assert!(regular_total(&game, player) <= limit as u32);
                    assert_eq!(
                        points_of(game.rounds(), Number::new(player).unwrap()).value() as u32,
                        regular_total(&game, player)
                    );
                }
            }
        }
    }
}

#[test]
fn game_is_finished_exactly_when_a_total_is_the_limit() {
    for players in 1..=4 {
        for limit in [1u16, 50, 301] {
            let mut game = new_game(players, limit);
            for points in throws(200) {
                let reached: Vec<usize> = (1..=players)
                    .filter(|p| regular_total(&game, *p) == limit as u32)
                    .collect();
                match game.state() {
                    State::Finished(state) => {
                        assert_eq!(reached, vec![state.winner().value()]);
                        assert_eq!(game.winner().map(|n| n.value()), reached.first().copied());
                    }
                    _ => {
                        assert!(reached.is_empty());
                        assert_eq!(game.winner(), None);
                    }
                }
                if game.count_score(score(points)).is_err() {
                    assert!(!reached.is_empty());
                    break;
                }
            }
        }
    }
}

#[test]
fn turns_go_round() {
    for players in 1..=5 {
        let mut game = new_game(players, 65535);
        for turn in 0..40 {
            let (player, number) = match game.state() {
                State::NotStarted(state) => (state.player_number().value(), 1),
                State::InProgress(state) => (
                    state.player_number().value(),
                    state.round_number().value(),
                ),
                State::Finished(_) => panic!("the limit is out of reach"),
            };
            assert_eq!(player, turn % players + 1);
            assert_eq!(number, turn / players + 1);

            game.count_score(score(1)).unwrap();

            let last = game.rounds().last().unwrap();
            assert_eq!(last.player_number().value(), turn % players + 1);
            assert_eq!(last.number().value(), turn / players + 1);
        }
    }
}

#[test]
fn one_player_opens_a_round_with_every_throw() {
    let mut game = new_game(1, 301);
    for points in [0, 0, 180, 180, 50] {
        game.count_score(score(points)).unwrap();
    }

    assert_eq!(
        keys(game.rounds()),
        vec![(1, 1), (2, 1), (3, 1), (4, 1), (5, 1)]
    );
}

#[test]
fn count_then_cancel_changes_nothing() {
    for players in 1..=3 {
        let mut game = new_game(players, 101);
        for points in throws(60) {
            let rounds = game.rounds().clone();
            let start = game.start_time();
            let end = game.end_time();
            let state = format!("{:?}", game.state());

            if game.count_score_at(score(points), Timestamp::new(7, 0)).is_err() {
                break;
            }
            let kept = game.rounds().clone();
            let taken = game.cancel_last_score().unwrap();

            assert_eq!(keys(game.rounds()), keys(&rounds));
            assert!(game
                .rounds()
                .iter()
                .zip(rounds.iter())
                .all(|(a, b)| a.player_score() == b.player_score()));
            assert_eq!(format!("{:?}", game.state()), state);
            assert_eq!(game.start_time(), start);
            assert_eq!(game.end_time(), end);
            assert!(taken == *kept.last().unwrap());

            game.count_score_at(score(points), Timestamp::new(7, 0))
                .unwrap();
        }
    }
}

#[test]
fn load_of_played_rounds_in_any_order() {
    let mut game = new_game(3, 150);
    for points in throws(25) {
        if game.count_score(score(points)).is_err() {
            break;
        }
    }
    let mut given = game.rounds().clone();
    given.reverse();
    given.swap(0, 3);

    let again = Game::load(LoadGameParameters {
        create_time: Timestamp::new(1, 0),
        end_time: None,
        id: Uuid::nil(),
        players_number: Number::new(3).unwrap(),
        points_limit: Points::new(150),
        rounds: given,
        start_time: None,
        update_time: Timestamp::new(1, 0),
    })
    .unwrap();

    assert_eq!(keys(again.rounds()), keys(game.rounds()));
    assert!(again
        .rounds()
        .iter()
        .zip(game.rounds().iter())
        .all(|(a, b)| a.player_score() == b.player_score()));
    assert_eq!(
        format!("{:?}", again.state()),
        format!("{:?}", game.state())
    );
}

#[test]
fn insert_round_keeps_the_order() {
    let mut rounds: Vec<Round> = vec![];

    assert!(insert_round(&mut rounds, round(2, 1, 10, true)));
    assert!(insert_round(&mut rounds, round(1, 2, 20, true)));
    assert!(insert_round(&mut rounds, round(3, 1, 30, true)));
    assert!(insert_round(&mut rounds, round(1, 1, 40, true)));
    assert!(insert_round(&mut rounds, round(2, 2, 50, false)));
    assert_eq!(keys(&rounds), vec![(1, 1), (1, 2), (2, 1), (2, 2), (3, 1)]);

    assert!(!insert_round(&mut rounds, round(2, 1, 99, false)));
    assert_eq!(keys(&rounds), vec![(1, 1), (1, 2), (2, 1), (2, 2), (3, 1)]);
    assert_eq!(
        *rounds[2].player_score(),
        PlayerScore::Regular(score(10))
    );
}

#[test]
fn collect_orders_rounds() {
    let sorted = collect(vec![
        round(2, 2, 1, true),
        round(1, 1, 2, true),
        round(2, 1, 3, true),
        round(1, 2, 4, true),
    ])
    .unwrap();
    assert_eq!(keys(&sorted), vec![(1, 1), (1, 2), (2, 1), (2, 2)]);
    assert_eq!(
        sorted
            .iter()
            .map(|r| r.player_score().score().points().value())
            .collect::<Vec<u16>>(),
        vec![2, 4, 3, 1]
    );

    assert!(collect(vec![]).unwrap().is_empty());
    assert!(collect(vec![round(1, 1, 1, true), round(1, 1, 1, true)]).is_none());
    assert!(collect(vec![
        round(1, 1, 1, true),
        round(1, 2, 1, true),
        round(1, 1, 5, false)
    ])
    .is_none());
}

#[test]
fn points_of_counts_regular_scores_only() {
    let rounds = vec![
        round(1, 1, 100, true),
        round(1, 2, 50, true),
        round(2, 1, 2, false),
        round(2, 2, 51, true),
        round(3, 1, 1, true),
    ];

    assert_eq!(points_of(&rounds, Number::new(1).unwrap()), Points::new(101));
    assert_eq!(points_of(&rounds, Number::new(2).unwrap()), Points::new(101));
    assert_eq!(points_of(&rounds, Number::new(3).unwrap()), Points::zero());
    assert_eq!(points_of(&vec![], Number::one()), Points::zero());
}

#[test]
fn derive_state_from_rounds() {
    let two = Number::new(2).unwrap();
    let limit = Points::new(101);

    match derive_state(two, limit, &vec![]) {
        State::NotStarted(state) => assert_eq!(state.points_to_win().value(), 101),
        _ => panic!("nothing was thrown"),
    }
    match derive_state(two, limit, &vec![round(1, 1, 100, true)]) {
        State::InProgress(state) => {
            assert_eq!(state.player_number().value(), 2);
            assert_eq!(state.round_number().value(), 1);
            assert_eq!(state.points_to_win().value(), 101);
        }
        _ => panic!("the game is in progress"),
    }
    match derive_state(
        two,
        limit,
        &vec![round(1, 1, 100, true), round(1, 2, 102, false)],
    ) {
        State::InProgress(state) => {
            assert_eq!(state.player_number().value(), 1);
            assert_eq!(state.round_number().value(), 2);
            assert_eq!(state.points_to_win().value(), 1);
        }
        _ => panic!("the game is in progress"),
    }
    match derive_state(
        two,
        limit,
        &vec![
            round(1, 1, 100, true),
            round(1, 2, 102, false),
            round(2, 1, 1, true),
        ],
    ) {
        State::Finished(state) => assert_eq!(state.winner().value(), 1),
        _ => panic!("the game is over"),
    }
}

#[test]
fn records_agree_with_rounds() {
    for players in 1..=4 {
        for limit in [60u16, 301] {
            let mut game = new_game(players, limit);
            let mut tracker = ScoreTracker::new(NewScoreTrackerParameters {
                players_number: Number::new(players).unwrap(),
                points_limit: PointsLimit::new(Points::new(limit)).unwrap(),
            });
            for points in throws(80) {
                if game.count_score(score(points)).is_err() {
                    break;
                }
                tracker.track(score(points));
                for player in 1..=players {
                    let thrown: Vec<PlayerScore> = game
                        .rounds()
                        .iter()
                        .filter(|r| r.player_number().value() == player)
                        .map(|r| *r.player_score())
                        .collect();
                    assert_eq!(tracker.players()[player - 1].scores().to_vec(), thrown);
                    assert_eq!(tracker.players()[player - 1].number().value(), player);
                }
                assert_eq!(
                    tracker.winner().map(|p| p.number().value()),
                    game.winner().map(|n| n.value())
                );
            }
        }
    }
}
