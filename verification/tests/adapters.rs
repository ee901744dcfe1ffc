use playground::details::{
    game_details, name_of, player_details, point, rounds, PlayerDetails, Point, PointKind,
    RoundPoints, ToRpc,
};
use playground::error::Error;
use playground::game::{Game, NewGameParameters};
use playground::input::{
    parse_input_score, parse_u16, score_from_entry, score_from_line, trim,
};
use playground::number::Number;
use playground::player_score::PlayerScore;
use playground::points::Points;
use playground::record::{
    game_from_row, game_from_row_at, item_from_round, player_score, round_from_item,
    rounds_from_items, GameRow, RoundsColumnItem,
};
use playground::round::{NewRoundParameters, Round};
use playground::score::Score;
use playground::state::State;
use playground::timestamp::Timestamp;
use uuid::Uuid;

fn score(points: u16) -> Score {
    Score::new(points).unwrap()
}

fn played(players: usize, limit: u16, throws: &[u16]) -> Game {
    let mut game = Game::new(NewGameParameters {
        players_number: Number::new(players).unwrap(),
        points_limit: Points::new(limit),
    })
    .unwrap();
    for points in throws {
        game.count_score(score(*points)).unwrap();
    }
    game
}

fn item(round_number: i32, player_number: i32, kind: &str, points: i32) -> RoundsColumnItem {
    RoundsColumnItem {
        round_number,
        player_number,
        points_kind: kind.to_string(),
        points,
    }
}

fn out_of_range() -> Error {
    Error::Unexpected("out of range integral type conversion attempted".to_string())
}

#[test]
fn parse_input_score_reads_sums() {
    assert_eq!(parse_input_score(""), Ok(0));
    assert_eq!(parse_input_score("0"), Ok(0));
    assert_eq!(parse_input_score("7"), Ok(7));
    assert_eq!(parse_input_score("20+5+1"), Ok(26));
    assert_eq!(parse_input_score("60+60+60"), Ok(180));
    assert_eq!(parse_input_score("255"), Ok(255));
    assert_eq!(parse_input_score("250+5"), Ok(255));
    assert_eq!(parse_input_score("007+0003"), Ok(10));
    assert_eq!(parse_input_score("0000000000000000000000255"), Ok(255));
}

#[test]
fn parse_input_score_refuses_what_is_no_sum() {
    assert_eq!(parse_input_score("+"), Err(()));
    assert_eq!(parse_input_score("+5"), Err(()));
    assert_eq!(parse_input_score("5+"), Err(()));
    assert_eq!(parse_input_score("5++5"), Err(()));
    assert_eq!(parse_input_score("a"), Err(()));
    assert_eq!(parse_input_score("5a"), Err(()));
    assert_eq!(parse_input_score("5 + 5"), Err(()));
    assert_eq!(parse_input_score(" 5"), Err(()));
    assert_eq!(parse_input_score("-5"), Err(()));
    assert_eq!(parse_input_score("٥"), Err(()));
    assert_eq!(parse_input_score("256"), Err(()));
    assert_eq!(parse_input_score("1+256"), Err(()));
    assert_eq!(parse_input_score("99999999999999999999999999"), Err(()));
    assert_eq!(parse_input_score("250+6"), Err(()));
    assert_eq!(parse_input_score("200+200"), Err(()));
}

#[test]
fn score_from_line_trims_and_reads() {
    assert_eq!(score_from_line("57\n"), Ok(score(57)));
    assert_eq!(score_from_line("  180 \r\n"), Ok(score(180)));
    assert_eq!(score_from_line("\u{2003}18\u{a0}\t"), Ok(score(18)));
    assert_eq!(score_from_line("+5"), Ok(score(5)));
    assert_eq!(score_from_line("0"), Ok(score(0)));
    assert_eq!(
        score_from_line("abc\n"),
        Err(Error::InvalidArgument(
            "Ensure to enter a score between 0 and 180".to_string()
        ))
    );
    assert_eq!(
        score_from_line("\n"),
        Err(Error::InvalidArgument(
            "Ensure to enter a score between 0 and 180".to_string()
        ))
    );
    assert_eq!(
        score_from_line("65536"),
        Err(Error::InvalidArgument(
            "Ensure to enter a score between 0 and 180".to_string()
        ))
    );
    assert_eq!(
        score_from_line("-1"),
        Err(Error::InvalidArgument(
            "Ensure to enter a score between 0 and 180".to_string()
        ))
    );
    assert_eq!(
        score_from_line("181\n"),
        Err(Error::InvalidArgument(
            "The maximum number of points allowed is 180. Given: 181".to_string()
        ))
    );
}

#[test]
fn parse_u16_reads_numbers() {
    assert_eq!(parse_u16("0"), Some(0));
    assert_eq!(parse_u16("57"), Some(57));
    assert_eq!(parse_u16("+57"), Some(57));
    assert_eq!(parse_u16("0005"), Some(5));
    assert_eq!(parse_u16("+000"), Some(0));
    assert_eq!(parse_u16("65535"), Some(65535));
    assert_eq!(parse_u16("00000000065535"), Some(65535));
    assert_eq!(parse_u16("65536"), None);
    assert_eq!(parse_u16("99999999999999999999"), None);
    assert_eq!(parse_u16(""), None);
    assert_eq!(parse_u16("+"), None);
    assert_eq!(parse_u16("++5"), None);
    assert_eq!(parse_u16("5+"), None);
    assert_eq!(parse_u16("-5"), None);
    assert_eq!(parse_u16("-0"), None);
    assert_eq!(parse_u16("5 "), None);
    assert_eq!(parse_u16(" 5"), None);
    assert_eq!(parse_u16("1_000"), None);
    assert_eq!(parse_u16("٥"), None);
    assert_eq!(parse_u16("0x10"), None);
    for text in ["0", "+57", "65535", "65536", "", "+", "-5", " 5", "٥", "+000"] {
        assert_eq!(parse_u16(text), text.parse::<u16>().ok());
    }
}

#[test]
fn trim_takes_white_space_off_the_ends() {
    assert_eq!(trim(""), "");
    assert_eq!(trim("5"), "5");
    assert_eq!(trim(" 5"), "5");
    assert_eq!(trim("5 "), "5");
    assert_eq!(trim("  5 7\t\r\n"), "5 7");
    assert_eq!(trim(" \t\n "), "");
    assert_eq!(trim("\u{3000}x\u{2028}"), "x");
    assert_eq!(trim("\u{200b}x\u{feff}"), "\u{200b}x\u{feff}");
    assert_eq!(trim("\u{180e}x"), "\u{180e}x");
}

#[test]
fn trim_knows_every_white_space() {
    for code in 0..=0x10ffffu32 {
        if let Some(c) = char::from_u32(code) {
            let text = format!("{}5 {}", c, c);
            assert_eq!(trim(&text), text.trim());
        }
    }
}

#[test]
fn score_from_entry_makes_scores() {
    assert_eq!(score_from_entry(Some(12)), Ok(score(12)));
    assert_eq!(
        score_from_entry(Some(400)),
        Err(Error::InvalidArgument(
            "The maximum number of points allowed is 180. Given: 400".to_string()
        ))
    );
    assert_eq!(
        score_from_entry(None),
        Err(Error::InvalidArgument(
            "Ensure to enter a score between 0 and 180".to_string()
        ))
    );
}

#[test]
fn player_score_from_the_store() {
    assert_eq!(
        player_score(60, "regular".to_string()),
        Ok(PlayerScore::Regular(score(60)))
    );
    assert_eq!(
        player_score(60, "overthrow".to_string()),
        Ok(PlayerScore::Overthrow(score(60)))
    );
    assert_eq!(
        player_score(0, "regular".to_string()),
        Ok(PlayerScore::Regular(score(0)))
    );
    assert_eq!(
        player_score(60, "Regular".to_string()),
        Err(Error::Unexpected("Invalid points kind".to_string()))
    );
    assert_eq!(
        player_score(1000, "bust".to_string()),
        Err(Error::Unexpected("Invalid points kind".to_string()))
    );
    assert_eq!(
        player_score(181, "regular".to_string()),
        Err(Error::InvalidArgument(
            "The maximum number of points allowed is 180. Given: 181".to_string()
        ))
    );
    assert_eq!(
        player_score(65535, "overthrow".to_string()),
        Err(Error::InvalidArgument(
            "The maximum number of points allowed is 180. Given: 65535".to_string()
        ))
    );
    assert_eq!(player_score(-1, "regular".to_string()), Err(out_of_range()));
    assert_eq!(player_score(65536, "bust".to_string()), Err(out_of_range()));
}

#[test]
fn round_from_the_store() {
    let round = round_from_item(&item(3, 2, "overthrow", 77)).unwrap();
    assert_eq!(round.number().value(), 3);
    assert_eq!(round.player_number().value(), 2);
    assert_eq!(*round.player_score(), PlayerScore::Overthrow(score(77)));
    assert_eq!(round.id(), None);

    assert_eq!(
        round_from_item(&item(-1, 2, "regular", 7)).err(),
        Some(out_of_range())
    );
    assert_eq!(
        round_from_item(&item(1, -2, "regular", 7)).err(),
        Some(out_of_range())
    );
    assert_eq!(
        round_from_item(&item(0, 2, "nothing", 7)).err(),
        Some(Error::Unexpected("Invalid points kind".to_string()))
    );
    assert_eq!(
        round_from_item(&item(0, 2, "regular", 7)).err(),
        Some(Error::InvalidArgument(
            "Number must be greater than 0".to_string()
        ))
    );
    assert_eq!(
        round_from_item(&item(1, 0, "regular", 7)).err(),
        Some(Error::InvalidArgument(
            "Number must be greater than 0".to_string()
        ))
    );
}

#[test]
fn rounds_from_the_store() {
    let rounds = rounds_from_items(&vec![
        item(1, 1, "regular", 10),
        item(1, 2, "overthrow", 20),
    ])
    .unwrap();
    assert_eq!(rounds.len(), 2);
    assert_eq!(*rounds[1].player_score(), PlayerScore::Overthrow(score(20)));
    assert_eq!(rounds_from_items(&vec![]).unwrap().len(), 0);

    assert_eq!(
        rounds_from_items(&vec![
            item(1, 1, "regular", 10),
            item(1, 2, "regular", 200),
            item(-1, 2, "regular", 20),
        ])
        .err(),
        Some(Error::InvalidArgument(
            "The maximum number of points allowed is 180. Given: 200".to_string()
        ))
    );
}

#[test]
fn round_to_the_store() {
    let regular = Round::new(NewRoundParameters {
        number: Number::new(4).unwrap(),
        player_number: Number::new(2).unwrap(),
        player_score: PlayerScore::Regular(score(26)),
    });
    let kept = item_from_round(&regular);
    assert_eq!(kept.round_number, 4);
    assert_eq!(kept.player_number, 2);
    assert_eq!(kept.points_kind, "regular");
    assert_eq!(kept.points, 26);

    let overthrow = Round::new(NewRoundParameters {
        number: Number::new(1).unwrap(),
        player_number: Number::new(1).unwrap(),
        player_score: PlayerScore::Overthrow(score(180)),
    });
    let kept = item_from_round(&overthrow);
    assert_eq!(kept.points_kind, "overthrow");
    assert_eq!(kept.points, 180);

    let again = round_from_item(&kept).unwrap();
    assert!(again == overthrow);
    assert_eq!(again.player_score(), overthrow.player_score());
}

fn row(players_number: i32, points_limit: i32, rounds: Vec<RoundsColumnItem>) -> GameRow {
    GameRow {
        end_time: None,
        id: Uuid::from_u128(11),
        insert_time: Timestamp::new(100, 0),
        players_number,
        points_limit,
        rounds,
        start_time: Some(Timestamp::new(101, 0)),
        update_time: Timestamp::new(102, 0),
    }
}

#[test]
fn game_from_the_store() {
    let game = game_from_row_at(
        row(
            2,
            301,
            vec![
                item(1, 2, "regular", 60),
                item(1, 1, "regular", 40),
                item(2, 1, "regular", 100),
            ],
        ),
        Timestamp::new(500, 0),
    )
    .unwrap();

    assert_eq!(game.id(), Some(Uuid::from_u128(11)));
    assert_eq!(game.create_time(), Some(Timestamp::new(100, 0)));
    assert_eq!(game.update_time(), Some(Timestamp::new(102, 0)));
    assert_eq!(game.start_time(), Some(Timestamp::new(500, 0)));
    assert_eq!(game.end_time(), None);
    assert_eq!(game.players_number().value(), 2);
    assert_eq!(game.points_limit().value(), 301);
    assert_eq!(game.rounds().len(), 3);
    match game.state() {
        State::InProgress(state) => {
            assert_eq!(state.player_number().value(), 2);
            assert_eq!(state.round_number().value(), 2);
            assert_eq!(state.points_to_win().value(), 241);
        }
        _ => panic!("the game is in progress"),
    }
    assert!(game_from_row(row(1, 101, vec![])).is_ok());
}

#[test]
fn game_from_the_store_is_refused() {
    assert_eq!(
        game_from_row(row(-1, 301, vec![])).err(),
        Some(out_of_range())
    );
    assert_eq!(
        game_from_row(row(2, -301, vec![])).err(),
        Some(out_of_range())
    );
    assert_eq!(
        game_from_row(row(2, 65536, vec![])).err(),
        Some(out_of_range())
    );
    assert_eq!(
        game_from_row(row(0, 301, vec![item(1, 1, "none", 1)])).err(),
        Some(Error::Unexpected("Invalid points kind".to_string()))
    );
    assert_eq!(
        game_from_row(row(0, 301, vec![])).err(),
        Some(Error::InvalidArgument(
            "Number must be greater than 0".to_string()
        ))
    );
    assert_eq!(
        game_from_row(row(2, 0, vec![])).err(),
        Some(Error::InvalidArgument(
            "Points limit cannot be zero".to_string()
        ))
    );
    assert_eq!(
        game_from_row(row(
            2,
            301,
            vec![item(1, 1, "regular", 1), item(1, 1, "regular", 2)]
        ))
        .err(),
        Some(Error::Unexpected(
            "Fatal error while round insert".to_string()
        ))
    );
    assert_eq!(
        game_from_row(row(
            1,
            100,
            vec![item(1, 1, "regular", 100), item(2, 1, "regular", 2)]
        ))
        .err(),
        Some(Error::FailedPrecondition(
            "Cannot count a score when game is over".to_string()
        ))
    );
}

#[test]
fn names_and_points_as_shown() {
    assert_eq!(name_of(Number::one()), "Player1");
    assert_eq!(name_of(Number::new(12).unwrap()), "Player12");
    assert_eq!(
        point(&PlayerScore::Regular(score(60))),
        Point {
            kind: PointKind::Score,
            value: 60
        }
    );
    assert_eq!(
        point(&PlayerScore::Overthrow(score(61))),
        Point {
            kind: PointKind::Overthrow,
            value: 61
        }
    );
    assert_eq!(
        (&PlayerScore::Regular(score(180))).to_rpc(),
        Point {
            kind: PointKind::Score,
            value: 180
        }
    );
}

#[test]
fn rounds_as_shown() {
    let game = played(2, 101, &[100, 50, 2, 52, 0]);

    assert_eq!(
        rounds(&game),
        vec![
            RoundPoints {
                number: 3,
                points: vec![Point {
                    kind: PointKind::Score,
                    value: 0
                }],
            },
            RoundPoints {
                number: 2,
                points: vec![
                    Point {
                        kind: PointKind::Overthrow,
                        value: 2
                    },
                    Point {
                        kind: PointKind::Overthrow,
                        value: 52
                    },
                ],
            },
            RoundPoints {
                number: 1,
                points: vec![
                    Point {
                        kind: PointKind::Score,
                        value: 100
                    },
                    Point {
                        kind: PointKind::Score,
                        value: 50
                    },
                ],
            },
        ]
    );
    assert_eq!(rounds(&played(3, 101, &[])), vec![]);
}

#[test]
fn player_details_as_shown() {
    let game = played(3, 301, &[100, 50, 0, 180, 30]);

    assert_eq!(
        player_details(&game),
        vec![
            PlayerDetails {
                name: "Player1".to_string(),
                points_to_win: 21
            },
            PlayerDetails {
                name: "Player2".to_string(),
                points_to_win: 221
            },
            PlayerDetails {
                name: "Player3".to_string(),
                points_to_win: 301
            },
        ]
    );
}

#[test]
fn game_details_as_shown() {
    let mut game = played(2, 101, &[100, 50]);
    game.assign_id(Uuid::from_u128(77)).unwrap();

    let details = game_details(&game);
    assert_eq!(details.game_id, Uuid::from_u128(77));
    assert_eq!(details.winner, "");
    assert_eq!(details.player, "Player1");
    assert_eq!(details.player_points_to_win, 1);
    assert_eq!(details.rounds.len(), 1);
    assert_eq!(details.player_details.len(), 2);

    game.count_score(score(1)).unwrap();
    let details = game_details(&game);
    assert_eq!(details.winner, "Player1");
    assert_eq!(details.player, "");
    assert_eq!(details.player_points_to_win, 0);
    assert_eq!(details.rounds.len(), 2);
    assert_eq!(details.player_details[0].points_to_win, 0);
    assert_eq!(details.player_details[1].points_to_win, 51);

    let mut fresh = played(4, 501, &[]);
    fresh.assign_id(Uuid::nil()).unwrap();
    let details = game_details(&fresh);
    assert_eq!(details.winner, "");
    assert_eq!(details.player, "Player1");
    assert_eq!(details.player_points_to_win, 501);
}
