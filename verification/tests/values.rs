use playground::error::{Error, ErrorKind};
use playground::number::Number;
use playground::player_number::PlayerNumber;
use playground::player_score::PlayerScore;
use playground::points::Points;
use playground::points_limit::PointsLimit;
use playground::positive_integer::PositiveInteger;
use playground::score::{Score, POINTS_LIMIT};

#[test]
fn test_range_from_one() {
    let mut range = PositiveInteger::one().range();

    assert_eq!(Some(1), range.next().map(|i| i.value()));
    assert_eq!(None, range.next().map(|i| i.value()));
}

#[test]
fn test_range() {
    let mut range = PositiveInteger::new(5).unwrap().range();

    assert_eq!(Some(1), range.next().map(|i| i.value()));
    assert_eq!(Some(2), range.next().map(|i| i.value()));
    assert_eq!(Some(3), range.next().map(|i| i.value()));
    assert_eq!(Some(4), range.next().map(|i| i.value()));
    assert_eq!(Some(5), range.next().map(|i| i.value()));
    assert_eq!(None, range.next().map(|i| i.value()));
}

#[test]
fn test_range_stays_exhausted() {
    let mut range = PositiveInteger::new(2).unwrap().range();

    assert_eq!(Some(1), range.next().map(|i| i.value()));
    assert_eq!(Some(2), range.next().map(|i| i.value()));
    assert_eq!(None, range.next().map(|i| i.value()));
    assert_eq!(None, range.next().map(|i| i.value()));
}

#[test]
fn test_new_score() {
    let score = Score::new(0);

    assert!(score.is_ok());
}

#[test]
fn test_new_score_with_limit() {
    let score = Score::new(POINTS_LIMIT);

    assert!(score.is_ok());
}

#[test]
fn test_new_score_over_limit() {
    let result = Score::new(POINTS_LIMIT + 1);

    assert!(result.is_err());

    match result {
        Err(Error::InvalidArgument(msg)) => {
            assert_eq!(
                msg,
                "The maximum number of points allowed is 180. Given: 181"
            )
        }
        _ => assert!(false),
    }
}

#[test]
fn test_new_score_far_over_limit() {
    assert_eq!(
        Score::new(65535),
        Err(Error::InvalidArgument(
            "The maximum number of points allowed is 180. Given: 65535".to_string()
        ))
    );
    assert_eq!(
        Score::new(302),
        Err(Error::InvalidArgument(
            "The maximum number of points allowed is 180. Given: 302".to_string()
        ))
    );
}

#[test]
fn test_score_keeps_its_points() {
    assert_eq!(Score::new(0).unwrap().points().value(), 0);
    assert_eq!(Score::new(57).unwrap().points().value(), 57);
    assert_eq!(Score::new(180).unwrap().points().value(), 180);
    assert_eq!(POINTS_LIMIT, 180);
}

#[test]
fn test_number_refuses_zero() {
    assert_eq!(
        Number::new(0),
        Err(Error::InvalidArgument(
            "Number must be greater than 0".to_string()
        ))
    );
    assert_eq!(Number::new(1).unwrap().value(), 1);
    assert_eq!(Number::new(7).unwrap().value(), 7);
    assert_eq!(Number::one().value(), 1);
    assert_eq!(Number::new(1).unwrap(), Number::one());
}

#[test]
fn test_number_increment() {
    let mut number = Number::one();
    number.increment();
    assert_eq!(number.value(), 2);
    number.increment();
    assert_eq!(number.value(), 3);

    let mut last = Number::new(usize::MAX).unwrap();
    last.increment();
    assert_eq!(last.value(), usize::MAX);
}

#[test]
fn test_number_order() {
    assert!(Number::new(2).unwrap() < Number::new(3).unwrap());
    assert!(Number::new(3).unwrap() > Number::one());
}

#[test]
fn test_positive_integer() {
    assert_eq!(
        PositiveInteger::new(0).err(),
        Some(Error::InvalidArgument(
            "Positive integer must be greater than 0".to_string()
        ))
    );
    assert_eq!(PositiveInteger::new(9).unwrap().value(), 9);
    assert_eq!(PositiveInteger::one().value(), 1);
}

#[test]
fn test_positive_integer_to_i32() {
    assert_eq!(PositiveInteger::new(12).unwrap().try_to_i32(), Ok(12));
    assert_eq!(
        PositiveInteger::new(i32::MAX as usize)
            .unwrap()
            .try_to_i32(),
        Ok(i32::MAX)
    );
    assert_eq!(
        PositiveInteger::new(i32::MAX as usize + 1)
            .unwrap()
            .try_to_i32(),
        Err(Error::FailedPrecondition(
            "Can't convert positive integer into i32".to_string()
        ))
    );
    assert_eq!(PositiveInteger::new(12).unwrap().try_into_i32(), Ok(12));
    assert_eq!(
        PositiveInteger::new(2147483648).unwrap().try_into_i32(),
        Err(Error::Unexpected(
            "Can't convert positive integer into i32. Given: 2147483648".to_string()
        ))
    );
}

#[test]
fn test_positive_integer_from_i32() {
    assert_eq!(PositiveInteger::try_from_i32(3).unwrap().value(), 3);
    assert_eq!(
        PositiveInteger::try_from_i32(0).err(),
        Some(Error::InvalidArgument(
            "Positive integer must be greater than 0".to_string()
        ))
    );
    assert_eq!(
        PositiveInteger::try_from_i32(-17).err(),
        Some(Error::Unexpected(
            "Can't convert i32 into usize. Given: -17".to_string()
        ))
    );
    assert_eq!(
        PositiveInteger::try_from_i32(i32::MIN).err(),
        Some(Error::Unexpected(
            "Can't convert i32 into usize. Given: -2147483648".to_string()
        ))
    );
}

#[test]
fn test_points() {
    assert_eq!(Points::new(301).value(), 301);
    assert!(Points::zero().is_zero());
    assert!(Points::default().is_zero());
    assert!(!Points::new(1).is_zero());
    assert_eq!(Points::new(40).add(Points::new(60)), Points::new(100));
    assert_eq!(Points::new(0).add(Points::new(0)), Points::zero());
    assert!(Points::new(3) < Points::new(4));
}

#[test]
fn test_points_sum() {
    assert_eq!(Points::sum(&vec![]), Points::zero());
    assert_eq!(
        Points::sum(&vec![Points::new(40), Points::new(60), Points::new(1)]),
        Points::new(101)
    );
    assert_eq!(
        Points::sum(&vec![Points::new(65000), Points::new(535)]),
        Points::new(65535)
    );
}

#[test]
fn test_points_limit() {
    assert_eq!(
        PointsLimit::new(Points::zero()).err(),
        Some(Error::InvalidArgument(
            "Points limit cannot be zero".to_string()
        ))
    );
    assert_eq!(
        PointsLimit::new(Points::new(301)).unwrap().points(),
        Points::new(301)
    );
}

#[test]
fn test_player_score() {
    let score = Score::new(60).unwrap();
    let regular = PlayerScore::regular(score);
    let overthrow = PlayerScore::overthrow(score);

    assert_eq!(regular, PlayerScore::Regular(score));
    assert_eq!(overthrow, PlayerScore::Overthrow(score));
    assert!(regular.is_regular());
    assert!(!regular.is_overthrow());
    assert!(overthrow.is_overthrow());
    assert!(!overthrow.is_regular());
    assert_eq!(regular.game_points(), Points::new(60));
    assert_eq!(overthrow.game_points(), Points::zero());
    assert_eq!(*regular.score(), score);
    assert_eq!(*overthrow.score(), score);
}

#[test]
fn test_classify() {
    let score = Score::new(60).unwrap();
    let limit = Points::new(301);

    assert_eq!(
        PlayerScore::classify(score, Points::new(241), limit),
        PlayerScore::Regular(score)
    );
    assert_eq!(
        PlayerScore::classify(score, Points::new(242), limit),
        PlayerScore::Overthrow(score)
    );
    assert_eq!(
        PlayerScore::classify(score, Points::zero(), limit),
        PlayerScore::Regular(score)
    );
    assert_eq!(
        PlayerScore::classify(score, Points::new(65500), Points::new(65535)),
        PlayerScore::Overthrow(score)
    );
    assert_eq!(
        PlayerScore::classify(Score::new(0).unwrap(), limit, limit),
        PlayerScore::Regular(Score::new(0).unwrap())
    );
}

#[test]
fn test_error_text() {
    assert_eq!(
        Error::invalid_argument("x").to_string(),
        "Invalid argument: x"
    );
    assert_eq!(
        Error::failed_precondition("y").to_string(),
        "Failed precondition: y"
    );
    assert_eq!(Error::unexpected("z").to_string(), "Unexpected: z");
    assert_eq!(
        Error::AlreadyExists("a".to_string()).to_string(),
        "Already exists: a"
    );
    assert_eq!(
        Error::NotFound("Game 1".to_string()).to_string(),
        "Not found: Game 1"
    );
    assert_eq!(
        Error::invalid_argument("x").kind(),
        ErrorKind::InvalidArgument
    );
    assert_eq!(
        Error::failed_precondition("x").kind(),
        ErrorKind::FailedPrecondition
    );
    assert_eq!(Error::unexpected("x").kind(), ErrorKind::Unexpected);
    assert_eq!(
        Error::AlreadyExists(String::new()).kind(),
        ErrorKind::AlreadyExists
    );
    assert_eq!(Error::NotFound(String::new()).kind(), ErrorKind::NotFound);
}

#[test]
fn test_player_number() {
    assert_eq!(
        PlayerNumber::all(),
        vec![PlayerNumber::One, PlayerNumber::Two]
    );
    assert_eq!(PlayerNumber::One.name(), "Player1");
    assert_eq!(PlayerNumber::Two.name(), "Player2");
    assert_eq!(PlayerNumber::One.next_player_number(), PlayerNumber::Two);
    assert_eq!(PlayerNumber::Two.next_player_number(), PlayerNumber::One);

    let mut player = PlayerNumber::One;
    player.next();
    assert_eq!(player, PlayerNumber::Two);
    player.next();
    assert_eq!(player, PlayerNumber::One);
    player.previous();
    assert_eq!(player, PlayerNumber::Two);
    player.previous();
    assert_eq!(player, PlayerNumber::One);
}

#[test]
fn test_player_number_and_i32() {
    assert_eq!(PlayerNumber::try_from_i32(1), Ok(PlayerNumber::One));
    assert_eq!(PlayerNumber::try_from_i32(2), Ok(PlayerNumber::Two));
    assert_eq!(
        PlayerNumber::try_from_i32(3),
        Err(Error::Unexpected("Invalid player number: 3".to_string()))
    );
    assert_eq!(
        PlayerNumber::try_from_i32(0),
        Err(Error::Unexpected("Invalid player number: 0".to_string()))
    );
    assert_eq!(
        PlayerNumber::try_from_i32(-1),
        Err(Error::Unexpected("Invalid player number: -1".to_string()))
    );
    assert_eq!(i32::from(PlayerNumber::One), 1);
    assert_eq!(i32::from(PlayerNumber::Two), 2);
}

#[test]
fn test_decimal_notation() {
    assert_eq!(Number::one().to_string(), "1");
    assert_eq!(Number::new(1024).unwrap().to_string(), "1024");
    assert_eq!(
        Number::new(usize::MAX).unwrap().to_string(),
        usize::MAX.to_string()
    );
    assert_eq!(Points::zero().to_string(), "0");
    assert_eq!(Points::new(301).to_string(), "301");
    assert_eq!(Points::new(65535).to_string(), "65535");
    assert_eq!(PositiveInteger::new(90).unwrap().to_string(), "90");
    assert_eq!(playground::tally::GameScore::new(301).to_string(), "301");
    assert_eq!(playground::decimal::decimal(0), "0");
    assert_eq!(playground::decimal::decimal(10), "10");
    assert_eq!(
        playground::decimal::decimal(u64::MAX),
        "18446744073709551615"
    );
    assert_eq!(playground::decimal::signed_decimal(0), "0");
    assert_eq!(playground::decimal::signed_decimal(-1), "-1");
    assert_eq!(
        playground::decimal::signed_decimal(i64::MIN),
        "-9223372036854775808"
    );
    assert_eq!(
        playground::decimal::signed_decimal(i64::MAX),
        "9223372036854775807"
    );
}
