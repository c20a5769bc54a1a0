use snakerobots::game::{record_moves, GameReplay, GameResult, SnakeReplay};
use snakerobots::lang_error::{LangRobotError, RobotError};
use snakerobots::math::{Direction, Point, Size};
use snakerobots::robot::{
    direction_from_number, InfallibleRobotErrorHandler, PropagatingRobotErrorHandler, ReplayRobot, Robot,
    RobotContext, RobotErrorHandler, standard_start_snakes, LIB_CODE, MINIMUM_HEIGHT, MINIMUM_WIDTH, STANDARD_HEIGHT, STANDARD_WIDTH,
};
use snakerobots::snake::Snake;

fn ctx() -> RobotContext {
    RobotContext {
        size: Size::new(STANDARD_WIDTH, STANDARD_HEIGHT),
        snake: Snake::new(Point::new(1, 5), Direction::Right),
        opponents: vec![],
        apples: vec![],
    }
}

#[test]
fn replay_robot_repeats_moves_then_fails() {
    let mut r = ReplayRobot::new(vec![Direction::Up, Direction::Left]);
    assert_eq!(r.step(ctx()).unwrap(), Direction::Up);
    assert_eq!(r.step(ctx()).unwrap(), Direction::Left);
    match r.step(ctx()) {
        Err(RobotError::Other(m)) => assert_eq!(m, "replay finished"),
        _ => panic!("expected the replay to be finished"),
    }
}

#[test]
fn error_handlers() {
    assert!(InfallibleRobotErrorHandler::handle(RobotError::Other(String::from("x"))).is_ok());
    match PropagatingRobotErrorHandler::handle(RobotError::Other(String::from("x"))) {
        Err(RobotError::Other(m)) => assert_eq!(m, "x"),
        _ => panic!("expected the error back"),
    }
}

#[test]
fn direction_numbers() {
    assert_eq!(direction_from_number(0).unwrap(), Direction::Up);
    assert_eq!(direction_from_number(1).unwrap(), Direction::Down);
    assert_eq!(direction_from_number(2).unwrap(), Direction::Left);
    assert_eq!(direction_from_number(3).unwrap(), Direction::Right);
    assert!(matches!(direction_from_number(4), Err(LangRobotError::InvalidDirection)));
    assert!(matches!(direction_from_number(-1), Err(LangRobotError::InvalidDirection)));
}

#[test]
fn constants() {
    assert_eq!((STANDARD_WIDTH, STANDARD_HEIGHT), (18, 11));
    assert_eq!((MINIMUM_WIDTH, MINIMUM_HEIGHT), (7, 3));
    assert!(LIB_CODE.contains("struct Game("));
}

#[test]
fn game_winner() {
    assert_eq!(GameResult::Win { winner: 1 }.winner(), Some(1));
    assert_eq!(GameResult::Tie.winner(), None);
    assert_eq!(GameResult::Abort.winner(), None);
    let replay = GameReplay {
        seed: 42,
        result: GameResult::Win { winner: 1 },
        snakes: vec![
            SnakeReplay { moves: vec![Direction::Up], metadata: "a" },
            SnakeReplay { moves: vec![Direction::Down], metadata: "b" },
        ],
    };
    assert_eq!(replay.winner().unwrap().metadata, "b");
    let out_of_range = GameReplay { seed: 1, result: GameResult::Win { winner: 2 }, snakes: replay.snakes.clone() };
    assert!(out_of_range.winner().is_none());
    let tie = GameReplay { seed: 1, result: GameResult::Tie, snakes: replay.snakes.clone() };
    assert!(tie.winner().is_none());
}

#[test]
fn recorded_moves_go_to_their_snakes() {
    let mut snakes = vec![
        SnakeReplay { moves: vec![Direction::Up], metadata: "a" },
        SnakeReplay { moves: vec![], metadata: "b" },
    ];
    record_moves(&mut snakes, &vec![(1, Direction::Left), (0, Direction::Right), (5, Direction::Down), (1, Direction::Up)]);
    assert_eq!(snakes[0].moves, vec![Direction::Up, Direction::Right]);
    assert_eq!(snakes[1].moves, vec![Direction::Left, Direction::Up]);
    assert_eq!(snakes[0].metadata, "a");
    assert_eq!(snakes.len(), 2);
}

#[test]
fn standard_start_positions() {
    let (a, b) = standard_start_snakes(STANDARD_WIDTH, STANDARD_HEIGHT).unwrap();
    assert_eq!(a.points, vec![Point::new(2, 5), Point::new(1, 5)]);
    assert_eq!(a.direction, Direction::Right);
    assert_eq!(b.points, vec![Point::new(15, 5), Point::new(16, 5)]);
    assert_eq!(b.direction, Direction::Left);
    assert!(standard_start_snakes(MINIMUM_WIDTH, MINIMUM_HEIGHT).is_ok());
    assert!(standard_start_snakes(MINIMUM_WIDTH - 1, MINIMUM_HEIGHT).is_err());
    assert!(standard_start_snakes(MINIMUM_WIDTH, MINIMUM_HEIGHT - 1).is_err());
}

#[test]
fn expanding_the_head() {
    let mut s = Snake::new(Point::new(3, 3), Direction::Up);
    s.expand_head(Direction::Up);
    assert_eq!(s.points, vec![Point::new(3, 2), Point::new(3, 3)]);
}
