//! Robots that steer snakes: what they see, how they answer, and how their
//! failures are handled.

use vstd::prelude::*;
use crate::lang_error::{LangRobotError, RobotError};
use crate::math::{Direction, Point, Size};
use crate::snake::Snake;

verus! {

/// The standard grid is 18 cells wide.
pub const STANDARD_WIDTH: i32 = 18;

/// The standard grid is 11 cells high.
pub const STANDARD_HEIGHT: i32 = 11;

/// The standard game keeps one apple on the grid.
pub const STANDARD_APPLE_COUNT: usize = 1;

/// The narrowest grid a game can be played on.
pub const MINIMUM_WIDTH: i32 = 7;

/// The lowest grid a game can be played on.
pub const MINIMUM_HEIGHT: i32 = 3;

/// The two snakes a game on a `width` by `height` grid starts with: two
/// cells long, in the middle row, one at the left edge facing right and one
/// at the right edge facing left; `Err` when the grid is smaller than the
/// smallest playable one.
pub fn standard_start_snakes(width: i32, height: i32) -> (r: Result<(Snake, Snake), ()>)
    ensures
        r is Err <==> (width < MINIMUM_WIDTH || height < MINIMUM_HEIGHT),
        r matches Ok((a, b)) ==> {
            &&& a@ == seq![(Point { x: 2, y: (height / 2) as i32 }), (Point { x: 1, y: (height / 2) as i32 })]
            &&& a.direction == Direction::Right
            &&& b@ == seq![
                (Point { x: (width - 3) as i32, y: (height / 2) as i32 }),
                (Point { x: (width - 2) as i32, y: (height / 2) as i32 }),
            ]
            &&& b.direction == Direction::Left
        },
{
    if width < MINIMUM_WIDTH || height < MINIMUM_HEIGHT {
        return Err(());
    }
    let mut first = Snake::new(Point::new(1, height / 2), Direction::Right);
    first.expand_head(first.direction);
    let mut second = Snake::new(Point::new(width - 2, height / 2), Direction::Left);
    second.expand_head(second.direction);
    Ok((first, second))
}

/// The stack size given to a robot written in the robot language.
pub const DEFAULT_STACK_SIZE: usize = 1000;

/// The heap size given to a robot written in the robot language.
pub const DEFAULT_HEAP_SIZE: usize = 10000000;

/// How much work a robot's `step` may do.
pub const DEFAULT_MAX_INSTRUCTION_COST: usize = 10000000;

/// The library that every robot's code is compiled with.
pub const LIB_CODE: &'static str = "

struct Point(
    x: int,
    y: int,
);

struct Snake(
    points: Vec<Point>,
    direction: Direction,
) {
    pub fn head() -> Point {
        return this.points.get(0);
    }

    pub fn tail() -> Point {
        return this.points.get(this.points.size() - 1);
    }

    pub fn size() -> int {
        return this.points.size();
    }
}

struct Game(
    width: int,
    height: int,
    snake: Snake,
    opponents: Vec<Snake>,
    apples: Vec<Point>,
);
";

/// What a robot sees before its move: the grid, its own snake, the other
/// snakes and the apples.
pub struct RobotContext {
    pub size: Size,
    pub snake: Snake,
    pub opponents: Vec<Snake>,
    pub apples: Vec<Point>,
}

/// A robot chooses the direction of its snake's next move.
pub trait Robot {
    fn step(&mut self, ctx: RobotContext) -> Result<Direction, RobotError>;
}

/// Whether a game goes on after a robot failed, and with what error it stops.
pub trait RobotErrorHandler {
    type Error;

    fn handle(err: RobotError) -> Result<(), Self::Error>;
}

/// Ignores robot failures.
pub struct InfallibleRobotErrorHandler;

impl RobotErrorHandler for InfallibleRobotErrorHandler {
    type Error = std::convert::Infallible;

    fn handle(_err: RobotError) -> (r: Result<(), std::convert::Infallible>)
        ensures
            r is Ok,
    {
        Ok(())
    }
}

/// Stops the game with the robot's failure.
pub struct PropagatingRobotErrorHandler;

impl RobotErrorHandler for PropagatingRobotErrorHandler {
    type Error = RobotError;

    fn handle(err: RobotError) -> (r: Result<(), RobotError>)
        ensures
            r == Err::<(), RobotError>(err),
    {
        Err(err)
    }
}

/// A robot that repeats recorded moves.
pub struct ReplayRobot {
    index: usize,
    moves: Vec<Direction>,
}

impl View for ReplayRobot {
    type V = (nat, Seq<Direction>);

    /// The number of moves played so far, and the recorded moves.
    closed spec fn view(&self) -> (nat, Seq<Direction>) {
        (self.index as nat, self.moves@)
    }
}

impl ReplayRobot {
    pub fn new(moves: Vec<Direction>) -> (r: Self)
        ensures
            r@ == (0nat, moves@),
    {
        Self { index: 0, moves }
    }
}

impl Robot for ReplayRobot {
    /// The next recorded move; once all are played, an error that the replay
    /// is finished.
    fn step(&mut self, _ctx: RobotContext) -> (r: Result<Direction, RobotError>)
        ensures
            old(self)@.0 < old(self)@.1.len() ==> r == Ok::<Direction, RobotError>(old(self)@.1[old(self)@.0 as int])
                && final(self)@ == (old(self)@.0 + 1, old(self)@.1),
            old(self)@.0 >= old(self)@.1.len() ==> final(self)@ == old(self)@ && match r {
                Err(RobotError::Other(m)) => m@ == "replay finished"@,
                _ => false,
            },
    {
        if self.index < self.moves.len() {
            let d = self.moves[self.index];
            self.index = self.index + 1;
            Ok(d)
        } else {
            Err(RobotError::Other(String::from_str("replay finished")))
        }
    }
}

/// The direction that a number returned by a robot's `step` names: 0 up,
/// 1 down, 2 left, 3 right.
pub open spec fn spec_direction_from_number(n: i64) -> Option<Direction> {
    if n == 0 {
        Some(Direction::Up)
    } else if n == 1 {
        Some(Direction::Down)
    } else if n == 2 {
        Some(Direction::Left)
    } else if n == 3 {
        Some(Direction::Right)
    } else {
        None
    }
}

/// The number by which the robot language names a direction.
pub open spec fn spec_direction_number(d: Direction) -> i64 {
    match d {
        Direction::Up => 0,
        Direction::Down => 1,
        Direction::Left => 2,
        Direction::Right => 3,
    }
}

/// The move of a robot written in the robot language, from the number its
/// `step` returned; other numbers are an invalid direction.
pub fn direction_from_number(n: i64) -> (r: Result<Direction, LangRobotError>)
    ensures
        match r {
            Ok(d) => spec_direction_from_number(n) == Some(d),
            Err(e) => spec_direction_from_number(n) is None && e is InvalidDirection,
        },
{
    match n {
        0 => Ok(Direction::Up),
        1 => Ok(Direction::Down),
        2 => Ok(Direction::Left),
        3 => Ok(Direction::Right),
        _ => Err(LangRobotError::InvalidDirection),
    }
}

/// Every direction's number reads back as that direction.
pub proof fn lemma_direction_number_roundtrip(d: Direction)
    ensures
        spec_direction_from_number(spec_direction_number(d)) == Some(d),
{
}

} // verus!
