//! The data that the game server and its clients exchange, as plain values.

use vstd::prelude::*;
use crate::game::GameResult;
use crate::math::Direction;

verus! {

/// A request to register a new user.
#[derive(Debug, Clone)]
pub struct RegisterRequest {
    pub username: String,
    pub password: String,
}

/// A request to log in.
#[derive(Debug, Clone)]
pub struct LoginRequest {
    pub username: String,
    pub password: String,
}

/// A played game as the server sends it: its seed, each snake's moves and
/// how it ended.
#[derive(Debug, Clone)]
pub struct Game {
    pub seed: u64,
    pub snakes: Vec<GameSnake>,
    pub result: GameResult,
}

/// The moves of one snake.
#[derive(Debug, Clone)]
pub struct GameSnake {
    pub moves: Vec<Direction>,
}

/// A request to challenge the user named `username` with a robot.
#[derive(Debug, Clone)]
pub struct CreateMatchRequest {
    pub username: String,
    pub robot_id: String,
}

/// A request to withdraw or decline a challenge.
#[derive(Debug, Clone)]
pub struct DeleteMatchRequest {
    pub sender_id: String,
    pub receiver_id: String,
}

/// A request to accept a challenge with a robot.
#[derive(Debug, Clone)]
pub struct AcceptMatchRequest {
    pub sender_id: String,
    pub robot_id: String,
}

/// A request to create a robot.
#[derive(Debug, Clone)]
pub struct CreateRobot {
    pub name: String,
}

/// A request to rename a robot.
#[derive(Debug, Clone)]
pub struct RenameRobot {
    pub name: String,
}

/// A user's id and name.
#[derive(Debug, Clone)]
pub struct ShortUser {
    pub id: String,
    pub username: String,
}

/// A user's place on the leaderboard.
#[derive(Debug, Clone, Copy)]
pub struct UserRanking {
    pub rank: i64,
}

/// A request to choose (or clear) the robot that competes in ranked games.
#[derive(Debug, Clone)]
pub struct UpdateCompetingRobot {
    pub competing_robot_id: Option<String>,
}

/// Which of a user's matches to list.
#[derive(Debug, Clone, Copy)]
pub struct UserMatchesQuery {
    pub ranked: Option<bool>,
    pub offset: Option<i64>,
    pub limit: Option<i64>,
}

/// Which part of the leaderboard to list.
#[derive(Debug, Clone, Copy)]
pub struct LeaderboardQuery {
    pub offset: Option<i64>,
    pub limit: Option<i64>,
}

} // verus!
