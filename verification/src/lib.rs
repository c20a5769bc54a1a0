//! Game logic of the snake robots arena: grid geometry, robots and replays,
//! timelines of recorded games, match making, the worker's decisions and
//! the text utilities of the code editor and the HTTP interface, each with
//! a machine-checked contract.

pub mod client;
pub mod dto;
pub mod game;
pub mod lang_error;
pub mod matchmaking;
pub mod math;
pub mod points;
pub mod position;
pub mod robot;
pub mod route_error;
pub mod rowplus;
pub mod snake;
pub mod text;
pub mod timeline;
pub mod validation;
pub mod worker;
