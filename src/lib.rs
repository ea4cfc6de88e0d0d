//! The authoritative server of a real-time, grid-based territorial conquest game: lobbies,
//! the board and its combat rules, the tick that advances a game, the commands of
//! clients and the messages sent back to them.
use vstd::prelude::*;

pub mod board;
pub mod combat;
pub mod commands;
pub mod config;
pub mod constants;
pub mod errors;
pub mod lobby;
pub mod messages;
pub mod player;
pub mod requests;
pub mod responses;
pub mod state;
pub mod text;
pub mod tick;

verus! {

} // verus!
