//! The tunable constants of the game.
use vstd::prelude::*;

verus! {

pub const NB_LOBBIES: usize = 4;
pub const DELAY_FOR_GAMESTART_SEC: i64 = 3;
pub const MINIMUM_PLAYERNAME_LENGTH: usize = 3;
pub const MAXIMUM_PLAYERNAME_LENGTH: usize = 18;
pub const MAX_QUEUED_MOVES: usize = 12;
/// Deadline of a lobby that is not counting down (a date in 2128).
pub const YEAR_2128_TIMESTAMP: i64 = 5000000000;

pub const TICK_GAME_INTERVAL_MS: u64 = 500;
pub const TICK_KINGDOM: usize = 1;
pub const TICK_CASTLE: usize = 3;
pub const TICK_BLANK: usize = 10;

pub const NB_MOUTAINS: usize = 35;
pub const NB_CASTLES: usize = 15;
/// Troops that guard a neutral castle on a fresh board.
pub const CASTLE_GARRISON: usize = 15;

pub const MIN_GAME_WIDTH: usize = 18;
pub const MAX_GAME_WIDTH: usize = 23;
pub const MIN_GAME_HEIGHT: usize = 18;
pub const MAX_GAME_HEIGHT: usize = 23;

pub const DISPLAY_N_LAST_MESSAGES: usize = 3;

} // verus!
