//! Connected players, their queued moves and their colors.
use std::collections::VecDeque;
use vstd::prelude::*;

verus! {

/// One step of a player's cursor.
#[derive(Debug, Clone, Copy, PartialEq, Eq, Structural)]
pub enum PlayerMove {
    Left,
    Right,
    Up,
    Down,
}

/// A player's pending moves and current coordinate.
#[derive(Debug)]
pub struct PlayerMoves {
    pub queued_moves: VecDeque<PlayerMove>,
    pub xy: (usize, usize),
}

/// The color a player is drawn with; grey marks players who are no longer active.
#[derive(Debug, Clone, Copy, PartialEq, Eq, Structural)]
pub enum Color {
    Grey,
    Red,
    Blue,
    Pink,
    Green,
    Yellow,
}

/// The colors handed out at the start of a game, in order.
pub open spec fn palette() -> Seq<Color> {
    seq![Color::Red, Color::Blue, Color::Pink, Color::Green, Color::Yellow]
}

/// The first color of the palette that `taken` does not hold.
pub open spec fn first_free_color(taken: Seq<Color>) -> Option<Color> {
    if !taken.contains(Color::Red) {
        Some(Color::Red)
    } else if !taken.contains(Color::Blue) {
        Some(Color::Blue)
    } else if !taken.contains(Color::Pink) {
        Some(Color::Pink)
    } else if !taken.contains(Color::Green) {
        Some(Color::Green)
    } else if !taken.contains(Color::Yellow) {
        Some(Color::Yellow)
    } else {
        None
    }
}

fn holds_color(colors: &[Color], c: Color) -> (r: bool)
    ensures
        r == colors@.contains(c),
{
    let mut i: usize = 0;
    while i < colors.len()
        invariant
            i <= colors@.len(),
            forall|k: int| 0 <= k < i ==> colors@[k] != c,
        decreases colors@.len() - i,
    {
        if colors[i] == c {
            assert(colors@[i as int] == c);
            return true;
        }
        i = i + 1;
    }
    false
}

impl Color {
    /// The first color of the palette (red, blue, pink, green, yellow) that is not in
    /// `unavailable_colors`, or `None` when all five are taken.
    pub fn pick_available_color(unavailable_colors: &[Color]) -> (r: Option<Color>)
        ensures
            r == first_free_color(unavailable_colors@),
    {
        if !holds_color(unavailable_colors, Color::Red) {
            Some(Color::Red)
        } else if !holds_color(unavailable_colors, Color::Blue) {
            Some(Color::Blue)
        } else if !holds_color(unavailable_colors, Color::Pink) {
            Some(Color::Pink)
        } else if !holds_color(unavailable_colors, Color::Green) {
            Some(Color::Green)
        } else if !holds_color(unavailable_colors, Color::Yellow) {
            Some(Color::Yellow)
        } else {
            None
        }
    }
}

/// A connected player.
#[derive(Debug)]
pub struct Player {
    pub uuid: String,
    pub name: String,
    pub playing_in_lobby: Option<usize>,
    pub queued_moves: VecDeque<PlayerMove>,
    pub xy: (usize, usize),
    pub color: Color,
}

impl Player {
    /// A player who has just connected: in no lobby, with no moves, at the origin, red.
    pub fn connected(uuid: String, name: String) -> (p: Player)
        ensures
            p.uuid == uuid,
            p.name == name,
            p.playing_in_lobby is None,
            p.queued_moves@.len() == 0,
            p.xy == (0usize, 0usize),
            p.color == Color::Red,
    {
        Player {
            uuid,
            name,
            playing_in_lobby: None,
            queued_moves: VecDeque::new(),
            xy: (0, 0),
            color: Color::Red,
        }
    }

    /// The player's queue and coordinate, as reported to the player.
    pub fn moves(&self) -> (m: PlayerMoves)
        ensures
            m.queued_moves@ == self.queued_moves@,
            m.xy == self.xy,
    {
        PlayerMoves { queued_moves: self.queued_moves.clone(), xy: self.xy }
    }
}

/// `j` is the first position of player `uuid` in the registry.
pub open spec fn first_player(players: Seq<Player>, uuid: Seq<char>, j: int) -> bool {
    &&& 0 <= j < players.len()
    &&& players[j].uuid@ == uuid
    &&& forall|k: int| 0 <= k < j ==> #[trigger] players[k].uuid@ != uuid
}

pub open spec fn is_connected(players: Seq<Player>, uuid: Seq<char>) -> bool {
    exists|j: int| 0 <= j < players.len() && #[trigger] players[j].uuid@ == uuid
}

/// No uuid occurs twice in the registry.
pub open spec fn players_unique(players: Seq<Player>) -> bool {
    forall|i: int, j: int|
        0 <= i < players.len() && 0 <= j < players.len() && i != j ==> #[trigger] players[i].uuid@ != #[trigger] players[j].uuid@
}

/// Finds the registry position of player `uuid`.
pub fn find_player(players: &Vec<Player>, uuid: &String) -> (r: Option<usize>)
    ensures
        match r {
            Some(j) => first_player(players@, uuid@, j as int),
            None => !is_connected(players@, uuid@),
        },
{
    let mut j: usize = 0;
    while j < players.len()
        invariant
            j <= players@.len(),
            forall|k: int| 0 <= k < j ==> #[trigger] players@[k].uuid@ != uuid@,
        decreases players@.len() - j,
    {
        if players[j].uuid == *uuid {
            return Some(j);
        }
        j = j + 1;
    }
    None
}

} // verus!
