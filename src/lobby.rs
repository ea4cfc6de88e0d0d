//! Lobbies: their members, chat and board.
use vstd::prelude::*;

use crate::board::{board_wf, generate_board, height, is_fresh_board, is_new_board, width, Board};
use crate::constants::{
    DELAY_FOR_GAMESTART_SEC, MAX_GAME_HEIGHT, MAX_GAME_WIDTH, MIN_GAME_HEIGHT, MIN_GAME_WIDTH,
    YEAR_2128_TIMESTAMP,
};

verus! {

/// Where a lobby stands in its cycle.
#[derive(Debug, Clone, Copy, PartialEq, Eq, Structural)]
pub enum LobbyStatus {
    AwaitingPlayers,
    InGame,
    StartingSoon,
}

/// A chat line and who wrote it.
#[derive(Debug)]
pub struct ChatMessage {
    pub poster: String,
    pub message: String,
}

impl ChatMessage {
    pub fn duplicate(&self) -> (c: ChatMessage)
        ensures
            c.poster@ == self.poster@,
            c.message@ == self.message@,
    {
        ChatMessage { poster: self.poster.clone(), message: self.message.clone() }
    }
}

/// A lobby: who is in it, its chat, its board and where it stands.
#[derive(Debug)]
pub struct Lobby {
    pub lobby_id: usize,
    pub status: LobbyStatus,
    /// Unix time in seconds at which the countdown ends.
    pub next_starting_time: i64,
    pub player_capacity: usize,
    /// Members, as (uuid, display name).
    pub players: Vec<(String, String)>,
    pub messages: Vec<ChatMessage>,
    pub board_game: Board,
    pub tick: usize,
}

/// No uuid occurs twice among the members.
pub open spec fn members_unique(members: Seq<(String, String)>) -> bool {
    forall|i: int, j: int|
        0 <= i < members.len() && 0 <= j < members.len() && i != j ==> #[trigger] members[i].0@ != #[trigger] members[j].0@
}

pub open spec fn is_member(members: Seq<(String, String)>, uuid: Seq<char>) -> bool {
    exists|i: int| 0 <= i < members.len() && #[trigger] members[i].0@ == uuid
}

/// `i` is the first position of `uuid` among the members.
pub open spec fn first_member(members: Seq<(String, String)>, uuid: Seq<char>, i: int) -> bool {
    &&& 0 <= i < members.len()
    &&& members[i].0@ == uuid
    &&& forall|j: int| 0 <= j < i ==> #[trigger] members[j].0@ != uuid
}

/// The display name of member `uuid`, if it is a member.
pub open spec fn member_name(members: Seq<(String, String)>, uuid: Seq<char>) -> Option<Seq<char>> {
    if exists|i: int| first_member(members, uuid, i) {
        Some(members[choose|i: int| first_member(members, uuid, i)].1@)
    } else {
        None
    }
}

/// Finds the position of member `uuid`.
pub fn find_member(members: &Vec<(String, String)>, uuid: &String) -> (r: Option<usize>)
    ensures
        match r {
            Some(i) => first_member(members@, uuid@, i as int),
            None => !is_member(members@, uuid@),
        },
        r is Some == is_member(members@, uuid@),
        match r {
            Some(i) => member_name(members@, uuid@) == Some(members@[i as int].1@),
            None => member_name(members@, uuid@) is None,
        },
{
    let mut i: usize = 0;
    while i < members.len()
        invariant
            i <= members@.len(),
            forall|j: int| 0 <= j < i ==> #[trigger] members@[j].0@ != uuid@,
        decreases members@.len() - i,
    {
        if members[i].0 == *uuid {
            proof {
                assert(first_member(members@, uuid@, i as int));
                let k = choose|k: int| first_member(members@, uuid@, k);
                if k < i {
                    assert(members@[k].0@ != uuid@);
                } else if k > i {
                    assert(members@[i as int].0@ != uuid@);
                }
            }
            return Some(i);
        }
        i = i + 1;
    }
    proof {
        if exists|k: int| first_member(members@, uuid@, k) {
            let k = choose|k: int| first_member(members@, uuid@, k);
            assert(members@[k].0@ != uuid@);
        }
    }
    None
}

/// When a countdown started at `now` ends (never past the largest timestamp).
pub open spec fn countdown_end(now: i64) -> i64 {
    if now <= i64::MAX - DELAY_FOR_GAMESTART_SEC { (now + DELAY_FOR_GAMESTART_SEC) as i64 } else { i64::MAX }
}

/// The end of a countdown that starts at `now`.
pub fn countdown_deadline(now: i64) -> (t: i64)
    ensures
        t == countdown_end(now),
{
    if now <= i64::MAX - DELAY_FOR_GAMESTART_SEC { now + DELAY_FOR_GAMESTART_SEC } else { i64::MAX }
}

/// A lobby keeps a proper board, at most `player_capacity` members, each once.
pub open spec fn lobby_wf(l: Lobby) -> bool {
    &&& board_wf(l.board_game)
    &&& l.players@.len() <= l.player_capacity
    &&& members_unique(l.players@)
}

impl Lobby {
    /// An empty lobby awaiting players, with a fresh board.
    pub fn new(lobby_id: usize, player_capacity: usize) -> (l: Lobby)
        ensures
            lobby_wf(l),
            l.lobby_id == lobby_id,
            l.player_capacity == player_capacity,
            l.status == LobbyStatus::AwaitingPlayers,
            l.next_starting_time == YEAR_2128_TIMESTAMP,
            l.players@.len() == 0,
            l.messages@.len() == 0,
            l.tick == 0,
            is_fresh_board(l.board_game),
            is_new_board(l.board_game),
    {
        let mut lobby = Lobby {
            lobby_id,
            status: LobbyStatus::AwaitingPlayers,
            next_starting_time: YEAR_2128_TIMESTAMP,
            player_capacity,
            players: Vec::new(),
            messages: Vec::new(),
            board_game: Vec::new(),
            tick: 0,
        };
        lobby.generate_new_board();
        lobby
    }

    /// Replaces the board with a freshly drawn one.
    pub fn generate_new_board(&mut self)
        ensures
            board_wf(final(self).board_game),
            MIN_GAME_WIDTH <= width(final(self).board_game) < MAX_GAME_WIDTH,
            MIN_GAME_HEIGHT <= height(final(self).board_game) < MAX_GAME_HEIGHT,
            is_fresh_board(final(self).board_game),
            is_new_board(final(self).board_game),
            final(self).lobby_id == old(self).lobby_id,
            final(self).status == old(self).status,
            final(self).next_starting_time == old(self).next_starting_time,
            final(self).player_capacity == old(self).player_capacity,
            final(self).players == old(self).players,
            final(self).messages == old(self).messages,
            final(self).tick == old(self).tick,
    {
        self.board_game = generate_board();
    }
}

} // verus!
