//! The shared game state (registry of connected players, lobby table, global chat) and
//! the operations that the connection handlers and the game loop perform on it.
use vstd::prelude::*;

use crate::board::{
    board_wf, pick_available_starting_coordinates, same_shape, set_tile, tile_at, Tile,
    TileStatus, TileType, TileView,
};
use crate::constants::{DISPLAY_N_LAST_MESSAGES, MAX_QUEUED_MOVES, NB_LOBBIES};
use crate::lobby::{find_member, is_member, lobby_wf, ChatMessage, Lobby, LobbyStatus};
use crate::messages::{LobbiesGeneralUpdate, LobbyGeneralUpdate, WsMessageToClient};
use crate::player::{
    find_player, first_player, is_connected, players_unique, Color, Player, PlayerMove,
    PlayerMoves,
};
use crate::tick::{tick_game, TickReport};

verus! {

/// Everything the server shares between connections and the game loop.
#[derive(Debug)]
pub struct AppState {
    pub global_chat_messages: Vec<ChatMessage>,
    pub players: Vec<Player>,
    pub lobbies: Vec<Lobby>,
}

/// The registry position of player `u` (meaningful when it is connected).
pub open spec fn player_index(players: Seq<Player>, u: Seq<char>) -> int {
    choose|j: int| first_player(players, u, j)
}

/// A player who says it plays in lobby `k` is one of that lobby's members.
pub open spec fn lobby_ids_agree(s: AppState) -> bool {
    forall|j: int|
        0 <= j < s.players@.len() ==> match (#[trigger] s.players@[j]).playing_in_lobby {
            Some(k) => k < s.lobbies@.len() && is_member(s.lobbies@[k as int].players@, s.players@[j].uuid@),
            None => true,
        }
}

/// Some connected player `u` says it plays in lobby `k`.
pub open spec fn plays_in_lobby(players: Seq<Player>, u: Seq<char>, k: usize) -> bool {
    exists|j: int| 0 <= j < players.len() && #[trigger] players[j].uuid@ == u && players[j].playing_in_lobby == Some(k)
}

/// Every member of a lobby that awaits players is connected and says it plays there.
pub open spec fn awaiting_members_present(s: AppState) -> bool {
    forall|k: int, i: int|
        0 <= k < s.lobbies@.len() && s.lobbies@[k].status == LobbyStatus::AwaitingPlayers && 0 <= i < s.lobbies@[k].players@.len()
            ==> plays_in_lobby(s.players@, (#[trigger] s.lobbies@[k].players@[i]).0@, k as usize)
}

proof fn lemma_presence_kept_update(ps0: Seq<Player>, ps1: Seq<Player>, j: int, v: Seq<char>, k: usize)
    requires
        ps1.len() == ps0.len(),
        0 <= j < ps0.len(),
        forall|q: int| 0 <= q < ps0.len() && q != j ==> #[trigger] ps1[q] == ps0[q],
        plays_in_lobby(ps0, v, k),
        ps0[j].uuid@ != v,
    ensures
        plays_in_lobby(ps1, v, k),
{
    let w = choose|w: int| 0 <= w < ps0.len() && #[trigger] ps0[w].uuid@ == v && ps0[w].playing_in_lobby == Some(k);
    assert(ps1[w] == ps0[w]);
}

proof fn lemma_presence_kept_remove(ps0: Seq<Player>, j: int, v: Seq<char>, k: usize)
    requires
        0 <= j < ps0.len(),
        plays_in_lobby(ps0, v, k),
        ps0[j].uuid@ != v,
    ensures
        plays_in_lobby(ps0.remove(j), v, k),
{
    let w = choose|w: int| 0 <= w < ps0.len() && #[trigger] ps0[w].uuid@ == v && ps0[w].playing_in_lobby == Some(k);
    let w1 = if w < j { w } else { w - 1 };
    assert(ps0.remove(j)[w1] == ps0[w]);
}

/// A state whose lobbies are unchanged and whose players keep their uuids and lobbies
/// keeps the invariants that relate the two.
proof fn lemma_roster_kept(s0: AppState, s1: AppState)
    requires
        state_wf(s0),
        s1.lobbies@.len() == s0.lobbies@.len(),
        forall|k: int| 0 <= k < s0.lobbies@.len() ==> (#[trigger] s1.lobbies@[k]).players == s0.lobbies@[k].players
            && (s1.lobbies@[k].status == LobbyStatus::AwaitingPlayers ==> s0.lobbies@[k].status == LobbyStatus::AwaitingPlayers),
        s1.players@.len() == s0.players@.len(),
        forall|j: int| 0 <= j < s0.players@.len() ==> #[trigger] s1.players@[j].uuid@ == s0.players@[j].uuid@
            && s1.players@[j].playing_in_lobby == s0.players@[j].playing_in_lobby,
    ensures
        lobby_ids_agree(s1),
        awaiting_members_present(s1),
        players_unique(s1.players@),
{
    assert forall|k: int, i: int|
        0 <= k < s1.lobbies@.len() && s1.lobbies@[k].status == LobbyStatus::AwaitingPlayers && 0 <= i < s1.lobbies@[k].players@.len()
            implies plays_in_lobby(s1.players@, (#[trigger] s1.lobbies@[k].players@[i]).0@, k as usize) by {
        let v = s1.lobbies@[k].players@[i].0@;
        assert(s1.lobbies@[k].players == s0.lobbies@[k].players);
        assert(plays_in_lobby(s0.players@, s0.lobbies@[k].players@[i].0@, k as usize));
        let w = choose|w: int| 0 <= w < s0.players@.len() && #[trigger] s0.players@[w].uuid@ == v && s0.players@[w].playing_in_lobby == Some(k as usize);
        assert(s1.players@[w].uuid@ == v);
    }
    assert forall|a: int, b: int| 0 <= a < s1.players@.len() && 0 <= b < s1.players@.len() && a != b implies #[trigger] s1.players@[a].uuid@ != #[trigger] s1.players@[b].uuid@ by {
        assert(s1.players@[a].uuid@ == s0.players@[a].uuid@);
        assert(s1.players@[b].uuid@ == s0.players@[b].uuid@);
    }
    assert forall|j: int| 0 <= j < s1.players@.len() implies match (#[trigger] s1.players@[j]).playing_in_lobby {
        Some(k) => k < s1.lobbies@.len() && is_member(s1.lobbies@[k as int].players@, s1.players@[j].uuid@),
        None => true,
    } by {
        assert(s1.players@[j].uuid@ == s0.players@[j].uuid@);
        match s0.players@[j].playing_in_lobby {
            Some(k) => { assert(s1.lobbies@[k as int].players == s0.lobbies@[k as int].players); },
            None => {},
        }
        assert(match s0.players@[j].playing_in_lobby {
            Some(k) => k < s0.lobbies@.len() && is_member(s0.lobbies@[k as int].players@, s0.players@[j].uuid@),
            None => true,
        });
    }
}

/// No player has more than the allowed number of moves waiting.
pub open spec fn queues_bounded(s: AppState) -> bool {
    forall|j: int| 0 <= j < s.players@.len() ==> (#[trigger] s.players@[j]).queued_moves@.len() <= MAX_QUEUED_MOVES
}

/// The state's invariant: `NB_LOBBIES` well-formed lobbies numbered by position, each
/// connected player once, bounded move queues, and lobby ids that agree with
/// memberships.
pub open spec fn state_wf(s: AppState) -> bool {
    &&& s.lobbies@.len() == NB_LOBBIES
    &&& forall|k: int| 0 <= k < s.lobbies@.len() ==> (#[trigger] s.lobbies@[k]).lobby_id == k && lobby_wf(s.lobbies@[k])
    &&& players_unique(s.players@)
    &&& queues_bounded(s)
    &&& lobby_ids_agree(s)
    &&& awaiting_members_present(s)
}

/// Lobby statuses only move along the cycle awaiting → starting soon → in game →
/// awaiting.
pub open spec fn status_may_follow(a: LobbyStatus, b: LobbyStatus) -> bool {
    ||| a == b
    ||| a == LobbyStatus::AwaitingPlayers && b == LobbyStatus::StartingSoon
    ||| a == LobbyStatus::StartingSoon && b == LobbyStatus::InGame
    ||| a == LobbyStatus::InGame && b == LobbyStatus::AwaitingPlayers
}

pub open spec fn statuses_follow(a: AppState, b: AppState) -> bool {
    &&& a.lobbies@.len() == b.lobbies@.len()
    &&& forall|k: int| 0 <= k < a.lobbies@.len() ==> status_may_follow(#[trigger] a.lobbies@[k].status, b.lobbies@[k].status)
}

/// The last `n` entries of `msgs` (all of them when there are fewer), in order.
pub open spec fn last_of(msgs: Seq<ChatMessage>, n: nat) -> Seq<ChatMessage> {
    if msgs.len() <= n { msgs } else { msgs.subrange(msgs.len() - n, msgs.len() as int) }
}

/// Two chat logs with the same posters and texts.
pub open spec fn same_chat(a: Seq<ChatMessage>, b: Seq<ChatMessage>) -> bool {
    &&& a.len() == b.len()
    &&& forall|i: int| 0 <= i < a.len() ==> #[trigger] a[i].poster@ == b[i].poster@ && a[i].message@ == b[i].message@
}

/// Whether player `u` may join lobby `k`: the lobby exists, has room and awaits players,
/// and the player is connected and not already in it.
pub open spec fn join_allowed(s: AppState, u: Seq<char>, k: usize) -> bool {
    &&& k < s.lobbies@.len()
    &&& s.lobbies@[k as int].players@.len() < s.lobbies@[k as int].player_capacity
    &&& s.lobbies@[k as int].status == LobbyStatus::AwaitingPlayers
    &&& is_connected(s.players@, u)
    &&& s.players@[player_index(s.players@, u)].playing_in_lobby != Some(k)
}

/// `u` with `k` added, `u` left out of any other lobby.
pub open spec fn joined(s0: AppState, s1: AppState, u: Seq<char>, k: usize, now: i64) -> bool {
    let j = player_index(s0.players@, u);
    let p = s0.players@[j];
    let l0 = s0.lobbies@[k as int];
    let l1 = s1.lobbies@[k as int];
    let full = l1.players@.len() == l1.player_capacity;
    &&& s1.players@.len() == s0.players@.len()
    &&& s1.players@[j] == Player { playing_in_lobby: Some(k), ..p }
    &&& forall|q: int| 0 <= q < s0.players@.len() && q != j ==> #[trigger] s1.players@[q] == s0.players@[q]
    &&& s1.global_chat_messages == s0.global_chat_messages
    &&& s1.lobbies@.len() == s0.lobbies@.len()
    &&& l1.players@.len() == l0.players@.len() + 1
    &&& l1.players@.drop_last() == l0.players@
    &&& l1.players@.last().0@ == u
    &&& l1.players@.last().1@ == p.name@
    &&& l1.status == if full { LobbyStatus::StartingSoon } else { LobbyStatus::AwaitingPlayers }
    &&& l1.next_starting_time == if full { crate::lobby::countdown_end(now) } else { l0.next_starting_time }
    &&& l1 == Lobby { players: l1.players, status: l1.status, next_starting_time: l1.next_starting_time, ..l0 }
    &&& forall|o: int| 0 <= o < s0.lobbies@.len() && o != k ==> {
        let m0 = #[trigger] s0.lobbies@[o];
        let m1 = s1.lobbies@[o];
        if p.playing_in_lobby == Some(o as usize) {
            &&& !is_member(m1.players@, u)
            &&& exists|i: int| crate::lobby::first_member(m0.players@, u, i) && m1.players@ == m0.players@.remove(i)
            &&& m1 == Lobby { players: m1.players, ..m0 }
        } else {
            m1 == m0
        }
    }
}

/// The kingdom of player `u` at the start of a game.
pub open spec fn kingdom_of(u: Seq<char>) -> TileView {
    TileView { status: TileStatus::Occupied, tile_type: TileType::Kingdom, owner: Some(u), troops: 1 }
}

/// No tile of the board is empty.
pub open spec fn board_full(b: crate::board::Board) -> bool {
    forall|x: int, y: int| 0 <= x < b@.len() && 0 <= y < b@[x]@.len() ==> #[trigger] tile_at(b, x, y).status != TileStatus::Empty
}

/// Player `u` got its kingdom at `c`, and every registry entry of `u` stands there.
pub open spec fn starts_at(b: crate::board::Board, players: Seq<Player>, u: Seq<char>, c: (usize, usize)) -> bool {
    &&& c.0 < b@.len()
    &&& c.1 < b@[c.0 as int]@.len()
    &&& tile_at(b, c.0 as int, c.1 as int) == kingdom_of(u)
    &&& forall|j: int| 0 <= j < players.len() && #[trigger] players[j].uuid@ == u ==> players[j].xy == c
}

/// How many of the first `m` members are connected.
pub open spec fn nb_connected(players: Seq<Player>, members: Seq<(String, String)>, m: int) -> nat
    decreases m,
{
    if m <= 0 {
        0
    } else {
        nb_connected(players, members, m - 1) + if is_connected(players, members[m - 1].0@) { 1nat } else { 0nat }
    }
}

/// The color of the connected member of rank `r`: the palette in order, grey once it
/// is used up.
pub open spec fn launch_color(r: nat) -> Color {
    if r < 5 { crate::player::palette()[r as int] } else { Color::Grey }
}

/// The palette colors in `taken` are exactly the first `rank` ones.
pub open spec fn palette_prefix_taken(taken: Seq<Color>, rank: nat) -> bool {
    forall|r: int| 0 <= r < 5 ==> (taken.contains(#[trigger] crate::player::palette()[r]) <==> r < rank)
}

proof fn lemma_color_pick(taken: Seq<Color>, rank: nat)
    requires
        palette_prefix_taken(taken, rank),
    ensures
        (match crate::player::first_free_color(taken) {
            Some(c) => c,
            None => Color::Grey,
        }) == launch_color(rank),
{
    let pal = crate::player::palette();
    assert(pal[0] == Color::Red && pal[1] == Color::Blue && pal[2] == Color::Pink && pal[3] == Color::Green && pal[4] == Color::Yellow);
    assert(taken.contains(pal[0]) <==> 0 < rank);
    assert(taken.contains(pal[1]) <==> 1 < rank);
    assert(taken.contains(pal[2]) <==> 2 < rank);
    assert(taken.contains(pal[3]) <==> 3 < rank);
    assert(taken.contains(pal[4]) <==> 4 < rank);
}

proof fn lemma_color_push(taken: Seq<Color>, rank: nat)
    requires
        palette_prefix_taken(taken, rank),
    ensures
        palette_prefix_taken(taken.push(launch_color(rank)), rank + 1),
{
    let pal = crate::player::palette();
    let t1 = taken.push(launch_color(rank));
    assert(pal[0] == Color::Red && pal[1] == Color::Blue && pal[2] == Color::Pink && pal[3] == Color::Green && pal[4] == Color::Yellow);
    assert forall|r: int| 0 <= r < 5 implies (t1.contains(#[trigger] pal[r]) <==> r < rank + 1) by {
        if r == rank {
            assert(t1[taken.len() as int] == pal[r]);
        } else if t1.contains(pal[r]) {
            let w = choose|w: int| 0 <= w < t1.len() && t1[w] == pal[r];
            if w < taken.len() {
                assert(taken[w] == pal[r]);
            }
        } else if r < rank {
            let w = choose|w: int| 0 <= w < taken.len() && taken[w] == pal[r];
            assert(t1[w] == pal[r]);
        }
    }
}

/// Player `u` got its kingdom and stands on it, unless no tile was left for it.
pub open spec fn member_started(b: crate::board::Board, players: Seq<Player>, u: Seq<char>) -> bool {
    board_full(b) || exists|c: (usize, usize)| starts_at(b, players, u, c)
}

/// The game of lobby `k` has been launched: it is in game, and its members' kingdoms
/// stand on the board; connected members start with no queued moves.
pub open spec fn launched(s0: AppState, s1: AppState, k: usize) -> bool {
    let l0 = s0.lobbies@[k as int];
    let l1 = s1.lobbies@[k as int];
    &&& s1.lobbies@.len() == s0.lobbies@.len()
    &&& l1 == Lobby { status: LobbyStatus::InGame, board_game: l1.board_game, ..l0 }
    &&& same_shape(l1.board_game, l0.board_game)
    &&& forall|x: int, y: int|
        0 <= x < l0.board_game@.len() && 0 <= y < l0.board_game@[x]@.len()
            && #[trigger] tile_at(l1.board_game, x, y) != tile_at(l0.board_game, x, y) ==> {
            let t = tile_at(l1.board_game, x, y);
            &&& t.status == TileStatus::Occupied
            &&& t.tile_type == TileType::Kingdom
            &&& t.troops == 1
            &&& t.owner matches Some(o) && is_member(l0.players@, o)
        }
    &&& forall|m: int| 0 <= m < l0.players@.len() ==> member_started(l1.board_game, s1.players@, (#[trigger] l0.players@[m]).0@)
    &&& forall|c1: (usize, usize), c2: (usize, usize)|
        #![trigger tile_at(l1.board_game, c1.0 as int, c1.1 as int), tile_at(l1.board_game, c2.0 as int, c2.1 as int)]
        c1.0 < l0.board_game@.len() && c1.1 < l0.board_game@[c1.0 as int]@.len()
            && c2.0 < l0.board_game@.len() && c2.1 < l0.board_game@[c2.0 as int]@.len()
            && tile_at(l1.board_game, c1.0 as int, c1.1 as int) != tile_at(l0.board_game, c1.0 as int, c1.1 as int)
            && tile_at(l1.board_game, c2.0 as int, c2.1 as int) != tile_at(l0.board_game, c2.0 as int, c2.1 as int)
            && tile_at(l1.board_game, c1.0 as int, c1.1 as int).owner == tile_at(l1.board_game, c2.0 as int, c2.1 as int).owner
            ==> c1 == c2
    &&& forall|m: int, j: int|
        0 <= m < l0.players@.len() && 0 <= j < s0.players@.len() && (#[trigger] s0.players@[j]).uuid@ == (#[trigger] l0.players@[m]).0@
            ==> s1.players@[j].color == launch_color(nb_connected(s0.players@, l0.players@, m))
    &&& forall|o: int| 0 <= o < s0.lobbies@.len() && o != k ==> #[trigger] s1.lobbies@[o] == s0.lobbies@[o]
    &&& s1.global_chat_messages == s0.global_chat_messages
    &&& s1.players@.len() == s0.players@.len()
    &&& forall|j: int| 0 <= j < s0.players@.len() ==> {
        let p_old = #[trigger] s0.players@[j];
        let p_new = s1.players@[j];
        if is_member(l0.players@, p_old.uuid@) {
            &&& p_new.uuid == p_old.uuid
            &&& p_new.name == p_old.name
            &&& p_new.playing_in_lobby == p_old.playing_in_lobby
            &&& p_new.queued_moves@.len() == 0
        } else {
            p_new == p_old
        }
    }
}

/// The game of lobby `k` has been wound up: its players are free again, and the lobby
/// awaits players on a new board with its tick counter reset.
pub open spec fn wound_up(s0: AppState, s1: AppState, k: usize) -> bool {
    let l0 = s0.lobbies@[k as int];
    let l1 = s1.lobbies@[k as int];
    &&& s1.lobbies@.len() == s0.lobbies@.len()
    &&& l1 == Lobby { status: LobbyStatus::AwaitingPlayers, board_game: l1.board_game, players: l1.players, tick: 0, ..l0 }
    &&& l1.players@.len() == 0
    &&& board_wf(l1.board_game)
    &&& crate::board::is_fresh_board(l1.board_game)
    &&& crate::board::is_new_board(l1.board_game)
    &&& forall|o: int| 0 <= o < s0.lobbies@.len() && o != k ==> #[trigger] s1.lobbies@[o] == s0.lobbies@[o]
    &&& s1.global_chat_messages == s0.global_chat_messages
    &&& s1.players@.len() == s0.players@.len()
    &&& forall|j: int| 0 <= j < s0.players@.len() ==> {
        let p_old = #[trigger] s0.players@[j];
        let p_new = s1.players@[j];
        if p_old.playing_in_lobby == Some(k) {
            p_new == Player { playing_in_lobby: None, ..p_old }
        } else {
            p_new == p_old
        }
    }
}

/// What the game loop did to one lobby.
#[derive(Debug)]
pub enum LobbyStep {
    /// Nothing to do.
    Idle,
    /// The game of the lobby started.
    Started,
    /// A tick ran; `ended` says whether the game was then wound up.
    Ticked { report: TickReport, ended: bool },
}

/// A lobby in game has played a tick (and, when the report says the game is over, has
/// been wound up); nothing else changed but the registry's players.
pub open spec fn ticked(s0: AppState, s1: AppState, k: usize, report: TickReport, ended: bool) -> bool {
    let l0 = s0.lobbies@[k as int];
    let l1 = s1.lobbies@[k as int];
    &&& ended == report.finished
    &&& s1.lobbies@.len() == s0.lobbies@.len()
    &&& forall|o: int| 0 <= o < s0.lobbies@.len() && o != k ==> #[trigger] s1.lobbies@[o] == s0.lobbies@[o]
    &&& s1.global_chat_messages == s0.global_chat_messages
    &&& l1.lobby_id == l0.lobby_id
    &&& l1.player_capacity == l0.player_capacity
    &&& l1.messages == l0.messages
    &&& if ended {
        &&& l1.status == LobbyStatus::AwaitingPlayers
        &&& l1.players@.len() == 0
        &&& l1.tick == 0
        &&& crate::board::is_new_board(l1.board_game)
    } else {
        &&& l1.status == LobbyStatus::InGame
        &&& l1.players == l0.players
        &&& l1.tick == crate::tick::sat_inc(l0.tick)
        &&& same_shape(l1.board_game, l0.board_game)
    }
}

/// Relies on chrono's `Utc::now().timestamp()`: the current Unix time in seconds.
#[verifier::external_body]
pub(crate) fn now_timestamp() -> (t: i64) {
    chrono::Utc::now().timestamp()
}

/// Copies the last `n` messages of a chat log.
pub fn last_messages(msgs: &Vec<ChatMessage>, n: usize) -> (r: Vec<ChatMessage>)
    ensures
        same_chat(r@, last_of(msgs@, n as nat)),
        r@.len() <= n,
{
    let start = if msgs.len() <= n { 0 } else { msgs.len() - n };
    let mut r: Vec<ChatMessage> = Vec::new();
    let mut i = start;
    while i < msgs.len()
        invariant
            start <= i <= msgs@.len(),
            start as int == if msgs@.len() <= n { 0 } else { msgs@.len() - n },
            r@.len() == i - start,
            forall|m: int| 0 <= m < r@.len() ==> #[trigger] r@[m].poster@ == msgs@[start + m].poster@ && r@[m].message@ == msgs@[start + m].message@,
        decreases msgs@.len() - i,
    {
        r.push(msgs[i].duplicate());
        i = i + 1;
    }
    proof {
        let l = last_of(msgs@, n as nat);
        assert(l.len() == r@.len());
        assert forall|m: int| 0 <= m < l.len() implies #[trigger] r@[m].poster@ == l[m].poster@ && r@[m].message@ == l[m].message@ by {
            assert(r@[m].poster@ == msgs@[start + m].poster@);
            if msgs@.len() <= n {
                assert(l[m] == msgs@[m]);
            } else {
                assert(l[m] == msgs@.subrange(msgs@.len() - n, msgs@.len() as int)[m]);
                assert(l[m] == msgs@[start + m]);
            }
        }
        assert(same_chat(r@, l));
    }
    r
}

/// The message that carries a new global chat line.
pub fn global_chat_new_message(message: String, poster: String) -> (m: WsMessageToClient)
    ensures
        m matches WsMessageToClient::GlobalChatNewMessage(c) && c.poster == poster && c.message == message,
{
    WsMessageToClient::GlobalChatNewMessage(ChatMessage { poster, message })
}

/// The snapshot of every lobby and of who is connected, as broadcast to everybody.
pub open spec fn is_lobbies_update(u: LobbiesGeneralUpdate, s: AppState) -> bool {
    &&& u.connected_players@.len() == s.players@.len()
    &&& forall|j: int| 0 <= j < s.players@.len() ==> {
        let (name, lobby) = #[trigger] u.connected_players@[j];
        name@ == s.players@[j].name@ && lobby == s.players@[j].playing_in_lobby
    }
    &&& u.lobbies@.len() == s.lobbies@.len()
    &&& forall|k: int| 0 <= k < s.lobbies@.len() ==> {
        let l = #[trigger] u.lobbies@[k];
        let lobby = s.lobbies@[k];
        &&& l.player_capacity == lobby.player_capacity
        &&& l.status == lobby.status
        &&& l.next_starting_time == lobby.next_starting_time
        &&& l.player_names@.len() == lobby.players@.len()
        &&& forall|m: int| 0 <= m < lobby.players@.len() ==> (#[trigger] l.player_names@[m])@ == lobby.players@[m].1@
    }
}

/// Snapshot of every lobby (capacity, member names, status, countdown deadline) and of
/// every connected player (name, lobby).
pub fn global_lobbies_update(state: &AppState) -> (u: LobbiesGeneralUpdate)
    ensures
        is_lobbies_update(u, *state),
{
    let mut connected_players: Vec<(String, Option<usize>)> = Vec::new();
    let mut j: usize = 0;
    while j < state.players.len()
        invariant
            j <= state.players@.len(),
            connected_players@.len() == j,
            forall|m: int| 0 <= m < j ==> {
                let (name, lobby) = #[trigger] connected_players@[m];
                name@ == state.players@[m].name@ && lobby == state.players@[m].playing_in_lobby
            },
        decreases state.players@.len() - j,
    {
        connected_players.push((state.players[j].name.clone(), state.players[j].playing_in_lobby));
        j = j + 1;
    }
    let mut lobbies: Vec<LobbyGeneralUpdate> = Vec::new();
    let mut k: usize = 0;
    while k < state.lobbies.len()
        invariant
            k <= state.lobbies@.len(),
            lobbies@.len() == k,
            forall|q: int| 0 <= q < k ==> {
                let l = #[trigger] lobbies@[q];
                let lobby = state.lobbies@[q];
                &&& l.player_capacity == lobby.player_capacity
                &&& l.status == lobby.status
                &&& l.next_starting_time == lobby.next_starting_time
                &&& l.player_names@.len() == lobby.players@.len()
                &&& forall|m: int| 0 <= m < lobby.players@.len() ==> (#[trigger] l.player_names@[m])@ == lobby.players@[m].1@
            },
        decreases state.lobbies@.len() - k,
    {
        let lobby = &state.lobbies[k];
        let mut names: Vec<String> = Vec::new();
        let mut m: usize = 0;
        while m < lobby.players.len()
            invariant
                m <= lobby.players@.len(),
                names@.len() == m,
                forall|q: int| 0 <= q < m ==> (#[trigger] names@[q])@ == lobby.players@[q].1@,
            decreases lobby.players@.len() - m,
        {
            names.push(lobby.players[m].1.clone());
            m = m + 1;
        }
        lobbies.push(LobbyGeneralUpdate {
            player_capacity: lobby.player_capacity,
            player_names: names,
            status: lobby.status,
            next_starting_time: lobby.next_starting_time,
        });
        k = k + 1;
    }
    LobbiesGeneralUpdate { lobbies, connected_players }
}

impl AppState {
    /// The initial state: nobody connected, an empty global chat, and four lobbies
    /// awaiting players, for 2, 3, 1 and 4 players.
    pub fn new() -> (s: AppState)
        ensures
            state_wf(s),
            s.players@.len() == 0,
            s.global_chat_messages@.len() == 0,
            s.lobbies@.len() == 4,
            s.lobbies@[0].player_capacity == 2,
            s.lobbies@[1].player_capacity == 3,
            s.lobbies@[2].player_capacity == 1,
            s.lobbies@[3].player_capacity == 4,
            forall|k: int| 0 <= k < 4 ==> {
                let l = #[trigger] s.lobbies@[k];
                &&& l.status == LobbyStatus::AwaitingPlayers
                &&& l.players@.len() == 0
                &&& l.tick == 0
                &&& l.messages@.len() == 0
                &&& l.next_starting_time == crate::constants::YEAR_2128_TIMESTAMP
                &&& crate::board::is_new_board(l.board_game)
            },
    {
        let mut lobbies: Vec<Lobby> = Vec::new();
        lobbies.push(Lobby::new(0, 2));
        lobbies.push(Lobby::new(1, 3));
        lobbies.push(Lobby::new(2, 1));
        lobbies.push(Lobby::new(3, 4));
        AppState { global_chat_messages: Vec::new(), players: Vec::new(), lobbies }
    }

    /// Whether player `uuid` is connected.
    pub fn is_connected(&self, uuid: &String) -> (r: bool)
        ensures
            r == is_connected(self.players@, uuid@),
    {
        find_player(&self.players, uuid).is_some()
    }

    /// Registers a new connection of player `uuid`; refused (false, nothing changes)
    /// when that player is already connected.
    pub fn connect(&mut self, uuid: String, name: String) -> (r: bool)
        requires
            state_wf(*old(self)),
        ensures
            state_wf(*final(self)),
            r == !is_connected(old(self).players@, uuid@),
            !r ==> *final(self) == *old(self),
            r ==> {
                &&& final(self).players@.len() == old(self).players@.len() + 1
                &&& final(self).players@.drop_last() == old(self).players@
                &&& final(self).players@.last().uuid == uuid
                &&& final(self).players@.last().name == name
                &&& final(self).players@.last().playing_in_lobby is None
                &&& final(self).players@.last().queued_moves@.len() == 0
                &&& final(self).lobbies == old(self).lobbies
                &&& final(self).global_chat_messages == old(self).global_chat_messages
            },
            statuses_follow(*old(self), *final(self)),
    {
        if find_player(&self.players, &uuid).is_some() {
            return false;
        }
        let ghost ps0 = self.players@;
        self.players.push(Player::connected(uuid, name));
        proof {
            assert(self.players@.drop_last() == ps0);
            assert forall|j: int| 0 <= j < ps0.len() implies #[trigger] self.players@[j] == ps0[j] by {}
        }
        true
    }

    /// Queues move `m` for player `uuid` when its queue has room, and returns the
    /// player's queue and coordinate to report back; `None` when the player is not
    /// connected.
    pub fn queue_move(&mut self, uuid: &String, m: PlayerMove) -> (r: Option<PlayerMoves>)
        requires
            state_wf(*old(self)),
        ensures
            state_wf(*final(self)),
            statuses_follow(*old(self), *final(self)),
            final(self).lobbies == old(self).lobbies,
            final(self).global_chat_messages == old(self).global_chat_messages,
            final(self).players@.len() == old(self).players@.len(),
            r is Some == is_connected(old(self).players@, uuid@),
            match r {
                None => final(self).players == old(self).players,
                Some(moves) => {
                    let j = player_index(old(self).players@, uuid@);
                    let p_old = old(self).players@[j];
                    let p_new = final(self).players@[j];
                    &&& first_player(old(self).players@, uuid@, j)
                    &&& p_new.queued_moves@ == if p_old.queued_moves@.len() < MAX_QUEUED_MOVES {
                        p_old.queued_moves@.push(m)
                    } else {
                        p_old.queued_moves@
                    }
                    &&& p_new == Player { queued_moves: p_new.queued_moves, ..p_old }
                    &&& forall|q: int| 0 <= q < old(self).players@.len() && q != j ==> #[trigger] final(self).players@[q] == old(self).players@[q]
                    &&& moves.queued_moves@ == p_new.queued_moves@
                    &&& moves.xy == p_new.xy
                }
            },
    {
        match find_player(&self.players, uuid) {
            None => None,
            Some(j) => {
                proof {
                    let jc = choose|q: int| first_player(self.players@, uuid@, q);
                    if jc < j {
                        assert(self.players@[jc].uuid@ != uuid@);
                    } else if jc > j {
                        assert(self.players@[j as int].uuid@ != uuid@);
                    }
                }
                let ghost s0 = *self;
                if self.players[j].queued_moves.len() < MAX_QUEUED_MOVES {
                    self.players[j].queued_moves.push_back(m);
                }
                proof {
                    lemma_roster_kept(s0, *self);
                }
                Some(self.players[j].moves())
            },
        }
    }

    /// Gives connected player `uuid` a new display name; nothing changes when it is not
    /// connected.
    pub fn rename_player(&mut self, uuid: &String, name: String)
        requires
            state_wf(*old(self)),
        ensures
            state_wf(*final(self)),
            statuses_follow(*old(self), *final(self)),
            final(self).lobbies == old(self).lobbies,
            final(self).global_chat_messages == old(self).global_chat_messages,
            final(self).players@.len() == old(self).players@.len(),
            forall|j: int| 0 <= j < old(self).players@.len() ==> {
                let p_old = #[trigger] old(self).players@[j];
                let p_new = final(self).players@[j];
                if p_old.uuid@ == uuid@ {
                    p_new == Player { name: name, ..p_old }
                } else {
                    p_new == p_old
                }
            },
    {
        match find_player(&self.players, uuid) {
            None => {},
            Some(j) => {
                let ghost s0 = *self;
                self.players[j].name = name;
                proof {
                    assert forall|q: int| 0 <= q < s0.players@.len() && q != j implies s0.players@[q].uuid@ != uuid@ by {
                        assert(s0.players@[q].uuid@ != s0.players@[j as int].uuid@);
                    }
                    lemma_roster_kept(s0, *self);
                    assert forall|q: int| 0 <= q < self.players@.len() implies (#[trigger] self.players@[q]).queued_moves@.len() <= MAX_QUEUED_MOVES by {
                        let _ = s0.players@[q];
                    }
                }
            },
        }
    }

    /// Appends a line to the global chat, and returns the message that announces it.
    pub fn send_global_message(&mut self, poster: String, message: String) -> (m: WsMessageToClient)
        requires
            state_wf(*old(self)),
        ensures
            state_wf(*final(self)),
            statuses_follow(*old(self), *final(self)),
            final(self).players == old(self).players,
            final(self).lobbies == old(self).lobbies,
            same_chat(
                final(self).global_chat_messages@,
                old(self).global_chat_messages@.push(ChatMessage { poster, message }),
            ),
            m matches WsMessageToClient::GlobalChatNewMessage(c) && c.poster@ == poster@ && c.message@ == message@,
    {
        let ghost g0 = self.global_chat_messages@;
        self.global_chat_messages.push(ChatMessage { poster: poster.clone(), message: message.clone() });
        proof {
            assert forall|i: int| 0 <= i < g0.len() implies #[trigger] self.global_chat_messages@[i] == g0[i] by {}
        }
        global_chat_new_message(message, poster)
    }

    /// The history snapshot sent to a player who just connected: the last lines of the
    /// global chat.
    pub fn global_chat_sync(&self) -> (m: WsMessageToClient)
        ensures
            m matches WsMessageToClient::GlobalChatSync(h) && same_chat(
                h@,
                last_of(self.global_chat_messages@, DISPLAY_N_LAST_MESSAGES as nat),
            ) && h@.len() <= DISPLAY_N_LAST_MESSAGES,
    {
        WsMessageToClient::GlobalChatSync(last_messages(&self.global_chat_messages, DISPLAY_N_LAST_MESSAGES))
    }

    /// Player `uuid` asks to join lobby `k` at time `now`. When that is allowed (see
    /// `join_allowed`) the player leaves the lobby it was in, joins `k`, and a lobby that
    /// is now full starts its countdown; the result is the lobby's recent chat, to be
    /// sent to the player. Otherwise nothing changes and the result is `None`.
    #[verifier::rlimit(60)]
    pub fn join_lobby(&mut self, uuid: &String, k: usize, now: i64) -> (r: Option<Vec<ChatMessage>>)
        requires
            state_wf(*old(self)),
        ensures
            state_wf(*final(self)),
            statuses_follow(*old(self), *final(self)),
            r is Some == join_allowed(*old(self), uuid@, k),
            r is None ==> *final(self) == *old(self),
            r matches Some(h) ==> joined(*old(self), *final(self), uuid@, k, now) && same_chat(
                h@,
                last_of(final(self).lobbies@[k as int].messages@, DISPLAY_N_LAST_MESSAGES as nat),
            ) && h@.len() <= DISPLAY_N_LAST_MESSAGES,
    {
        if k >= self.lobbies.len() {
            return None;
        }
        if self.lobbies[k].players.len() >= self.lobbies[k].player_capacity {
            return None;
        }
        if self.lobbies[k].status != LobbyStatus::AwaitingPlayers {
            return None;
        }
        let j = match find_player(&self.players, uuid) {
            None => { return None; },
            Some(j) => j,
        };
        proof {
            let jc = choose|q: int| first_player(self.players@, uuid@, q);
            if jc < j {
                assert(self.players@[jc].uuid@ != uuid@);
            } else if jc > j {
                assert(self.players@[j as int].uuid@ != uuid@);
            }
        }
        if self.players[j].playing_in_lobby == Some(k) {
            return None;
        }
        let ghost s0 = *self;
        // leave the previous lobby
        match self.players[j].playing_in_lobby {
            Some(o) => {
                let found = find_member(&self.lobbies[o].players, uuid);
                match found {
                    Some(i) => {
                        let _ = self.lobbies[o].players.remove(i);
                        proof {
                            let m0 = s0.lobbies@[o as int].players@;
                            let m1 = self.lobbies@[o as int].players@;
                            assert forall|a: int, b: int| 0 <= a < m1.len() && 0 <= b < m1.len() && a != b implies #[trigger] m1[a].0@ != #[trigger] m1[b].0@ by {
                                let a0 = if a < i { a } else { a + 1 };
                                let b0 = if b < i { b } else { b + 1 };
                                assert(m1[a] == m0[a0]);
                                assert(m1[b] == m0[b0]);
                            }
                            assert(!is_member(m1, uuid@)) by {
                                if is_member(m1, uuid@) {
                                    let a = choose|a: int| 0 <= a < m1.len() && #[trigger] m1[a].0@ == uuid@;
                                    let a0 = if a < i { a } else { a + 1 };
                                    assert(m1[a] == m0[a0]);
                                }
                            }
                        }
                    },
                    None => {},
                }
            },
            None => {},
        }
        let ghost s1 = *self;
        // not a member of `k` yet: members of `k` say so in their own record
        proof {
            let m0 = s0.lobbies@[k as int].players@;
            assert(!is_member(m0, uuid@)) by {
                if is_member(m0, uuid@) {
                    assert(s0.players@[j as int].playing_in_lobby != Some(k));
                }
            }
        }
        let name = self.players[j].name.clone();
        self.lobbies[k].players.push((uuid.clone(), name));
        self.players[j].playing_in_lobby = Some(k);
        if self.lobbies[k].players.len() == self.lobbies[k].player_capacity {
            self.lobbies[k].status = LobbyStatus::StartingSoon;
            self.lobbies[k].next_starting_time = crate::lobby::countdown_deadline(now);
        }
        proof {
            let u = uuid@;
            let ps0 = s0.players@;
            let ps2 = self.players@;
            let p = ps0[j as int];
            let m0k = s0.lobbies@[k as int].players@;
            let m2k = self.lobbies@[k as int].players@;
            assert(m2k == m0k.push((m2k.last().0, m2k.last().1)));
            assert(m2k.drop_last() == m0k);
            assert forall|q: int| 0 <= q < ps0.len() && q != j implies #[trigger] ps2[q] == ps0[q] by {}
            // the other lobbies
            assert forall|o: int| 0 <= o < s0.lobbies@.len() && o != k implies {
                let m0 = #[trigger] s0.lobbies@[o];
                let m1 = self.lobbies@[o];
                if p.playing_in_lobby == Some(o as usize) {
                    &&& !is_member(m1.players@, u)
                    &&& exists|i: int| crate::lobby::first_member(m0.players@, u, i) && m1.players@ == m0.players@.remove(i)
                    &&& m1 == Lobby { players: m1.players, ..m0 }
                } else {
                    m1 == m0
                }
            } by {
                if p.playing_in_lobby == Some(o as usize) {
                    assert(is_member(s0.lobbies@[o].players@, u));
                }
            }
            // lobby `k` keeps distinct members
            assert forall|a: int, b: int| 0 <= a < m2k.len() && 0 <= b < m2k.len() && a != b implies #[trigger] m2k[a].0@ != #[trigger] m2k[b].0@ by {
                if a < m0k.len() && b < m0k.len() {
                    assert(m2k[a] == m0k[a]);
                    assert(m2k[b] == m0k[b]);
                } else if a < m0k.len() {
                    assert(m2k[a] == m0k[a]);
                } else {
                    assert(m2k[b] == m0k[b]);
                }
            }
            assert forall|k2: int| 0 <= k2 < self.lobbies@.len() implies (#[trigger] self.lobbies@[k2]).lobby_id == k2 && lobby_wf(self.lobbies@[k2]) by {
                assert(s0.lobbies@[k2].lobby_id == k2 && lobby_wf(s0.lobbies@[k2]));
            }
            assert forall|a: int, b: int| 0 <= a < ps2.len() && 0 <= b < ps2.len() && a != b implies #[trigger] ps2[a].uuid@ != #[trigger] ps2[b].uuid@ by {
                assert(ps2[a].uuid == ps0[a].uuid);
                assert(ps2[b].uuid == ps0[b].uuid);
            }
            assert forall|q: int| 0 <= q < ps2.len() implies (#[trigger] ps2[q]).queued_moves@.len() <= MAX_QUEUED_MOVES by {
                assert(ps0[q].queued_moves@.len() <= MAX_QUEUED_MOVES);
            }
            assert forall|q: int| 0 <= q < ps2.len() implies match (#[trigger] ps2[q]).playing_in_lobby {
                Some(m) => m < self.lobbies@.len() && is_member(self.lobbies@[m as int].players@, ps2[q].uuid@),
                None => true,
            } by {
                if q == j {
                    assert(m2k[m2k.len() - 1].0@ == u);
                } else {
                    assert(ps2[q] == ps0[q]);
                    assert(ps0[q].uuid@ != u);
                    match ps0[q].playing_in_lobby {
                        Some(m) => {
                            let mm0 = s0.lobbies@[m as int].players@;
                            let mm1 = self.lobbies@[m as int].players@;
                            let w = choose|w: int| 0 <= w < mm0.len() && #[trigger] mm0[w].0@ == ps0[q].uuid@;
                            if m == k {
                                assert(mm1[w] == mm0[w]);
                            } else if p.playing_in_lobby == Some(m) {
                                let r = choose|r: int| crate::lobby::first_member(mm0, u, r) && mm1 == mm0.remove(r);
                                assert(w != r);
                                let w1 = if w < r { w } else { w - 1 };
                                assert(mm1[w1] == mm0[w]);
                            } else {
                                assert(mm1 == mm0);
                            }
                        },
                        None => {},
                    }
                }
            }
            assert forall|k2: int, i: int|
                0 <= k2 < self.lobbies@.len() && self.lobbies@[k2].status == LobbyStatus::AwaitingPlayers && 0 <= i < self.lobbies@[k2].players@.len()
                    implies plays_in_lobby(ps2, (#[trigger] self.lobbies@[k2].players@[i]).0@, k2 as usize) by {
                let mm0 = s0.lobbies@[k2].players@;
                let mm1 = self.lobbies@[k2].players@;
                let v = mm1[i].0@;
                if k2 == k {
                    if i < m0k.len() {
                        assert(mm1[i] == mm0[i]);
                        assert(plays_in_lobby(ps0, mm0[i].0@, k2 as usize));
                        lemma_presence_kept_update(ps0, ps2, j as int, v, k2 as usize);
                    } else {
                        assert(ps2[j as int].uuid@ == u);
                    }
                } else if p.playing_in_lobby == Some(k2 as usize) {
                    let r = choose|r: int| crate::lobby::first_member(mm0, u, r) && mm1 == mm0.remove(r);
                    let i0 = if i < r { i } else { i + 1 };
                    assert(mm1[i] == mm0[i0]);
                    assert(plays_in_lobby(ps0, mm0[i0].0@, k2 as usize));
                    assert(v != u);
                    lemma_presence_kept_update(ps0, ps2, j as int, v, k2 as usize);
                } else {
                    assert(mm1 == mm0);
                    assert(plays_in_lobby(ps0, mm0[i].0@, k2 as usize));
                    if v == u {
                        let w = choose|w: int| 0 <= w < ps0.len() && #[trigger] ps0[w].uuid@ == v && ps0[w].playing_in_lobby == Some(k2 as usize);
                        assert(ps0[w].uuid@ == ps0[j as int].uuid@);
                    }
                    lemma_presence_kept_update(ps0, ps2, j as int, v, k2 as usize);
                }
            }
        }
        Some(last_messages(&self.lobbies[k].messages, DISPLAY_N_LAST_MESSAGES))
    }

    /// Launches the game of lobby `k` once its countdown is over at time `now`: the lobby
    /// goes in game, and each member in turn gets the next free color of the palette
    /// and a kingdom with one troop on a random empty tile (its cursor starts there),
    /// and connected members lose their queued moves. Returns whether it launched;
    /// nothing changes when the lobby is not starting or the countdown is not over.
    #[verifier::rlimit(100)]
    pub fn lunch_game(&mut self, k: usize, now: i64) -> (r: bool)
        requires
            state_wf(*old(self)),
            k < NB_LOBBIES,
        ensures
            state_wf(*final(self)),
            statuses_follow(*old(self), *final(self)),
            r == (old(self).lobbies@[k as int].status == LobbyStatus::StartingSoon
                && old(self).lobbies@[k as int].next_starting_time <= now),
            !r ==> *final(self) == *old(self),
            r ==> launched(*old(self), *final(self), k),
    {
        if self.lobbies[k].status != LobbyStatus::StartingSoon || now < self.lobbies[k].next_starting_time {
            return false;
        }
        let ghost s0 = *self;
        self.lobbies[k].status = LobbyStatus::InGame;
        let mut unavailable_colors: Vec<Color> = Vec::new();
        let ghost mut spots: Seq<Option<(usize, usize)>> = Seq::empty();
        let mut i: usize = 0;
        while i < self.lobbies[k].players.len()
            invariant
                palette_prefix_taken(unavailable_colors@, nb_connected(s0.players@, s0.lobbies@[k as int].players@, i as int)),
                forall|m: int, j: int|
                    0 <= m < i && 0 <= j < s0.players@.len() && (#[trigger] s0.players@[j]).uuid@ == (#[trigger] s0.lobbies@[k as int].players@[m]).0@
                        ==> self.players@[j].color == launch_color(nb_connected(s0.players@, s0.lobbies@[k as int].players@, m)),
                spots.len() == i,
                forall|x: int, y: int|
                    0 <= x < s0.lobbies@[k as int].board_game@.len() && 0 <= y < s0.lobbies@[k as int].board_game@[x]@.len()
                        && #[trigger] tile_at(self.lobbies@[k as int].board_game, x, y) != tile_at(s0.lobbies@[k as int].board_game, x, y)
                        ==> exists|m: int| 0 <= m < i && #[trigger] spots[m] == Some((x as usize, y as usize)),
                forall|m: int| 0 <= m < i ==> match #[trigger] spots[m] {
                    Some(c) => starts_at(self.lobbies@[k as int].board_game, self.players@, s0.lobbies@[k as int].players@[m].0@, c),
                    None => board_full(self.lobbies@[k as int].board_game),
                },
                k < self.lobbies@.len(),
                i <= self.lobbies@[k as int].players@.len(),
                state_wf(s0),
                s0.lobbies@.len() == self.lobbies@.len(),
                self.lobbies@[k as int] == (Lobby { status: LobbyStatus::InGame, board_game: self.lobbies@[k as int].board_game, ..s0.lobbies@[k as int] }),
                same_shape(self.lobbies@[k as int].board_game, s0.lobbies@[k as int].board_game),
                forall|x: int, y: int|
                    0 <= x < s0.lobbies@[k as int].board_game@.len() && 0 <= y < s0.lobbies@[k as int].board_game@[x]@.len()
                        && #[trigger] tile_at(self.lobbies@[k as int].board_game, x, y) != tile_at(s0.lobbies@[k as int].board_game, x, y) ==> {
                        let t = tile_at(self.lobbies@[k as int].board_game, x, y);
                        &&& t.status == TileStatus::Occupied
                        &&& t.tile_type == TileType::Kingdom
                        &&& t.troops == 1
                        &&& t.owner matches Some(o) && is_member(s0.lobbies@[k as int].players@, o)
                    },
                forall|o: int| 0 <= o < s0.lobbies@.len() && o != k ==> #[trigger] self.lobbies@[o] == s0.lobbies@[o],
                self.global_chat_messages == s0.global_chat_messages,
                self.players@.len() == s0.players@.len(),
                forall|j: int| 0 <= j < s0.players@.len() ==> {
                    let p_old = #[trigger] s0.players@[j];
                    let p_new = self.players@[j];
                    if exists|m: int| 0 <= m < i && #[trigger] s0.lobbies@[k as int].players@[m].0@ == p_old.uuid@ {
                        &&& p_new.uuid == p_old.uuid
                        &&& p_new.name == p_old.name
                        &&& p_new.playing_in_lobby == p_old.playing_in_lobby
                        &&& p_new.queued_moves@.len() == 0
                    } else {
                        p_new == p_old
                    }
                },
            decreases s0.lobbies@[k as int].players@.len() - i,
        {
            let ghost rank = nb_connected(s0.players@, s0.lobbies@[k as int].players@, i as int);
            let ghost unavailable_before = unavailable_colors@;
            let color = match Color::pick_available_color(unavailable_colors.as_slice()) {
                Some(c) => c,
                None => Color::Grey,
            };
            proof {
                lemma_color_pick(unavailable_colors@, rank);
            }
            let spot = pick_available_starting_coordinates(&self.lobbies[k].board_game);
            let uuid = self.lobbies[k].players[i].0.clone();
            let ghost ps_before = self.players@;
            let ghost board_before = self.lobbies@[k as int].board_game;
            let ghost spots_before = spots;
            match find_player(&self.players, &uuid) {
                Some(j) => {
                    self.players[j].queued_moves = std::collections::VecDeque::new();
                    self.players[j].color = color;
                    unavailable_colors.push(color);
                    match spot {
                        Some(xy) => { self.players[j].xy = xy; },
                        None => {},
                    }
                    proof {
                        assert forall|q: int| 0 <= q < s0.players@.len() && q != j implies #[trigger] self.players@[q] == ps_before[q] by {}
                        assert forall|q: int| 0 <= q < s0.players@.len() && s0.players@[q].uuid@ == uuid@ implies q == j by {
                            assert(ps_before[q].uuid == s0.players@[q].uuid);
                            assert(ps_before[j as int].uuid == s0.players@[j as int].uuid);
                        }
                        assert(ps_before[j as int].uuid == s0.players@[j as int].uuid);
                        assert(is_connected(s0.players@, uuid@));
                        lemma_color_push(unavailable_before, rank);
                    }
                },
                None => {
                    proof {
                        assert(!is_connected(s0.players@, uuid@)) by {
                            if is_connected(s0.players@, uuid@) {
                                let w = choose|w: int| 0 <= w < s0.players@.len() && #[trigger] s0.players@[w].uuid@ == uuid@;
                                assert(ps_before[w].uuid == s0.players@[w].uuid);
                            }
                        }
                    }
                },
            }
            proof {
                let members = s0.lobbies@[k as int].players@;
                assert(nb_connected(s0.players@, members, i + 1) == rank + if is_connected(s0.players@, members[i as int].0@) { 1nat } else { 0nat });
                assert(members[i as int].0@ == uuid@);
                assert forall|m: int, j: int|
                    0 <= m < i + 1 && 0 <= j < s0.players@.len() && (#[trigger] s0.players@[j]).uuid@ == (#[trigger] members[m]).0@
                        implies self.players@[j].color == launch_color(nb_connected(s0.players@, members, m)) by {
                    if m < i {
                        assert(members[m].0@ != members[i as int].0@) by {
                            assert(lobby_wf(s0.lobbies@[k as int]));
                        }
                        assert(ps_before[j].uuid == s0.players@[j].uuid);
                    }
                }
            }
            match spot {
                Some((x, y)) => {
                    let ghost b0 = self.lobbies@[k as int].board_game;
                    let t = Tile {
                        status: TileStatus::Occupied,
                        tile_type: TileType::Kingdom,
                        player_uuid: Some(uuid),
                        nb_troops: 1,
                    };
                    set_tile(&mut self.lobbies[k].board_game, x, y, t);
                    proof {
                        assert(s0.lobbies@[k as int].players@[i as int].0@ == t.player_uuid->0@);
                    }
                },
                None => {},
            }
            proof {
                let members = s0.lobbies@[k as int].players@;
                let b1 = self.lobbies@[k as int].board_game;
                assert(state_wf(s0));
                assert(lobby_wf(s0.lobbies@[k as int]));
                spots = spots.push(spot);
                assert forall|m: int| 0 <= m < i + 1 implies match #[trigger] spots[m] {
                    Some(c) => starts_at(b1, self.players@, members[m].0@, c),
                    None => board_full(b1),
                } by {
                    if m < i {
                        assert(spots[m] == spots_before[m]);
                        assert(members[m].0@ != members[i as int].0@);
                        match spots[m] {
                            Some(c) => {
                                assert(starts_at(board_before, ps_before, members[m].0@, c));
                                assert(tile_at(board_before, c.0 as int, c.1 as int).status == TileStatus::Occupied);
                                assert forall|j: int| 0 <= j < self.players@.len() && #[trigger] self.players@[j].uuid@ == members[m].0@ implies self.players@[j].xy == c by {
                                    let _ = s0.players@[j];
                                    assert(ps_before[j].uuid == s0.players@[j].uuid);
                                }
                            },
                            None => {
                                assert(board_full(board_before));
                            },
                        }
                    } else {
                        match spot {
                            Some(c) => {
                                assert forall|j: int| 0 <= j < self.players@.len() && #[trigger] self.players@[j].uuid@ == members[m].0@ implies self.players@[j].xy == c by {
                                    let _ = s0.players@[j];
                                    assert(ps_before[j].uuid == s0.players@[j].uuid);
                                }
                            },
                            None => {},
                        }
                    }
                }
                let b00 = s0.lobbies@[k as int].board_game;
                assert forall|x: int, y: int|
                    0 <= x < b00@.len() && 0 <= y < b00@[x]@.len() && #[trigger] tile_at(b1, x, y) != tile_at(b00, x, y)
                        implies exists|m: int| 0 <= m < i + 1 && #[trigger] spots[m] == Some((x as usize, y as usize)) by {
                    if spot == Some((x as usize, y as usize)) {
                        assert(spots[i as int] == spot);
                    } else {
                        assert(tile_at(b1, x, y) == tile_at(board_before, x, y));
                        let m = choose|m: int| 0 <= m < i && #[trigger] spots_before[m] == Some((x as usize, y as usize));
                        assert(spots[m] == spots_before[m]);
                    }
                }
            }
            i = i + 1;
        }
        proof {
            let members = s0.lobbies@[k as int].players@;
            assert(state_wf(s0));
            let b00 = s0.lobbies@[k as int].board_game;
            let b1 = self.lobbies@[k as int].board_game;
            assert forall|c1: (usize, usize), c2: (usize, usize)|
                #![trigger tile_at(b1, c1.0 as int, c1.1 as int), tile_at(b1, c2.0 as int, c2.1 as int)]
                c1.0 < b00@.len() && c1.1 < b00@[c1.0 as int]@.len()
                    && c2.0 < b00@.len() && c2.1 < b00@[c2.0 as int]@.len()
                    && tile_at(b1, c1.0 as int, c1.1 as int) != tile_at(b00, c1.0 as int, c1.1 as int)
                    && tile_at(b1, c2.0 as int, c2.1 as int) != tile_at(b00, c2.0 as int, c2.1 as int)
                    && tile_at(b1, c1.0 as int, c1.1 as int).owner == tile_at(b1, c2.0 as int, c2.1 as int).owner
                    implies c1 == c2 by {
                assert(exists|m: int| 0 <= m < i && #[trigger] spots[m] == Some(((c1.0 as int) as usize, (c1.1 as int) as usize)));
                assert(exists|m: int| 0 <= m < i && #[trigger] spots[m] == Some(((c2.0 as int) as usize, (c2.1 as int) as usize)));
                let m1 = choose|m: int| 0 <= m < i && #[trigger] spots[m] == Some(c1);
                let m2 = choose|m: int| 0 <= m < i && #[trigger] spots[m] == Some(c2);
                assert(starts_at(b1, self.players@, members[m1].0@, c1));
                assert(starts_at(b1, self.players@, members[m2].0@, c2));
                assert(lobby_wf(s0.lobbies@[k as int]));
                if m1 != m2 {
                    assert(members[m1].0@ != members[m2].0@);
                }
            }
            assert forall|m: int| 0 <= m < members.len() implies member_started(self.lobbies@[k as int].board_game, self.players@, (#[trigger] members[m]).0@) by {
                match spots[m] {
                    Some(c) => {
                        assert(starts_at(self.lobbies@[k as int].board_game, self.players@, members[m].0@, c));
                    },
                    None => {},
                }
            }
            assert forall|q: int| 0 <= q < s0.players@.len() implies #[trigger] self.players@[q].uuid@ == s0.players@[q].uuid@
                && self.players@[q].playing_in_lobby == s0.players@[q].playing_in_lobby by {
                let _ = s0.players@[q];
            }
            assert forall|o: int| 0 <= o < s0.lobbies@.len() implies (#[trigger] self.lobbies@[o]).players == s0.lobbies@[o].players
                && (self.lobbies@[o].status == LobbyStatus::AwaitingPlayers ==> s0.lobbies@[o].status == LobbyStatus::AwaitingPlayers) by {
                if o != k { assert(self.lobbies@[o] == s0.lobbies@[o]); }
            }
            lemma_roster_kept(s0, *self);
            let b0 = s0.lobbies@[k as int].board_game;
            let b1 = self.lobbies@[k as int].board_game;
            assert(b1@[0]@.len() == b0@[0]@.len());
            assert forall|o: int| 0 <= o < self.lobbies@.len() implies (#[trigger] self.lobbies@[o]).lobby_id == o && lobby_wf(self.lobbies@[o]) by {
                assert(s0.lobbies@[o].lobby_id == o && lobby_wf(s0.lobbies@[o]));
                if o == k {
                    assert forall|x: int| 0 <= x < b1@.len() implies (#[trigger] b1@[x])@.len() == b1@[0]@.len() by {
                        assert(b0@[x]@.len() == b0@[0]@.len());
                    }
                }
            }
            assert forall|q: int| 0 <= q < self.players@.len() implies (#[trigger] self.players@[q]).queued_moves@.len() <= MAX_QUEUED_MOVES by {
                let _ = s0.players@[q];
            }
        }
        true
    }

    /// Winds up the game of lobby `k`: players who play in it are free again, and the
    /// lobby awaits players with no members, a new board and its tick counter reset.
    pub fn end_lobby_game(&mut self, k: usize)
        requires
            state_wf(*old(self)),
            k < NB_LOBBIES,
            old(self).lobbies@[k as int].status == LobbyStatus::InGame,
        ensures
            state_wf(*final(self)),
            statuses_follow(*old(self), *final(self)),
            wound_up(*old(self), *final(self), k),
    {
        let ghost s0 = *self;
        let mut j: usize = 0;
        while j < self.players.len()
            invariant
                k < self.lobbies@.len(),
                j <= self.players@.len(),
                state_wf(s0),
                self.lobbies == s0.lobbies,
                self.global_chat_messages == s0.global_chat_messages,
                self.players@.len() == s0.players@.len(),
                forall|q: int| 0 <= q < s0.players@.len() ==> {
                    let p_old = #[trigger] s0.players@[q];
                    let p_new = self.players@[q];
                    if q < j && p_old.playing_in_lobby == Some(k) {
                        p_new == Player { playing_in_lobby: None, ..p_old }
                    } else {
                        p_new == p_old
                    }
                },
            decreases s0.players@.len() - j,
        {
            if self.players[j].playing_in_lobby == Some(k) {
                if find_member(&self.lobbies[k].players, &self.players[j].uuid).is_some() {
                    self.players[j].playing_in_lobby = None;
                }
            }
            proof {
                let p_old = s0.players@[j as int];
                if p_old.playing_in_lobby == Some(k) {
                    assert(is_member(s0.lobbies@[k as int].players@, p_old.uuid@));
                }
            }
            j = j + 1;
        }
        self.lobbies[k].generate_new_board();
        self.lobbies[k].status = LobbyStatus::AwaitingPlayers;
        self.lobbies[k].players = Vec::new();
        self.lobbies[k].tick = 0;
        proof {
            let ps0 = s0.players@;
            let ps1 = self.players@;
            assert forall|o: int| 0 <= o < self.lobbies@.len() implies (#[trigger] self.lobbies@[o]).lobby_id == o && lobby_wf(self.lobbies@[o]) by {
                assert(s0.lobbies@[o].lobby_id == o && lobby_wf(s0.lobbies@[o]));
            }
            assert forall|a: int, b: int| 0 <= a < ps1.len() && 0 <= b < ps1.len() && a != b implies #[trigger] ps1[a].uuid@ != #[trigger] ps1[b].uuid@ by {
                let _ = ps0[a];
                let _ = ps0[b];
            }
            assert forall|q: int| 0 <= q < ps1.len() implies (#[trigger] ps1[q]).queued_moves@.len() <= MAX_QUEUED_MOVES by {
                let _ = ps0[q];
            }
            assert forall|q: int| 0 <= q < ps1.len() implies match (#[trigger] ps1[q]).playing_in_lobby {
                Some(m) => m < self.lobbies@.len() && is_member(self.lobbies@[m as int].players@, ps1[q].uuid@),
                None => true,
            } by {
                let _ = ps0[q];
                match ps0[q].playing_in_lobby {
                    Some(m) => { assert(self.lobbies@[m as int] == s0.lobbies@[m as int] || m == k); },
                    None => {},
                }
            }
            assert forall|k2: int, i: int|
                0 <= k2 < self.lobbies@.len() && self.lobbies@[k2].status == LobbyStatus::AwaitingPlayers && 0 <= i < self.lobbies@[k2].players@.len()
                    implies plays_in_lobby(ps1, (#[trigger] self.lobbies@[k2].players@[i]).0@, k2 as usize) by {
                assert(k2 != k);
                assert(self.lobbies@[k2] == s0.lobbies@[k2]);
                let v = s0.lobbies@[k2].players@[i].0@;
                assert(plays_in_lobby(ps0, v, k2 as usize));
                let w = choose|w: int| 0 <= w < ps0.len() && #[trigger] ps0[w].uuid@ == v && ps0[w].playing_in_lobby == Some(k2 as usize);
                assert(ps1[w] == ps0[w]);
            }
        }
    }

    /// One visit of the game loop to lobby `k` at time `now`: a lobby that is starting
    /// launches once its countdown is over; a lobby in game plays a tick, and is wound
    /// up when the tick says the game is over.
    pub fn step_lobby(&mut self, k: usize, now: i64) -> (r: LobbyStep)
        requires
            state_wf(*old(self)),
            k < NB_LOBBIES,
        ensures
            state_wf(*final(self)),
            statuses_follow(*old(self), *final(self)),
            match old(self).lobbies@[k as int].status {
                LobbyStatus::AwaitingPlayers => r is Idle && *final(self) == *old(self),
                LobbyStatus::StartingSoon => if old(self).lobbies@[k as int].next_starting_time <= now {
                    r is Started && launched(*old(self), *final(self), k)
                } else {
                    r is Idle && *final(self) == *old(self)
                },
                LobbyStatus::InGame => r matches LobbyStep::Ticked { report, ended } && ticked(*old(self), *final(self), k, report, ended),
            },
    {
        match self.lobbies[k].status {
            LobbyStatus::AwaitingPlayers => LobbyStep::Idle,
            LobbyStatus::StartingSoon => {
                if self.lunch_game(k, now) {
                    LobbyStep::Started
                } else {
                    LobbyStep::Idle
                }
            },
            LobbyStatus::InGame => {
                let ghost s0 = *self;
                let report = tick_game(&mut self.lobbies[k], &mut self.players);
                proof {
                    assert forall|q: int| 0 <= q < s0.players@.len() implies #[trigger] self.players@[q].uuid@ == s0.players@[q].uuid@
                        && self.players@[q].playing_in_lobby == s0.players@[q].playing_in_lobby by {
                        let _ = s0.players@[q];
                    }
                    assert forall|o: int| 0 <= o < s0.lobbies@.len() implies (#[trigger] self.lobbies@[o]).players == s0.lobbies@[o].players
                        && (self.lobbies@[o].status == LobbyStatus::AwaitingPlayers ==> s0.lobbies@[o].status == LobbyStatus::AwaitingPlayers) by {
                    }
                    lemma_roster_kept(s0, *self);
                    assert forall|o: int| 0 <= o < self.lobbies@.len() implies (#[trigger] self.lobbies@[o]).lobby_id == o && lobby_wf(self.lobbies@[o]) by {
                        assert(s0.lobbies@[o].lobby_id == o && lobby_wf(s0.lobbies@[o]));
                    }
                    assert forall|q: int| 0 <= q < self.players@.len() implies (#[trigger] self.players@[q]).queued_moves@.len() <= MAX_QUEUED_MOVES by {
                        let _ = s0.players@[q];
                    }
                }
                let ended = report.finished;
                let ghost s_mid = *self;
                if ended {
                    self.end_lobby_game(k);
                    proof {
                        assert forall|o: int| 0 <= o < s0.lobbies@.len() && o != k implies #[trigger] self.lobbies@[o] == s0.lobbies@[o] by {
                            assert(self.lobbies@[o] == s_mid.lobbies@[o]);
                        }
                    }
                }
                LobbyStep::Ticked { report, ended }
            },
        }
    }

    /// `step_lobby` at the current time.
    pub fn step_lobby_now(&mut self, k: usize) -> (r: LobbyStep)
        requires
            state_wf(*old(self)),
            k < NB_LOBBIES,
        ensures
            state_wf(*final(self)),
            statuses_follow(*old(self), *final(self)),
            match old(self).lobbies@[k as int].status {
                LobbyStatus::AwaitingPlayers => r is Idle && *final(self) == *old(self),
                LobbyStatus::StartingSoon => (r is Started && launched(*old(self), *final(self), k))
                    || (r is Idle && *final(self) == *old(self)),
                LobbyStatus::InGame => r matches LobbyStep::Ticked { report, ended } && ticked(*old(self), *final(self), k, report, ended),
            },
    {
        let now = now_timestamp();
        self.step_lobby(k, now)
    }

    /// `join_lobby` at the current time.
    pub fn join_lobby_now(&mut self, uuid: &String, k: usize) -> (r: Option<Vec<ChatMessage>>)
        requires
            state_wf(*old(self)),
        ensures
            state_wf(*final(self)),
            statuses_follow(*old(self), *final(self)),
            r is Some == join_allowed(*old(self), uuid@, k),
            r is None ==> *final(self) == *old(self),
            r matches Some(h) ==> exists|now: i64| #[trigger] joined(*old(self), *final(self), uuid@, k, now) && same_chat(
                h@,
                last_of(final(self).lobbies@[k as int].messages@, DISPLAY_N_LAST_MESSAGES as nat),
            ) && h@.len() <= DISPLAY_N_LAST_MESSAGES,
    {
        let now = now_timestamp();
        let r = self.join_lobby(uuid, k, now);
        proof {
            if r is Some {
                assert(joined(*old(self), *self, uuid@, k, now));
            }
        }
        r
    }

    /// Appends a line from player `uuid` to the chat of the lobby it plays in, and
    /// returns that lobby; `None`, with nothing changed, when the player is not
    /// connected or in no lobby.
    pub fn send_lobby_message(&mut self, uuid: &String, message: String) -> (r: Option<(usize, ChatMessage)>)
        requires
            state_wf(*old(self)),
        ensures
            state_wf(*final(self)),
            statuses_follow(*old(self), *final(self)),
            final(self).players == old(self).players,
            final(self).global_chat_messages == old(self).global_chat_messages,
            final(self).lobbies@.len() == old(self).lobbies@.len(),
            ({
                let j = player_index(old(self).players@, uuid@);
                if is_connected(old(self).players@, uuid@) && old(self).players@[j].playing_in_lobby is Some {
                    let k = old(self).players@[j].playing_in_lobby->0;
                    let p = old(self).players@[j];
                    &&& r matches Some((rk, c)) && rk == k && c.poster@ == p.name@ && c.message@ == message@
                    &&& same_chat(
                        final(self).lobbies@[k as int].messages@,
                        old(self).lobbies@[k as int].messages@.push(ChatMessage { poster: p.name, message }),
                    )
                    &&& final(self).lobbies@[k as int] == Lobby {
                        messages: final(self).lobbies@[k as int].messages,
                        ..old(self).lobbies@[k as int]
                    }
                    &&& forall|q: int| 0 <= q < old(self).lobbies@.len() && q != k ==> #[trigger] final(self).lobbies@[q] == old(self).lobbies@[q]
                } else {
                    &&& r is None
                    &&& final(self).lobbies == old(self).lobbies
                }
            }),
    {
        match find_player(&self.players, uuid) {
            None => None,
            Some(j) => {
                proof {
                    let jc = choose|q: int| first_player(self.players@, uuid@, q);
                    if jc < j {
                        assert(self.players@[jc].uuid@ != uuid@);
                    } else if jc > j {
                        assert(self.players@[j as int].uuid@ != uuid@);
                    }
                }
                match self.players[j].playing_in_lobby {
                    None => None,
                    Some(k) => {
                        let ghost s0 = *self;
                        let poster = self.players[j].name.clone();
                        let line = ChatMessage { poster: poster.clone(), message: message.clone() };
                        self.lobbies[k].messages.push(line);
                        proof {
                            let g0 = s0.lobbies@[k as int].messages@;
                            assert forall|i: int| 0 <= i < g0.len() implies #[trigger] self.lobbies@[k as int].messages@[i] == g0[i] by {}
                            assert forall|q: int| 0 <= q < self.lobbies@.len() implies #[trigger] self.lobbies@[q].players == s0.lobbies@[q].players by {}
                        }
                        Some((k, ChatMessage { poster, message }))
                    },
                }
            },
        }
    }

    /// Tears down the connection of player `uuid`: it leaves a lobby that is still
    /// awaiting players (in a lobby that is starting or playing it stays, inactive,
    /// with its tiles), and leaves the registry. Nothing changes when it is not
    /// connected.
    pub fn disconnect(&mut self, uuid: &String)
        requires
            state_wf(*old(self)),
        ensures
            state_wf(*final(self)),
            statuses_follow(*old(self), *final(self)),
            !is_connected(final(self).players@, uuid@),
            final(self).global_chat_messages == old(self).global_chat_messages,
            !is_connected(old(self).players@, uuid@) ==> *final(self) == *old(self),
            is_connected(old(self).players@, uuid@) ==> {
                let j = player_index(old(self).players@, uuid@);
                let p = old(self).players@[j];
                &&& final(self).players@ == old(self).players@.remove(j)
                &&& final(self).lobbies@.len() == old(self).lobbies@.len()
                &&& forall|k: int| 0 <= k < old(self).lobbies@.len() ==> {
                    let l0 = #[trigger] old(self).lobbies@[k];
                    let l1 = final(self).lobbies@[k];
                    if p.playing_in_lobby == Some(k as usize) && l0.status == LobbyStatus::AwaitingPlayers {
                        &&& !is_member(l1.players@, uuid@)
                        &&& exists|i: int| crate::lobby::first_member(l0.players@, uuid@, i) && l1.players@ == l0.players@.remove(i)
                        &&& l1 == Lobby { players: l1.players, ..l0 }
                    } else {
                        l1 == l0
                    }
                }
            },
    {
        match find_player(&self.players, uuid) {
            None => {},
            Some(j) => {
                proof {
                    let jc = choose|q: int| first_player(self.players@, uuid@, q);
                    if jc < j {
                        assert(self.players@[jc].uuid@ != uuid@);
                    } else if jc > j {
                        assert(self.players@[j as int].uuid@ != uuid@);
                    }
                }
                let ghost s0 = *self;
                match self.players[j].playing_in_lobby {
                    Some(k) => {
                        if self.lobbies[k].status == LobbyStatus::AwaitingPlayers {
                            let found = find_member(&self.lobbies[k].players, uuid);
                            match found {
                                Some(i) => {
                                    let _ = self.lobbies[k].players.remove(i);
                                    proof {
                                        let m0 = s0.lobbies@[k as int].players@;
                                        let m1 = self.lobbies@[k as int].players@;
                                        assert forall|a: int, b: int| 0 <= a < m1.len() && 0 <= b < m1.len() && a != b implies #[trigger] m1[a].0@ != #[trigger] m1[b].0@ by {
                                            let a0 = if a < i { a } else { a + 1 };
                                            let b0 = if b < i { b } else { b + 1 };
                                            assert(m1[a] == m0[a0]);
                                            assert(m1[b] == m0[b0]);
                                        }
                                        assert(!is_member(m1, uuid@)) by {
                                            if is_member(m1, uuid@) {
                                                let a = choose|a: int| 0 <= a < m1.len() && #[trigger] m1[a].0@ == uuid@;
                                                let a0 = if a < i { a } else { a + 1 };
                                                assert(m1[a] == m0[a0]);
                                            }
                                        }
                                    }
                                },
                                None => {},
                            }
                        }
                    },
                    None => {},
                }
                let ghost s1 = *self;
                let _ = self.players.remove(j);
                proof {
                    let ps0 = s0.players@;
                    let ps1 = self.players@;
                    assert forall|a: int, b: int| 0 <= a < ps1.len() && 0 <= b < ps1.len() && a != b implies #[trigger] ps1[a].uuid@ != #[trigger] ps1[b].uuid@ by {
                        let a0 = if a < j { a } else { a + 1 };
                        let b0 = if b < j { b } else { b + 1 };
                        assert(ps1[a] == ps0[a0]);
                        assert(ps1[b] == ps0[b0]);
                    }
                    assert forall|a: int| 0 <= a < ps1.len() implies (#[trigger] ps1[a]).queued_moves@.len() <= MAX_QUEUED_MOVES by {
                        let a0 = if a < j { a } else { a + 1 };
                        assert(ps1[a] == ps0[a0]);
                    }
                    assert forall|a: int| 0 <= a < ps1.len() implies match (#[trigger] ps1[a]).playing_in_lobby {
                        Some(k) => k < self.lobbies@.len() && is_member(self.lobbies@[k as int].players@, ps1[a].uuid@),
                        None => true,
                    } by {
                        let a0 = if a < j { a } else { a + 1 };
                        assert(ps1[a] == ps0[a0]);
                        assert(ps0[a0].uuid@ != uuid@);
                        match ps1[a].playing_in_lobby {
                            Some(k) => {
                                let m0 = s0.lobbies@[k as int].players@;
                                let m1 = self.lobbies@[k as int].players@;
                                let w = choose|w: int| 0 <= w < m0.len() && #[trigger] m0[w].0@ == ps1[a].uuid@;
                                if m1 != m0 {
                                    let i = choose|i: int| crate::lobby::first_member(m0, uuid@, i) && m1 == m0.remove(i);
                                    let w1 = if w < i { w } else { w - 1 };
                                    assert(m1[w1] == m0[w]);
                                }
                            },
                            None => {},
                        }
                    }
                    assert(!is_connected(ps1, uuid@)) by {
                        if is_connected(ps1, uuid@) {
                            let a = choose|a: int| 0 <= a < ps1.len() && #[trigger] ps1[a].uuid@ == uuid@;
                            let a0 = if a < j { a } else { a + 1 };
                            assert(ps1[a] == ps0[a0]);
                        }
                    }
                    let p = ps0[j as int];
                    assert forall|k2: int| 0 <= k2 < s0.lobbies@.len() implies {
                        let l0 = #[trigger] s0.lobbies@[k2];
                        let l1 = self.lobbies@[k2];
                        if p.playing_in_lobby == Some(k2 as usize) && l0.status == LobbyStatus::AwaitingPlayers {
                            &&& !is_member(l1.players@, uuid@)
                            &&& exists|i: int| crate::lobby::first_member(l0.players@, uuid@, i) && l1.players@ == l0.players@.remove(i)
                            &&& l1 == Lobby { players: l1.players, ..l0 }
                        } else {
                            l1 == l0
                        }
                    } by {
                        if p.playing_in_lobby == Some(k2 as usize) && s0.lobbies@[k2].status == LobbyStatus::AwaitingPlayers {
                            assert(is_member(s0.lobbies@[k2].players@, uuid@));
                        }
                    }
                    assert forall|k2: int, i: int|
                        0 <= k2 < self.lobbies@.len() && self.lobbies@[k2].status == LobbyStatus::AwaitingPlayers && 0 <= i < self.lobbies@[k2].players@.len()
                            implies plays_in_lobby(ps1, (#[trigger] self.lobbies@[k2].players@[i]).0@, k2 as usize) by {
                        let m0 = s0.lobbies@[k2].players@;
                        let m1 = self.lobbies@[k2].players@;
                        let v = m1[i].0@;
                        if p.playing_in_lobby == Some(k2 as usize) && s0.lobbies@[k2].status == LobbyStatus::AwaitingPlayers {
                            let r = choose|r: int| crate::lobby::first_member(m0, uuid@, r) && m1 == m0.remove(r);
                            let i0 = if i < r { i } else { i + 1 };
                            assert(m1[i] == m0[i0]);
                            assert(plays_in_lobby(ps0, m0[i0].0@, k2 as usize));
                            assert(v != uuid@);
                        } else {
                            assert(m1 == m0);
                            assert(plays_in_lobby(ps0, m0[i].0@, k2 as usize));
                            if v == uuid@ {
                                let w = choose|w: int| 0 <= w < ps0.len() && #[trigger] ps0[w].uuid@ == v && ps0[w].playing_in_lobby == Some(k2 as usize);
                                assert(ps0[w].uuid@ == ps0[j as int].uuid@);
                            }
                        }
                        lemma_presence_kept_remove(ps0, j as int, v, k2 as usize);
                    }
                }
            },
        }
    }
}

/// A connected player who says it plays in lobby `k` is one of its members; and among
/// the lobbies that await players, at most one counts it as a member, the one it says
/// it plays in.
pub proof fn lemma_single_lobby_residence(s: AppState, j: int, k1: int, k2: int)
    requires
        state_wf(s),
        0 <= j < s.players@.len(),
        0 <= k1 < s.lobbies@.len(),
        0 <= k2 < s.lobbies@.len(),
    ensures
        s.players@[j].playing_in_lobby matches Some(k) ==> is_member(s.lobbies@[k as int].players@, s.players@[j].uuid@),
        s.lobbies@[k1].status == LobbyStatus::AwaitingPlayers && is_member(s.lobbies@[k1].players@, s.players@[j].uuid@)
            ==> s.players@[j].playing_in_lobby == Some(k1 as usize),
        s.lobbies@[k1].status == LobbyStatus::AwaitingPlayers && is_member(s.lobbies@[k1].players@, s.players@[j].uuid@)
            && s.lobbies@[k2].status == LobbyStatus::AwaitingPlayers && is_member(s.lobbies@[k2].players@, s.players@[j].uuid@)
            ==> k1 == k2,
{
    let u = s.players@[j].uuid@;
    let _ = s.players@[j];
    if s.lobbies@[k1].status == LobbyStatus::AwaitingPlayers && is_member(s.lobbies@[k1].players@, u) {
        let i = choose|i: int| 0 <= i < s.lobbies@[k1].players@.len() && #[trigger] s.lobbies@[k1].players@[i].0@ == u;
        assert(plays_in_lobby(s.players@, s.lobbies@[k1].players@[i].0@, k1 as usize));
        let w = choose|w: int| 0 <= w < s.players@.len() && #[trigger] s.players@[w].uuid@ == u && s.players@[w].playing_in_lobby == Some(k1 as usize);
        assert(w == j);
    }
    if s.lobbies@[k2].status == LobbyStatus::AwaitingPlayers && is_member(s.lobbies@[k2].players@, u) {
        let i = choose|i: int| 0 <= i < s.lobbies@[k2].players@.len() && #[trigger] s.lobbies@[k2].players@[i].0@ == u;
        assert(plays_in_lobby(s.players@, s.lobbies@[k2].players@[i].0@, k2 as usize));
        let w = choose|w: int| 0 <= w < s.players@.len() && #[trigger] s.players@[w].uuid@ == u && s.players@[w].playing_in_lobby == Some(k2 as usize);
        assert(w == j);
    }
}

/// The status that follows `a` in a lobby's cycle.
pub open spec fn next_status(a: LobbyStatus) -> LobbyStatus {
    match a {
        LobbyStatus::AwaitingPlayers => LobbyStatus::StartingSoon,
        LobbyStatus::StartingSoon => LobbyStatus::InGame,
        LobbyStatus::InGame => LobbyStatus::AwaitingPlayers,
    }
}

/// Every change of a lobby's status that an operation allows is one step along the
/// cycle awaiting → starting soon → in game → awaiting, so within a game the statuses
/// a lobby goes through are a prefix of that cycle.
pub proof fn lemma_status_steps_along_cycle(a: AppState, b: AppState, k: int)
    requires
        statuses_follow(a, b),
        0 <= k < a.lobbies@.len(),
    ensures
        b.lobbies@[k].status == a.lobbies@[k].status || b.lobbies@[k].status == next_status(a.lobbies@[k].status),
{
    assert(status_may_follow(a.lobbies@[k].status, b.lobbies@[k].status));
}

/// Asking twice in a row to join the same lobby: whatever the first request did, the
/// second is refused, so it changes nothing.
pub proof fn lemma_join_twice(s0: AppState, s1: AppState, u: Seq<char>, k: usize, now: i64)
    requires
        state_wf(s0),
        if join_allowed(s0, u, k) { joined(s0, s1, u, k, now) } else { s1 == s0 },
    ensures
        !join_allowed(s1, u, k),
{
    if join_allowed(s0, u, k) {
        let w = choose|w: int| 0 <= w < s0.players@.len() && #[trigger] s0.players@[w].uuid@ == u;
        assert forall|q: int| 0 <= q < w implies #[trigger] s0.players@[q].uuid@ != u by {}
        assert(first_player(s0.players@, u, w));
        let j = player_index(s0.players@, u);
        assert(first_player(s0.players@, u, j));
        assert(s1.players@[j].uuid == s0.players@[j].uuid);
        assert forall|q: int| 0 <= q < j implies #[trigger] s1.players@[q].uuid@ != u by {
            assert(s1.players@[q] == s0.players@[q]);
        }
        assert(first_player(s1.players@, u, j));
        let j1 = player_index(s1.players@, u);
        if j1 < j {
            assert(s1.players@[j1].uuid@ != u);
        } else if j1 > j {
            assert(s1.players@[j].uuid@ != u);
        }
    }
}

} // verus!
