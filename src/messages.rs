//! Messages sent to clients, and the per-player view of a board.
use vstd::prelude::*;

use crate::board::{Tile, TileStatus, TileType, TileView};
use crate::lobby::{find_member, member_name, ChatMessage, LobbyStatus};
use crate::player::{Color, PlayerMoves};
use crate::text::{
    decimal_digits, is_first_space, lemma_usize_text_round_trip, parse_usize, same_text,
    split_at_space, split_once, usize_of, usize_to_decimal,
};
use vstd::string::*;

verus! {

/// Everything the server sends to a client.
#[derive(Debug)]
pub enum WsMessageToClient {
    Pong,
    JoinLobby(usize),
    LobbiesUpdate(LobbiesGeneralUpdate),
    GlobalChatSync(Vec<ChatMessage>),
    GlobalChatNewMessage(ChatMessage),
    LobbyChatSync(Vec<ChatMessage>),
    LobbyChatNewMessage(ChatMessage),
    /// The lobby whose game started.
    GameStarted(usize),
    GameUpdate(GameUpdate),
    WinnerAnnouncement(String),
    QueuedMoves(PlayerMoves),
}

/// Snapshot of every lobby and of who is connected.
#[derive(Debug)]
pub struct LobbiesGeneralUpdate {
    pub lobbies: Vec<LobbyGeneralUpdate>,
    /// (name, lobby the player is in)
    pub connected_players: Vec<(String, Option<usize>)>,
}

#[derive(Debug)]
pub struct LobbyGeneralUpdate {
    pub player_capacity: usize,
    pub player_names: Vec<String>,
    pub status: LobbyStatus,
    /// Unix time in seconds.
    pub next_starting_time: i64,
}

/// What one player sees after a tick.
#[derive(Debug)]
pub struct GameUpdate {
    pub board_game: Vec<Vec<TileUpdate>>,
    /// Scores by player name.
    pub score_board: Vec<(String, PlayerScore)>,
    pub moves: PlayerMoves,
    pub tick: usize,
}

/// One tile as a player sees it.
#[derive(Debug)]
pub struct TileUpdate {
    pub status: TileStatus,
    pub tile_type: TileType,
    pub player_name: Option<String>,
    pub nb_troops: usize,
    pub hidden: bool,
}

pub struct TileUpdateView {
    pub status: TileStatus,
    pub tile_type: TileType,
    pub player_name: Option<Seq<char>>,
    pub nb_troops: usize,
    pub hidden: bool,
}

impl View for TileUpdate {
    type V = TileUpdateView;

    open spec fn view(&self) -> TileUpdateView {
        TileUpdateView {
            status: self.status,
            tile_type: self.tile_type,
            player_name: crate::board::opt_view(self.player_name),
            nb_troops: self.nb_troops,
            hidden: self.hidden,
        }
    }
}

/// A tile shown as it is, its owner named after the lobby's members.
pub open spec fn revealed(t: TileView, members: Seq<(String, String)>) -> TileUpdateView {
    TileUpdateView {
        status: t.status,
        tile_type: t.tile_type,
        player_name: match t.owner {
            Some(u) => member_name(members, u),
            None => None,
        },
        nb_troops: t.troops,
        hidden: false,
    }
}

/// A tile under the fog: only blank ground is told apart from everything else.
pub open spec fn fogged(t: TileView) -> TileUpdateView {
    TileUpdateView {
        status: TileStatus::Empty,
        tile_type: if t.tile_type == TileType::Blank { TileType::Blank } else { TileType::Mountain },
        player_name: None,
        nb_troops: 0,
        hidden: true,
    }
}

impl TileUpdate {
    /// The fogged view of `tile`.
    pub fn hidden_tile(tile: &Tile) -> (u: TileUpdate)
        ensures
            u@ == fogged(tile@),
    {
        TileUpdate {
            status: TileStatus::Empty,
            tile_type: match tile.tile_type {
                TileType::Blank => TileType::Blank,
                _ => TileType::Mountain,
            },
            player_name: None,
            nb_troops: 0,
            hidden: true,
        }
    }

    /// Shows `tile` as it is, naming its owner after the lobby's members (no name when
    /// the owner is not one of them).
    pub fn from_game_tile(&mut self, tile: &Tile, lobby_players: &Vec<(String, String)>)
        ensures
            final(self)@ == revealed(tile@, lobby_players@),
    {
        self.status = tile.status;
        self.tile_type = tile.tile_type;
        self.player_name = None;
        self.nb_troops = tile.nb_troops;
        self.hidden = false;
        if let Some(player_uuid) = &tile.player_uuid {
            match find_member(lobby_players, player_uuid) {
                Some(i) => {
                    self.player_name = Some(lobby_players[i].1.clone());
                },
                None => {},
            }
        }
    }
}

/// A player's standing on the scoreboard.
#[derive(Debug, Clone, Copy, PartialEq, Eq)]
pub struct PlayerScore {
    pub total_troops: usize,
    pub total_positions: usize,
    pub color: Color,
}

/// The kind of a message to a client; each kind has its own verb on the wire.
#[derive(Debug, Clone, Copy, PartialEq, Eq, Structural)]
pub enum MessageTag {
    Pong,
    JoinLobby,
    LobbiesUpdate,
    GlobalChatSync,
    GlobalChatNewMessage,
    LobbyChatSync,
    LobbyChatNewMessage,
    GameStarted,
    GameUpdate,
    WinnerAnnouncement,
    QueuedMoves,
}

pub open spec fn verb_text(t: MessageTag) -> Seq<char> {
    match t {
        MessageTag::Pong => "/pong"@,
        MessageTag::JoinLobby => "/lobbyJoined"@,
        MessageTag::LobbiesUpdate => "/lobbiesGeneralUpdate"@,
        MessageTag::GlobalChatSync => "/globalChatSync"@,
        MessageTag::GlobalChatNewMessage => "/globalChatNewMessage"@,
        MessageTag::LobbyChatSync => "/lobbyChatSync"@,
        MessageTag::LobbyChatNewMessage => "/lobbyChatNewMessage"@,
        MessageTag::GameStarted => "/gameStarted"@,
        MessageTag::GameUpdate => "/gameUpdate"@,
        MessageTag::WinnerAnnouncement => "/winnerIs"@,
        MessageTag::QueuedMoves => "/myMoves"@,
    }
}

/// The kind whose verb is `v`.
pub open spec fn tag_of_verb(v: Seq<char>) -> Option<MessageTag> {
    if v == "/pong"@ {
        Some(MessageTag::Pong)
    } else if v == "/lobbyJoined"@ {
        Some(MessageTag::JoinLobby)
    } else if v == "/lobbiesGeneralUpdate"@ {
        Some(MessageTag::LobbiesUpdate)
    } else if v == "/globalChatSync"@ {
        Some(MessageTag::GlobalChatSync)
    } else if v == "/globalChatNewMessage"@ {
        Some(MessageTag::GlobalChatNewMessage)
    } else if v == "/lobbyChatSync"@ {
        Some(MessageTag::LobbyChatSync)
    } else if v == "/lobbyChatNewMessage"@ {
        Some(MessageTag::LobbyChatNewMessage)
    } else if v == "/gameStarted"@ {
        Some(MessageTag::GameStarted)
    } else if v == "/gameUpdate"@ {
        Some(MessageTag::GameUpdate)
    } else if v == "/winnerIs"@ {
        Some(MessageTag::WinnerAnnouncement)
    } else if v == "/myMoves"@ {
        Some(MessageTag::QueuedMoves)
    } else {
        None
    }
}

/// A frame: the verb alone for a pong, else the verb, a space and the payload.
pub open spec fn frame_text(t: MessageTag, payload: Seq<char>) -> Seq<char> {
    if t == MessageTag::Pong {
        verb_text(t)
    } else {
        verb_text(t) + seq![' '] + payload
    }
}

/// The kind and payload of a frame (an empty payload when there is no space).
pub open spec fn read_frame(s: Seq<char>) -> Option<(MessageTag, Seq<char>)> {
    let (verb, tail) = split_once(s);
    match tag_of_verb(verb) {
        Some(t) => Some((
            t,
            match tail {
                Some(p) => p,
                None => Seq::empty(),
            },
        )),
        None => None,
    }
}

impl MessageTag {
    pub fn verb(&self) -> (v: &'static str)
        ensures
            v@ == verb_text(*self),
    {
        match self {
            MessageTag::Pong => "/pong",
            MessageTag::JoinLobby => "/lobbyJoined",
            MessageTag::LobbiesUpdate => "/lobbiesGeneralUpdate",
            MessageTag::GlobalChatSync => "/globalChatSync",
            MessageTag::GlobalChatNewMessage => "/globalChatNewMessage",
            MessageTag::LobbyChatSync => "/lobbyChatSync",
            MessageTag::LobbyChatNewMessage => "/lobbyChatNewMessage",
            MessageTag::GameStarted => "/gameStarted",
            MessageTag::GameUpdate => "/gameUpdate",
            MessageTag::WinnerAnnouncement => "/winnerIs",
            MessageTag::QueuedMoves => "/myMoves",
        }
    }

    /// The kind whose verb is `v`.
    pub fn from_verb(v: &str) -> (r: Option<MessageTag>)
        ensures
            r == tag_of_verb(v@),
    {
        if same_text(v, "/pong") {
            Some(MessageTag::Pong)
        } else if same_text(v, "/lobbyJoined") {
            Some(MessageTag::JoinLobby)
        } else if same_text(v, "/lobbiesGeneralUpdate") {
            Some(MessageTag::LobbiesUpdate)
        } else if same_text(v, "/globalChatSync") {
            Some(MessageTag::GlobalChatSync)
        } else if same_text(v, "/globalChatNewMessage") {
            Some(MessageTag::GlobalChatNewMessage)
        } else if same_text(v, "/lobbyChatSync") {
            Some(MessageTag::LobbyChatSync)
        } else if same_text(v, "/lobbyChatNewMessage") {
            Some(MessageTag::LobbyChatNewMessage)
        } else if same_text(v, "/gameStarted") {
            Some(MessageTag::GameStarted)
        } else if same_text(v, "/gameUpdate") {
            Some(MessageTag::GameUpdate)
        } else if same_text(v, "/winnerIs") {
            Some(MessageTag::WinnerAnnouncement)
        } else if same_text(v, "/myMoves") {
            Some(MessageTag::QueuedMoves)
        } else {
            None
        }
    }
}

/// Writes a frame of kind `tag` around `payload` (a pong carries none).
pub fn frame(tag: MessageTag, payload: &str) -> (r: String)
    ensures
        r@ == frame_text(tag, payload@),
{
    let mut r = String::from_str(tag.verb());
    if tag != MessageTag::Pong {
        proof {
            reveal_strlit(" ");
        }
        r.append(" ");
        r.append(payload);
    }
    r
}

/// Reads the kind and payload of a frame; `None` for an unknown verb.
pub fn parse_frame(text: &str) -> (r: Option<(MessageTag, String)>)
    ensures
        match r {
            Some((t, p)) => read_frame(text@) == Some((t, p@)),
            None => read_frame(text@) is None,
        },
{
    let (verb, tail) = split_at_space(text);
    match MessageTag::from_verb(verb.as_str()) {
        Some(t) => {
            let payload = match tail {
                Some(p) => p,
                None => String::new(),
            };
            Some((t, payload))
        },
        None => None,
    }
}

proof fn lemma_verbs() 
    ensures
        forall|t: MessageTag| #![auto] tag_of_verb(verb_text(t)) == Some(t),
        forall|t: MessageTag, i: int| 0 <= i < verb_text(t).len() ==> #[trigger] verb_text(t)[i] != ' ',
{
    reveal_strlit("/pong");
    reveal_strlit("/lobbyJoined");
    reveal_strlit("/lobbiesGeneralUpdate");
    reveal_strlit("/globalChatSync");
    reveal_strlit("/globalChatNewMessage");
    reveal_strlit("/lobbyChatSync");
    reveal_strlit("/lobbyChatNewMessage");
    reveal_strlit("/gameStarted");
    reveal_strlit("/gameUpdate");
    reveal_strlit("/winnerIs");
    reveal_strlit("/myMoves");
    assert("/pong"@.len() == 5 && "/pong"@[1] == 'p' && "/pong"@[4] == 'g');
    assert("/lobbyJoined"@.len() == 12 && "/lobbyJoined"@[1] == 'l' && "/lobbyJoined"@[11] == 'd');
    assert("/lobbiesGeneralUpdate"@.len() == 21 && "/lobbiesGeneralUpdate"@[1] == 'l' && "/lobbiesGeneralUpdate"@[20] == 'e');
    assert("/globalChatSync"@.len() == 15 && "/globalChatSync"@[1] == 'g' && "/globalChatSync"@[14] == 'c');
    assert("/globalChatNewMessage"@.len() == 21 && "/globalChatNewMessage"@[1] == 'g' && "/globalChatNewMessage"@[20] == 'e');
    assert("/lobbyChatSync"@.len() == 14 && "/lobbyChatSync"@[1] == 'l' && "/lobbyChatSync"@[13] == 'c');
    assert("/lobbyChatNewMessage"@.len() == 20 && "/lobbyChatNewMessage"@[1] == 'l' && "/lobbyChatNewMessage"@[19] == 'e');
    assert("/gameStarted"@.len() == 12 && "/gameStarted"@[1] == 'g' && "/gameStarted"@[11] == 'd');
    assert("/gameUpdate"@.len() == 11 && "/gameUpdate"@[1] == 'g' && "/gameUpdate"@[10] == 'e');
    assert("/winnerIs"@.len() == 9 && "/winnerIs"@[1] == 'w' && "/winnerIs"@[8] == 's');
    assert("/myMoves"@.len() == 8 && "/myMoves"@[1] == 'm' && "/myMoves"@[7] == 's');
    assert forall|t: MessageTag| #![auto] tag_of_verb(verb_text(t)) == Some(t) by {
        match t {
            _ => {},
        }
    }
}

/// Reading a frame gives back the kind and payload it was written with, for every kind
/// of message (a pong has no payload).
pub proof fn lemma_frame_round_trip(t: MessageTag, payload: Seq<char>)
    requires
        t == MessageTag::Pong ==> payload.len() == 0,
    ensures
        read_frame(frame_text(t, payload)) == Some((t, payload)),
{
    lemma_verbs();
    let v = verb_text(t);
    let f = frame_text(t, payload);
    if t == MessageTag::Pong {
        assert(!crate::text::has_space(f)) by {
            if crate::text::has_space(f) {
                let i = choose|i: int| 0 <= i < f.len() && f[i] == ' ';
                assert(v[i] != ' ');
            }
        }
    } else {
        assert(f[v.len() as int] == ' ');
        assert forall|k: int| 0 <= k < v.len() implies #[trigger] f[k] != ' ' by {
            assert(f[k] == v[k]);
        }
        assert(is_first_space(f, v.len() as int));
        let i = choose|i: int| is_first_space(f, i);
        if i < v.len() {
            assert(f[i] == v[i]);
        }
        assert(i == v.len());
        assert(f.subrange(0, i) =~= v);
        assert(f.subrange(i + 1, f.len() as int) =~= payload);
    }
}

/// Messages whose payload is a number or a plain name rather than a document.
pub enum ScalarMessage {
    Pong,
    JoinLobby(usize),
    GameStarted(usize),
    WinnerAnnouncement(Seq<char>),
}

/// The frame of a scalar message.
pub open spec fn scalar_text(m: ScalarMessage) -> Seq<char> {
    match m {
        ScalarMessage::Pong => frame_text(MessageTag::Pong, Seq::empty()),
        ScalarMessage::JoinLobby(k) => frame_text(MessageTag::JoinLobby, decimal_digits(k as nat)),
        ScalarMessage::GameStarted(k) => frame_text(MessageTag::GameStarted, decimal_digits(k as nat)),
        ScalarMessage::WinnerAnnouncement(n) => frame_text(MessageTag::WinnerAnnouncement, n),
    }
}

/// The scalar message that a frame holds, if any.
pub open spec fn read_scalar(s: Seq<char>) -> Option<ScalarMessage> {
    match read_frame(s) {
        Some((MessageTag::Pong, _)) => Some(ScalarMessage::Pong),
        Some((MessageTag::JoinLobby, p)) => match usize_of(p) {
            Some(k) => Some(ScalarMessage::JoinLobby(k)),
            None => None,
        },
        Some((MessageTag::GameStarted, p)) => match usize_of(p) {
            Some(k) => Some(ScalarMessage::GameStarted(k)),
            None => None,
        },
        Some((MessageTag::WinnerAnnouncement, p)) => Some(ScalarMessage::WinnerAnnouncement(p)),
        _ => None,
    }
}

/// A scalar message read back from its frame is the message itself.
pub proof fn lemma_scalar_round_trip(m: ScalarMessage)
    ensures
        read_scalar(scalar_text(m)) == Some(m),
{
    match m {
        ScalarMessage::Pong => {
            lemma_frame_round_trip(MessageTag::Pong, Seq::empty());
        },
        ScalarMessage::JoinLobby(k) => {
            lemma_frame_round_trip(MessageTag::JoinLobby, decimal_digits(k as nat));
            lemma_usize_text_round_trip(k);
        },
        ScalarMessage::GameStarted(k) => {
            lemma_frame_round_trip(MessageTag::GameStarted, decimal_digits(k as nat));
            lemma_usize_text_round_trip(k);
        },
        ScalarMessage::WinnerAnnouncement(n) => {
            lemma_frame_round_trip(MessageTag::WinnerAnnouncement, n);
        },
    }
}

impl WsMessageToClient {
    /// The kind of the message.
    pub fn tag(&self) -> (t: MessageTag)
        ensures
            t == match self {
                WsMessageToClient::Pong => MessageTag::Pong,
                WsMessageToClient::JoinLobby(_) => MessageTag::JoinLobby,
                WsMessageToClient::LobbiesUpdate(_) => MessageTag::LobbiesUpdate,
                WsMessageToClient::GlobalChatSync(_) => MessageTag::GlobalChatSync,
                WsMessageToClient::GlobalChatNewMessage(_) => MessageTag::GlobalChatNewMessage,
                WsMessageToClient::LobbyChatSync(_) => MessageTag::LobbyChatSync,
                WsMessageToClient::LobbyChatNewMessage(_) => MessageTag::LobbyChatNewMessage,
                WsMessageToClient::GameStarted(_) => MessageTag::GameStarted,
                WsMessageToClient::GameUpdate(_) => MessageTag::GameUpdate,
                WsMessageToClient::WinnerAnnouncement(_) => MessageTag::WinnerAnnouncement,
                WsMessageToClient::QueuedMoves(_) => MessageTag::QueuedMoves,
            },
    {
        match self {
            WsMessageToClient::Pong => MessageTag::Pong,
            WsMessageToClient::JoinLobby(_) => MessageTag::JoinLobby,
            WsMessageToClient::LobbiesUpdate(_) => MessageTag::LobbiesUpdate,
            WsMessageToClient::GlobalChatSync(_) => MessageTag::GlobalChatSync,
            WsMessageToClient::GlobalChatNewMessage(_) => MessageTag::GlobalChatNewMessage,
            WsMessageToClient::LobbyChatSync(_) => MessageTag::LobbyChatSync,
            WsMessageToClient::LobbyChatNewMessage(_) => MessageTag::LobbyChatNewMessage,
            WsMessageToClient::GameStarted(_) => MessageTag::GameStarted,
            WsMessageToClient::GameUpdate(_) => MessageTag::GameUpdate,
            WsMessageToClient::WinnerAnnouncement(_) => MessageTag::WinnerAnnouncement,
            WsMessageToClient::QueuedMoves(_) => MessageTag::QueuedMoves,
        }
    }

    /// The frame of a message whose payload is a number or a name; `None` for the
    /// messages whose payload is a document.
    pub fn scalar_frame(&self) -> (r: Option<String>)
        ensures
            match self {
                WsMessageToClient::Pong => r matches Some(f) && f@ == scalar_text(ScalarMessage::Pong),
                WsMessageToClient::JoinLobby(k) => r matches Some(f) && f@ == scalar_text(ScalarMessage::JoinLobby(*k)),
                WsMessageToClient::GameStarted(k) => r matches Some(f) && f@ == scalar_text(ScalarMessage::GameStarted(*k)),
                WsMessageToClient::WinnerAnnouncement(n) => r matches Some(f) && f@ == scalar_text(ScalarMessage::WinnerAnnouncement(n@)),
                _ => r is None,
            },
    {
        match self {
            WsMessageToClient::Pong => Some(frame(MessageTag::Pong, "")),
            WsMessageToClient::JoinLobby(k) => Some(frame(MessageTag::JoinLobby, usize_to_decimal(*k).as_str())),
            WsMessageToClient::GameStarted(k) => Some(frame(MessageTag::GameStarted, usize_to_decimal(*k).as_str())),
            WsMessageToClient::WinnerAnnouncement(n) => Some(frame(MessageTag::WinnerAnnouncement, n.as_str())),
            _ => None,
        }
    }

    /// Reads back a message whose payload is a number or a name.
    pub fn from_scalar_frame(text: &str) -> (r: Option<WsMessageToClient>)
        ensures
            match read_scalar(text@) {
                Some(ScalarMessage::Pong) => r matches Some(WsMessageToClient::Pong),
                Some(ScalarMessage::JoinLobby(k)) => r matches Some(WsMessageToClient::JoinLobby(k1)) && k1 == k,
                Some(ScalarMessage::GameStarted(k)) => r matches Some(WsMessageToClient::GameStarted(k1)) && k1 == k,
                Some(ScalarMessage::WinnerAnnouncement(n)) => r matches Some(WsMessageToClient::WinnerAnnouncement(n1)) && n1@ == n,
                None => r is None,
            },
    {
        match parse_frame(text) {
            Some((MessageTag::Pong, _)) => Some(WsMessageToClient::Pong),
            Some((MessageTag::JoinLobby, p)) => match parse_usize(p.as_str()) {
                Some(k) => Some(WsMessageToClient::JoinLobby(k)),
                None => None,
            },
            Some((MessageTag::GameStarted, p)) => match parse_usize(p.as_str()) {
                Some(k) => Some(WsMessageToClient::GameStarted(k)),
                None => None,
            },
            Some((MessageTag::WinnerAnnouncement, p)) => Some(WsMessageToClient::WinnerAnnouncement(p)),
            _ => None,
        }
    }
}

} // verus!
