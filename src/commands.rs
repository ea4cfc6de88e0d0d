//! Commands that clients send, as text lines `<verb> <tail>`.
use vstd::prelude::*;

use crate::player::PlayerMove;
use crate::text::{parse_usize, same_text, split_at_space, split_once, usize_of};

verus! {

/// A command of a client.
#[derive(Debug)]
pub enum ClientCommand {
    Move(PlayerMove),
    JoinLobby(usize),
    SendGlobalMessage(String),
    SendLobbyMessage(String),
    Ping,
}

/// `ClientCommand` with texts as character sequences.
pub enum Command {
    Move(PlayerMove),
    JoinLobby(usize),
    SendGlobalMessage(Seq<char>),
    SendLobbyMessage(Seq<char>),
    Ping,
}

impl View for ClientCommand {
    type V = Command;

    open spec fn view(&self) -> Command {
        match self {
            ClientCommand::Move(m) => Command::Move(*m),
            ClientCommand::JoinLobby(k) => Command::JoinLobby(*k),
            ClientCommand::SendGlobalMessage(t) => Command::SendGlobalMessage(t@),
            ClientCommand::SendLobbyMessage(t) => Command::SendLobbyMessage(t@),
            ClientCommand::Ping => Command::Ping,
        }
    }
}

/// The direction that a keyword names.
pub open spec fn move_of(s: Seq<char>) -> Option<PlayerMove> {
    if s == "left"@ {
        Some(PlayerMove::Left)
    } else if s == "right"@ {
        Some(PlayerMove::Right)
    } else if s == "up"@ {
        Some(PlayerMove::Up)
    } else if s == "down"@ {
        Some(PlayerMove::Down)
    } else {
        None
    }
}

/// Reads a direction keyword: `left`, `right`, `up` or `down`.
pub fn parse_move(input: &str) -> (r: Option<PlayerMove>)
    ensures
        r == move_of(input@),
{
    if same_text(input, "left") {
        Some(PlayerMove::Left)
    } else if same_text(input, "right") {
        Some(PlayerMove::Right)
    } else if same_text(input, "up") {
        Some(PlayerMove::Up)
    } else if same_text(input, "down") {
        Some(PlayerMove::Down)
    } else {
        None
    }
}

impl std::str::FromStr for PlayerMove {
    type Err = ();

    fn from_str(input: &str) -> Result<PlayerMove, ()> {
        match parse_move(input) {
            Some(m) => Ok(m),
            None => Err(()),
        }
    }
}

/// The command that line `s` stands for: its verb is what comes before the first
/// space, its tail what comes after.
pub open spec fn command_of(s: Seq<char>) -> Option<Command> {
    let (verb, tail) = split_once(s);
    if verb == "/move"@ {
        match tail {
            Some(t) => match move_of(t) {
                Some(m) => Some(Command::Move(m)),
                None => None,
            },
            None => None,
        }
    } else if verb == "/joinLobby"@ {
        match tail {
            Some(t) => match usize_of(t) {
                Some(k) => Some(Command::JoinLobby(k)),
                None => None,
            },
            None => None,
        }
    } else if verb == "/ping"@ {
        Some(Command::Ping)
    } else if verb == "/sendGlobalMessage"@ {
        match tail {
            Some(t) => Some(Command::SendGlobalMessage(t)),
            None => None,
        }
    } else if verb == "/sendLobbyMessage"@ {
        match tail {
            Some(t) => Some(Command::SendLobbyMessage(t)),
            None => None,
        }
    } else {
        None
    }
}

impl ClientCommand {
    /// Reads a command line; `None` for an unknown verb or a malformed tail.
    pub fn parse(msg: &str) -> (r: Option<ClientCommand>)
        ensures
            match r {
                Some(c) => command_of(msg@) == Some(c@),
                None => command_of(msg@) is None,
            },
    {
        let (verb, tail) = split_at_space(msg);
        if same_text(verb.as_str(), "/move") {
            match tail {
                Some(t) => match parse_move(t.as_str()) {
                    Some(m) => Some(ClientCommand::Move(m)),
                    None => None,
                },
                None => None,
            }
        } else if same_text(verb.as_str(), "/joinLobby") {
            match tail {
                Some(t) => match parse_usize(t.as_str()) {
                    Some(k) => Some(ClientCommand::JoinLobby(k)),
                    None => None,
                },
                None => None,
            }
        } else if same_text(verb.as_str(), "/ping") {
            Some(ClientCommand::Ping)
        } else if same_text(verb.as_str(), "/sendGlobalMessage") {
            match tail {
                Some(t) => Some(ClientCommand::SendGlobalMessage(t)),
                None => None,
            }
        } else if same_text(verb.as_str(), "/sendLobbyMessage") {
            match tail {
                Some(t) => Some(ClientCommand::SendLobbyMessage(t)),
                None => None,
            }
        } else {
            None
        }
    }
}

impl std::str::FromStr for ClientCommand {
    type Err = ();

    fn from_str(msg: &str) -> Result<ClientCommand, ()> {
        match ClientCommand::parse(msg) {
            Some(c) => Ok(c),
            None => Err(()),
        }
    }
}

} // verus!
