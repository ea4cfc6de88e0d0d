use kingdoms::commands::{parse_move, ClientCommand};
use kingdoms::errors::{ErrorCode, ServiceError, SqliteError};
use kingdoms::messages::{frame, parse_frame, MessageTag, WsMessageToClient};
use kingdoms::player::{Color, PlayerMove};
use kingdoms::requests::{availability_verdict, compose_playername, length_verdict};
use kingdoms::text::{parse_usize, usize_to_decimal};

#[test]
fn parses_commands() {
    assert!(matches!(ClientCommand::parse("/move left"), Some(ClientCommand::Move(PlayerMove::Left))));
    assert!(matches!(ClientCommand::parse("/move down"), Some(ClientCommand::Move(PlayerMove::Down))));
    assert!(matches!(ClientCommand::parse("/joinLobby 2"), Some(ClientCommand::JoinLobby(2))));
    assert!(matches!(ClientCommand::parse("/ping"), Some(ClientCommand::Ping)));
    match ClientCommand::parse("/sendGlobalMessage hello there") {
        Some(ClientCommand::SendGlobalMessage(t)) => assert_eq!(t, "hello there"),
        _ => panic!("not parsed"),
    }
    match ClientCommand::parse("/sendLobbyMessage ") {
        Some(ClientCommand::SendLobbyMessage(t)) => assert_eq!(t, ""),
        _ => panic!("not parsed"),
    }
    assert!("/ping".parse::<ClientCommand>().is_ok());
}

#[test]
fn rejects_malformed_commands() {
    assert!(ClientCommand::parse("/move").is_none());
    assert!(ClientCommand::parse("/move sideways").is_none());
    assert!(ClientCommand::parse("/joinLobby").is_none());
    assert!(ClientCommand::parse("/joinLobby -1").is_none());
    assert!(ClientCommand::parse("/joinLobby x").is_none());
    assert!(ClientCommand::parse("/sendLobbyMessage").is_none());
    assert!(ClientCommand::parse("/dance now").is_none());
    assert!(ClientCommand::parse("").is_none());
    assert!("/fly".parse::<ClientCommand>().is_err());
}

#[test]
fn parses_moves() {
    assert_eq!(parse_move("up"), Some(PlayerMove::Up));
    assert_eq!(parse_move("right"), Some(PlayerMove::Right));
    assert_eq!(parse_move("Up"), None);
    assert_eq!("left".parse::<PlayerMove>(), Ok(PlayerMove::Left));
}

#[test]
fn parses_unsigned_numbers_like_std() {
    for text in ["0", "7", "+5", "0042", "18446744073709551615", "", "+", "-1", "1 2", "18446744073709551616", "99999999999999999999"] {
        assert_eq!(parse_usize(text), text.parse::<usize>().ok(), "{}", text);
    }
}

#[test]
fn formats_numbers() {
    assert_eq!(usize_to_decimal(0), "0");
    assert_eq!(usize_to_decimal(907), "907");
    assert_eq!(usize_to_decimal(usize::MAX), usize::MAX.to_string());
}

#[test]
fn frames_round_trip() {
    assert_eq!(frame(MessageTag::Pong, ""), "/pong");
    assert_eq!(frame(MessageTag::GameUpdate, "{\"tick\":1}"), "/gameUpdate {\"tick\":1}");
    let tags = [
        MessageTag::Pong,
        MessageTag::JoinLobby,
        MessageTag::LobbiesUpdate,
        MessageTag::GlobalChatSync,
        MessageTag::GlobalChatNewMessage,
        MessageTag::LobbyChatSync,
        MessageTag::LobbyChatNewMessage,
        MessageTag::GameStarted,
        MessageTag::GameUpdate,
        MessageTag::WinnerAnnouncement,
        MessageTag::QueuedMoves,
    ];
    for t in tags {
        let payload = if t == MessageTag::Pong { "" } else { "[1, 2] x" };
        let (t2, p2) = parse_frame(&frame(t, payload)).unwrap();
        assert_eq!(t2, t);
        assert_eq!(p2, payload);
    }
    assert!(parse_frame("/unknown 1").is_none());
}

#[test]
fn scalar_messages_round_trip() {
    assert_eq!(WsMessageToClient::Pong.scalar_frame().unwrap(), "/pong");
    assert_eq!(WsMessageToClient::JoinLobby(3).scalar_frame().unwrap(), "/lobbyJoined 3");
    assert_eq!(WsMessageToClient::WinnerAnnouncement("".to_string()).scalar_frame().unwrap(), "/winnerIs ");
    let msgs = vec![
        WsMessageToClient::Pong,
        WsMessageToClient::JoinLobby(12),
        WsMessageToClient::GameStarted(0),
        WsMessageToClient::WinnerAnnouncement("#June 7".to_string()),
    ];
    for m in msgs {
        let text = m.scalar_frame().unwrap();
        let back = WsMessageToClient::from_scalar_frame(&text).unwrap();
        assert_eq!(format!("{:?}", back), format!("{:?}", m));
    }
    assert!(WsMessageToClient::GlobalChatSync(vec![]).scalar_frame().is_none());
    assert!(WsMessageToClient::from_scalar_frame("/lobbyJoined x").is_none());
}

#[test]
fn error_messages_and_codes() {
    assert_eq!(ServiceError::Internal.error_message(), "Internal error");
    assert_eq!(ServiceError::PlayerAlreadyExist.error_message(), "Player already exists");
    assert_eq!(ServiceError::Sqlite(SqliteError::NotFound).error_message(), "Sqlite internal error");
    assert_eq!(ServiceError::ForbiddenQuery.error_message(), "Query forbidden error");
    assert_eq!(ServiceError::Transaction.error_message(), "Transaction error");
    assert_eq!(ServiceError::PlayerAlreadyExist.status_code(), 422);
    assert_eq!(ServiceError::ForbiddenQuery.status_code(), 403);
    assert_eq!(ServiceError::Sqlite(SqliteError::Other("x".to_string())).status_code(), 500);
    let body = ServiceError::Transaction.response_body();
    assert_eq!(body.error_code, ErrorCode::UnspecifiedError);
    assert_eq!(body.error_message, "Transaction error");
}

#[test]
fn playername_rules() {
    let short = length_verdict("ab").unwrap();
    assert!(!short.is_valid);
    assert_eq!(short.reason.unwrap(), "player name is too short (2 characters), it should be at least 3");
    let long = length_verdict("abcdefghijklmnopqrs").unwrap();
    assert_eq!(long.reason.unwrap(), "player name is too long (19 characters), it should be at most 18");
    assert!(length_verdict("abc").is_none());
    assert!(length_verdict("abcdefghijklmnopqr").is_none());
    assert!(length_verdict("éèà").is_none());
    let taken = availability_verdict(true);
    assert!(!taken.is_valid);
    assert_eq!(taken.reason.unwrap(), "player name already exists");
    let free = availability_verdict(false);
    assert!(free.is_valid && free.reason.is_none());
}

#[test]
fn random_names_are_composed() {
    assert_eq!(compose_playername(0, 42), "#Sylvain42");
    assert_eq!(compose_playername(3, 99999), "#June99999");
}

#[test]
fn colors_are_handed_out_in_order() {
    assert_eq!(Color::pick_available_color(&[]), Some(Color::Red));
    assert_eq!(Color::pick_available_color(&[Color::Red, Color::Pink]), Some(Color::Blue));
    assert_eq!(
        Color::pick_available_color(&[Color::Red, Color::Blue, Color::Pink, Color::Green, Color::Yellow]),
        None
    );
}
