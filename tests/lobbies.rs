use kingdoms::board::{TileStatus, TileType};
use kingdoms::lobby::LobbyStatus;
use kingdoms::messages::WsMessageToClient;
use kingdoms::player::{Color, PlayerMove};
use kingdoms::state::{global_lobbies_update, last_messages, AppState, LobbyStep};
use kingdoms::lobby::ChatMessage;

fn s(x: &str) -> String {
    x.to_string()
}

fn state_with(players: &[(&str, &str)]) -> AppState {
    let mut st = AppState::new();
    for (u, n) in players {
        assert!(st.connect(s(u), s(n)));
    }
    st
}

#[test]
fn new_state_has_four_lobbies() {
    let st = AppState::new();
    let caps: Vec<usize> = st.lobbies.iter().map(|l| l.player_capacity).collect();
    assert_eq!(caps, vec![2, 3, 1, 4]);
    assert!(st.lobbies.iter().all(|l| l.status == LobbyStatus::AwaitingPlayers && l.players.is_empty()));
    assert!(st.lobbies.iter().enumerate().all(|(k, l)| l.lobby_id == k));
}

#[test]
fn lobby_fill_triggers_countdown_then_start() {
    let mut st = state_with(&[("u1", "Ann"), ("u2", "Ben")]);
    let now = 1_700_000_000;
    assert!(st.join_lobby(&s("u1"), 0, now).is_some());
    assert_eq!(st.lobbies[0].status, LobbyStatus::AwaitingPlayers);
    assert!(st.join_lobby(&s("u2"), 0, now).is_some());
    let update = global_lobbies_update(&st);
    assert_eq!(update.lobbies[0].status, LobbyStatus::StartingSoon);
    assert_eq!(update.lobbies[0].next_starting_time, now + 3);
    assert_eq!(update.lobbies[0].player_names, vec![s("Ann"), s("Ben")]);
    assert_eq!(update.connected_players, vec![(s("Ann"), Some(0)), (s("Ben"), Some(0))]);
    assert!(matches!(st.step_lobby(0, now + 2), LobbyStep::Idle));
    assert_eq!(st.lobbies[0].status, LobbyStatus::StartingSoon);
    assert!(matches!(st.step_lobby(0, now + 3), LobbyStep::Started));
    assert_eq!(st.lobbies[0].status, LobbyStatus::InGame);
    assert_eq!(WsMessageToClient::GameStarted(0).scalar_frame().unwrap(), "/gameStarted 0");
    // each member got a kingdom under its cursor and a color of the palette
    assert_eq!(st.players[0].color, Color::Red);
    assert_eq!(st.players[1].color, Color::Blue);
    for p in &st.players {
        let t = &st.lobbies[0].board_game[p.xy.0][p.xy.1];
        assert_eq!(t.tile_type, TileType::Kingdom);
        assert_eq!(t.status, TileStatus::Occupied);
        assert_eq!(t.nb_troops, 1);
        assert_eq!(t.player_uuid.as_deref(), Some(p.uuid.as_str()));
    }
}

#[test]
fn join_twice_second_is_noop() {
    let mut st = state_with(&[("u1", "Ann")]);
    assert!(st.join_lobby(&s("u1"), 1, 10).is_some());
    assert!(st.join_lobby(&s("u1"), 1, 10).is_none());
    assert_eq!(st.lobbies[1].players.len(), 1);
    assert_eq!(st.players[0].playing_in_lobby, Some(1));
}

#[test]
fn join_refusals() {
    let mut st = state_with(&[("u1", "Ann"), ("u2", "Ben")]);
    assert!(st.join_lobby(&s("u1"), 4, 10).is_none());
    assert!(st.join_lobby(&s("nobody"), 0, 10).is_none());
    assert!(st.join_lobby(&s("u1"), 2, 10).is_some());
    // lobby 2 holds a single player and is now starting
    assert_eq!(st.lobbies[2].status, LobbyStatus::StartingSoon);
    assert!(st.join_lobby(&s("u2"), 2, 10).is_none());
}

#[test]
fn switching_lobby_leaves_the_old_one() {
    let mut st = state_with(&[("u1", "Ann")]);
    assert!(st.join_lobby(&s("u1"), 1, 10).is_some());
    assert!(st.join_lobby(&s("u1"), 3, 10).is_some());
    assert!(st.lobbies[1].players.is_empty());
    assert_eq!(st.lobbies[3].players, vec![(s("u1"), s("Ann"))]);
    assert_eq!(st.players[0].playing_in_lobby, Some(3));
    let in_lobbies = st.lobbies.iter().filter(|l| l.players.iter().any(|(u, _)| u == "u1")).count();
    assert_eq!(in_lobbies, 1);
}

#[test]
fn join_sends_last_lobby_messages() {
    let mut st = state_with(&[("u1", "Ann"), ("u2", "Ben")]);
    assert!(st.join_lobby(&s("u1"), 3, 10).is_some());
    for i in 0..5 {
        assert_eq!(st.send_lobby_message(&s("u1"), format!("m{}", i)).map(|(k, _)| k), Some(3));
    }
    let history = st.join_lobby(&s("u2"), 3, 10).unwrap();
    let texts: Vec<&str> = history.iter().map(|c| c.message.as_str()).collect();
    assert_eq!(texts, vec!["m2", "m3", "m4"]);
    assert!(history.iter().all(|c| c.poster == "Ann"));
}

#[test]
fn last_messages_of_short_log() {
    let log = vec![ChatMessage { poster: s("a"), message: s("x") }];
    assert_eq!(last_messages(&log, 3).len(), 1);
    assert_eq!(last_messages(&vec![], 3).len(), 0);
}

#[test]
fn global_chat_is_kept_and_synced() {
    let mut st = state_with(&[("u1", "Ann")]);
    for i in 0..4 {
        let m = st.send_global_message(s("Ann"), format!("g{}", i));
        match m {
            WsMessageToClient::GlobalChatNewMessage(c) => assert_eq!(c.message, format!("g{}", i)),
            _ => panic!("wrong message"),
        }
    }
    assert_eq!(st.global_chat_messages.len(), 4);
    match st.global_chat_sync() {
        WsMessageToClient::GlobalChatSync(h) => {
            assert_eq!(h.len(), 3);
            assert_eq!(h[0].message, "g1");
        }
        _ => panic!("wrong message"),
    }
}

#[test]
fn lobby_message_without_lobby_is_dropped() {
    let mut st = state_with(&[("u1", "Ann")]);
    assert!(st.send_lobby_message(&s("u1"), s("hi")).is_none());
    assert!(st.lobbies.iter().all(|l| l.messages.is_empty()));
}

#[test]
fn move_queue_is_bounded() {
    let mut st = state_with(&[("u1", "Ann")]);
    for _ in 0..20 {
        let m = st.queue_move(&s("u1"), PlayerMove::Up).unwrap();
        assert!(m.queued_moves.len() <= 12);
    }
    assert_eq!(st.players[0].queued_moves.len(), 12);
    assert!(st.queue_move(&s("ghost"), PlayerMove::Up).is_none());
}

#[test]
fn connect_twice_is_refused() {
    let mut st = state_with(&[("u1", "Ann")]);
    assert!(!st.connect(s("u1"), s("Ann")));
    assert_eq!(st.players.len(), 1);
    assert!(st.is_connected(&s("u1")));
}

#[test]
fn disconnect_while_awaiting_leaves_lobby() {
    let mut st = state_with(&[("u1", "Ann")]);
    assert!(st.join_lobby(&s("u1"), 1, 10).is_some());
    st.disconnect(&s("u1"));
    assert!(st.lobbies[1].players.is_empty());
    assert!(st.players.is_empty());
}

#[test]
fn disconnect_in_game_keeps_membership_and_ends_game() {
    let mut st = state_with(&[("u1", "Ann"), ("u2", "Ben")]);
    st.join_lobby(&s("u1"), 0, 10).unwrap();
    st.join_lobby(&s("u2"), 0, 10).unwrap();
    assert!(matches!(st.step_lobby(0, 20), LobbyStep::Started));
    st.disconnect(&s("u1"));
    assert_eq!(st.lobbies[0].players.len(), 2);
    st.disconnect(&s("u2"));
    assert_eq!(st.lobbies[0].players.len(), 2);
    match st.step_lobby(0, 21) {
        LobbyStep::Ticked { report, ended } => {
            assert!(ended);
            assert!(report.finished);
            assert!(report.winner.is_none());
        }
        _ => panic!("expected a tick"),
    }
    assert_eq!(st.lobbies[0].status, LobbyStatus::AwaitingPlayers);
    assert!(st.lobbies[0].players.is_empty());
    assert_eq!(st.lobbies[0].tick, 0);
}

#[test]
fn statuses_follow_the_cycle() {
    let mut st = state_with(&[("u1", "Ann")]);
    let mut seen = vec![st.lobbies[2].status];
    st.join_lobby(&s("u1"), 2, 100).unwrap();
    seen.push(st.lobbies[2].status);
    st.step_lobby(2, 103);
    seen.push(st.lobbies[2].status);
    st.disconnect(&s("u1"));
    let mut guard = 0;
    while st.lobbies[2].status == LobbyStatus::InGame && guard < 5 {
        st.step_lobby(2, 104);
        guard += 1;
    }
    seen.push(st.lobbies[2].status);
    assert_eq!(
        seen,
        vec![LobbyStatus::AwaitingPlayers, LobbyStatus::StartingSoon, LobbyStatus::InGame, LobbyStatus::AwaitingPlayers]
    );
}

#[test]
fn end_game_frees_players() {
    let mut st = state_with(&[("u1", "Ann")]);
    st.join_lobby(&s("u1"), 2, 0).unwrap();
    st.step_lobby(2, 5);
    assert_eq!(st.lobbies[2].status, LobbyStatus::InGame);
    st.end_lobby_game(2);
    assert_eq!(st.players[0].playing_in_lobby, None);
    assert_eq!(st.lobbies[2].status, LobbyStatus::AwaitingPlayers);
    assert!(st.lobbies[2].board_game.iter().flatten().all(|t| t.player_uuid.is_none()));
}

#[test]
fn join_now_sets_a_current_deadline() {
    let mut st = state_with(&[("u1", "Ann")]);
    assert!(st.join_lobby_now(&s("u1"), 2).is_some());
    assert!(st.lobbies[2].next_starting_time > 1_600_000_000);
    assert!(matches!(st.step_lobby_now(2), LobbyStep::Idle));
}
