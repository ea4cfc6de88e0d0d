use std::collections::VecDeque;

use kingdoms::board::{build_board, generate_board, Board, Tile, TileStatus, TileType};
use kingdoms::combat::{apply_assault, move_target, resolve_assault, OutcomeAssault};
use kingdoms::lobby::{Lobby, LobbyStatus};
use kingdoms::player::{Color, Player, PlayerMove};
use kingdoms::tick::{grow_troops, play_turn, tick_game};

fn blank_board(w: usize, h: usize) -> Board {
    build_board(w, h, &vec![], &vec![])
}

fn occupy(b: &mut Board, x: usize, y: usize, owner: &str, troops: usize, ty: TileType) {
    b[x][y] = Tile {
        status: TileStatus::Occupied,
        tile_type: ty,
        player_uuid: Some(owner.to_string()),
        nb_troops: troops,
    };
}

fn player(uuid: &str, name: &str, lobby: Option<usize>, xy: (usize, usize), moves: &[PlayerMove]) -> Player {
    let mut p = Player::connected(uuid.to_string(), name.to_string());
    p.playing_in_lobby = lobby;
    p.xy = xy;
    p.color = Color::Blue;
    p.queued_moves = moves.iter().copied().collect::<VecDeque<_>>();
    p
}

fn lobby_with(board: Board, members: &[(&str, &str)]) -> Lobby {
    Lobby {
        lobby_id: 0,
        status: LobbyStatus::InGame,
        next_starting_time: 0,
        player_capacity: 4,
        players: members.iter().map(|(u, n)| (u.to_string(), n.to_string())).collect(),
        messages: vec![],
        board_game: board,
        tick: 0,
    }
}

fn owner(t: &Tile) -> Option<&str> {
    t.player_uuid.as_deref()
}

#[test]
fn conquer_empty_after_one_tick() {
    let mut b = blank_board(10, 10);
    occupy(&mut b, 3, 3, "a", 5, TileType::Blank);
    let mut lobby = lobby_with(b, &[("a", "Alice")]);
    let mut players = vec![player("a", "Alice", Some(0), (3, 3), &[PlayerMove::Right])];
    let report = tick_game(&mut lobby, &mut players);
    assert_eq!(lobby.board_game[3][3].nb_troops, 1);
    assert_eq!(lobby.board_game[4][3].nb_troops, 4);
    assert_eq!(lobby.board_game[4][3].status, TileStatus::Occupied);
    assert_eq!(owner(&lobby.board_game[4][3]), Some("a"));
    assert_eq!(players[0].xy, (4, 3));
    assert!(players[0].queued_moves.is_empty());
    assert_eq!(lobby.tick, 1);
    assert_eq!(report.updates.len(), 1);
    assert_eq!(report.updates[0].1.tick, 1);
}

#[test]
fn kingdom_fall_cascades_to_all_tiles() {
    let mut b = blank_board(10, 10);
    occupy(&mut b, 2, 2, "a", 10, TileType::Kingdom);
    occupy(&mut b, 3, 2, "b", 3, TileType::Kingdom);
    occupy(&mut b, 5, 5, "b", 7, TileType::Blank);
    let mut lobby = lobby_with(b, &[("a", "Alice"), ("b", "Bob")]);
    let mut players = vec![
        player("a", "Alice", Some(0), (2, 2), &[PlayerMove::Right]),
        player("b", "Bob", Some(0), (3, 2), &[]),
    ];
    let report = tick_game(&mut lobby, &mut players);
    // both kingdoms grew by one before the attack: 10 attackers against 4 defenders
    assert_eq!(lobby.board_game[3][2].tile_type, TileType::Castle);
    assert_eq!(owner(&lobby.board_game[3][2]), Some("a"));
    assert_eq!(lobby.board_game[3][2].nb_troops, 6);
    assert_eq!(owner(&lobby.board_game[5][5]), Some("a"));
    assert_eq!(lobby.board_game[5][5].nb_troops, 7);
    assert_eq!(lobby.board_game[2][2].nb_troops, 1);
    for col in &lobby.board_game {
        for t in col {
            assert_ne!(owner(t), Some("b"));
        }
    }
    assert_eq!(players[0].xy, (3, 2));
    assert!(report.finished);
    assert_eq!(report.winner.as_deref(), Some("Alice"));
}

#[test]
fn tie_reduces_both_tiles() {
    let mut b = blank_board(6, 6);
    occupy(&mut b, 1, 1, "a", 5, TileType::Blank);
    occupy(&mut b, 1, 2, "b", 4, TileType::Blank);
    let mut p = player("a", "Alice", Some(0), (1, 1), &[PlayerMove::Down]);
    let out = play_turn(&mut b, &mut p);
    assert!(matches!(out, Some(OutcomeAssault::Tie)));
    assert_eq!(b[1][1].nb_troops, 1);
    assert_eq!(b[1][2].nb_troops, 0);
    assert_eq!(owner(&b[1][2]), Some("b"));
    assert_eq!(p.xy, (1, 1));
}

#[test]
fn stolen_tile_only_pops_the_move() {
    let mut b = blank_board(6, 6);
    occupy(&mut b, 2, 2, "c", 9, TileType::Blank);
    let mut p = player("a", "Alice", Some(0), (2, 2), &[PlayerMove::Left, PlayerMove::Up]);
    let out = play_turn(&mut b, &mut p);
    assert!(matches!(out, Some(OutcomeAssault::TileNotOwned)));
    assert_eq!(b[2][2].nb_troops, 9);
    assert_eq!(owner(&b[2][2]), Some("c"));
    assert_eq!(b[1][2].status, TileStatus::Empty);
    assert_eq!(p.queued_moves, VecDeque::from(vec![PlayerMove::Up]));
    assert_eq!(p.xy, (2, 2));
}

#[test]
fn disconnected_players_end_the_game() {
    let mut b = blank_board(6, 6);
    occupy(&mut b, 0, 0, "a", 3, TileType::Kingdom);
    occupy(&mut b, 5, 5, "b", 3, TileType::Kingdom);
    let mut lobby = lobby_with(b, &[("a", "Alice"), ("b", "Bob")]);
    let mut players: Vec<Player> = vec![];
    let report = tick_game(&mut lobby, &mut players);
    assert!(report.finished);
    assert!(report.winner.is_none());
    assert!(report.score_board.iter().all(|(_, s)| s.color == Color::Grey));
    assert_eq!(report.score_board[0].1.total_positions, 1);
    assert_eq!(report.score_board[0].1.total_troops, 4);
}

#[test]
fn nobody_left_on_the_board_announces_empty_winner() {
    let b = blank_board(5, 5);
    let mut lobby = lobby_with(b, &[("a", "Alice")]);
    let mut players = vec![player("a", "Alice", Some(0), (0, 0), &[])];
    let report = tick_game(&mut lobby, &mut players);
    assert!(report.finished);
    assert_eq!(report.winner.as_deref(), Some(""));
}

#[test]
fn game_goes_on_with_two_active_holders() {
    let mut b = blank_board(6, 6);
    occupy(&mut b, 0, 0, "a", 3, TileType::Kingdom);
    occupy(&mut b, 5, 5, "b", 3, TileType::Kingdom);
    let mut lobby = lobby_with(b, &[("a", "Alice"), ("b", "Bob")]);
    let mut players = vec![
        player("a", "Alice", Some(0), (0, 0), &[]),
        player("b", "Bob", Some(0), (5, 5), &[]),
    ];
    let report = tick_game(&mut lobby, &mut players);
    assert!(!report.finished);
    assert!(report.winner.is_none());
    assert_eq!(report.score_board[1].0, "Bob");
    assert_eq!(report.score_board[1].1.color, Color::Blue);
}

#[test]
fn own_move_keeps_troop_total() {
    let mut b = blank_board(6, 6);
    occupy(&mut b, 2, 2, "a", 8, TileType::Blank);
    occupy(&mut b, 3, 2, "a", 5, TileType::Blank);
    let mut p = player("a", "Alice", Some(0), (2, 2), &[PlayerMove::Right]);
    let out = play_turn(&mut b, &mut p);
    assert!(matches!(out, Some(OutcomeAssault::SelfTroopsMove)));
    assert_eq!(b[2][2].nb_troops + b[3][2].nb_troops, 13);
    assert_eq!(b[3][2].nb_troops, 12);
    assert_eq!(p.xy, (3, 2));
}

#[test]
fn edge_move_hits_the_same_tile() {
    let mut b = blank_board(4, 4);
    occupy(&mut b, 0, 3, "a", 8, TileType::Blank);
    let mut p = player("a", "Alice", Some(0), (0, 3), &[PlayerMove::Left, PlayerMove::Down]);
    assert!(matches!(play_turn(&mut b, &mut p), Some(OutcomeAssault::AttackingSameTile)));
    assert!(matches!(play_turn(&mut b, &mut p), Some(OutcomeAssault::AttackingSameTile)));
    assert_eq!(b[0][3].nb_troops, 8);
    assert_eq!(p.xy, (0, 3));
    assert_eq!(move_target((3, 1), PlayerMove::Right, 4, 4), (3, 1));
    assert_eq!(move_target((2, 0), PlayerMove::Up, 4, 4), (2, 0));
}

#[test]
fn single_troop_cannot_attack() {
    let mut b = blank_board(4, 4);
    occupy(&mut b, 1, 1, "a", 1, TileType::Blank);
    let out = resolve_assault(&"a".to_string(), &b, (1, 1), (2, 1));
    assert!(matches!(out, OutcomeAssault::NotEnoughTroops));
    apply_assault(&mut b, &"a".to_string(), (1, 1), (2, 1), &out);
    assert_eq!(b[1][1].nb_troops, 1);
    assert_eq!(b[2][1].status, TileStatus::Empty);
}

#[test]
fn mountain_blocks_and_castle_garrison_fights() {
    let mut b = build_board(5, 5, &vec![(2, 1)], &vec![(1, 2)]);
    occupy(&mut b, 1, 1, "a", 20, TileType::Blank);
    assert!(matches!(resolve_assault(&"a".to_string(), &b, (1, 1), (2, 1)), OutcomeAssault::BlockedByMountain));
    let out = resolve_assault(&"a".to_string(), &b, (1, 1), (1, 2));
    assert!(matches!(out, OutcomeAssault::VictoryCastle(4)));
    apply_assault(&mut b, &"a".to_string(), (1, 1), (1, 2), &out);
    assert_eq!(b[1][2].tile_type, TileType::Castle);
    assert_eq!(b[1][2].nb_troops, 4);
    assert_eq!(owner(&b[1][2]), Some("a"));
    let mut b2 = build_board(5, 5, &vec![], &vec![(1, 2)]);
    occupy(&mut b2, 1, 1, "a", 10, TileType::Blank);
    assert!(matches!(resolve_assault(&"a".to_string(), &b2, (1, 1), (1, 2)), OutcomeAssault::Defeat(6)));
}

#[test]
fn defeat_leaves_defender_with_difference() {
    let mut b = blank_board(4, 4);
    occupy(&mut b, 1, 1, "a", 4, TileType::Blank);
    occupy(&mut b, 1, 0, "b", 10, TileType::Blank);
    let mut p = player("a", "Alice", Some(0), (1, 1), &[PlayerMove::Up]);
    assert!(matches!(play_turn(&mut b, &mut p), Some(OutcomeAssault::Defeat(7))));
    assert_eq!(b[1][1].nb_troops, 1);
    assert_eq!(b[1][0].nb_troops, 7);
    assert_eq!(p.xy, (1, 1));
}

#[test]
fn cursor_stays_on_board() {
    let mut b = blank_board(3, 3);
    occupy(&mut b, 2, 2, "a", 50, TileType::Blank);
    let mut p = player("a", "Alice", Some(0), (2, 2), &[PlayerMove::Down, PlayerMove::Right, PlayerMove::Up, PlayerMove::Up, PlayerMove::Up]);
    for _ in 0..5 {
        play_turn(&mut b, &mut p);
        assert!(p.xy.0 < 3 && p.xy.1 < 3);
    }
    assert_eq!(p.xy, (2, 0));
}

#[test]
fn troops_grow_by_tile_type() {
    let mut b = blank_board(3, 1);
    occupy(&mut b, 0, 0, "a", 1, TileType::Kingdom);
    occupy(&mut b, 1, 0, "a", 1, TileType::Castle);
    occupy(&mut b, 2, 0, "a", 1, TileType::Blank);
    grow_troops(&mut b, 3);
    assert_eq!((b[0][0].nb_troops, b[1][0].nb_troops, b[2][0].nb_troops), (2, 2, 1));
    grow_troops(&mut b, 10);
    assert_eq!((b[0][0].nb_troops, b[1][0].nb_troops, b[2][0].nb_troops), (3, 2, 2));
}

#[test]
fn fog_shows_only_neighbourhood() {
    let mut b = build_board(5, 5, &vec![(4, 4)], &vec![(0, 4)]);
    occupy(&mut b, 0, 0, "a", 3, TileType::Kingdom);
    occupy(&mut b, 1, 1, "b", 2, TileType::Blank);
    let lobby = lobby_with(b, &[("a", "Alice"), ("b", "Bob")]);
    let view = kingdoms::tick::personal_board(&lobby.board_game, &lobby.players, &"a".to_string());
    assert!(!view[0][0].hidden);
    assert_eq!(view[1][1].player_name.as_deref(), Some("Bob"));
    assert_eq!(view[1][1].nb_troops, 2);
    assert!(view[2][2].hidden);
    assert!(view[4][4].hidden);
    assert_eq!(view[4][4].tile_type, TileType::Mountain);
    assert_eq!(view[0][4].tile_type, TileType::Mountain);
    assert_eq!(view[3][3].tile_type, TileType::Blank);
    assert_eq!(view[3][3].nb_troops, 0);
}

#[test]
fn generated_board_has_configured_size() {
    let b = generate_board();
    assert!(b.len() >= 18 && b.len() < 23);
    assert!(b[0].len() >= 18 && b[0].len() < 23);
    for col in &b {
        for t in col {
            assert_eq!(t.status, TileStatus::Empty);
            assert!(t.player_uuid.is_none());
            assert_ne!(t.tile_type, TileType::Kingdom);
        }
    }
}

#[test]
fn build_board_prefers_mountains_over_castles() {
    let b = build_board(3, 2, &vec![(0, 0)], &vec![(0, 0), (2, 1)]);
    assert_eq!(b.len(), 3);
    assert_eq!(b[0].len(), 2);
    assert_eq!(b[0][0].tile_type, TileType::Mountain);
    assert_eq!(b[2][1].tile_type, TileType::Castle);
    assert_eq!(b[2][1].nb_troops, 15);
    assert_eq!(b[1][1].tile_type, TileType::Blank);
}

#[test]
fn board_draws_are_spread_out() {
    let b = generate_board();
    let mountains = b.iter().flatten().filter(|t| t.tile_type == TileType::Mountain).count();
    let castles = b.iter().flatten().filter(|t| t.tile_type == TileType::Castle).count();
    assert!(mountains > 1);
    assert!(castles > 1);
    assert!(castles <= 15 && mountains <= 35);
}

#[test]
fn starting_spots_are_empty_and_spread_out() {
    let mut b = blank_board(20, 20);
    occupy(&mut b, 0, 0, "a", 1, TileType::Kingdom);
    let mut seen = std::collections::HashSet::new();
    for _ in 0..20 {
        let (x, y) = kingdoms::board::pick_available_starting_coordinates(&b).unwrap();
        assert_eq!(b[x][y].status, TileStatus::Empty);
        seen.insert((x, y));
    }
    assert!(seen.len() > 1);
    let mut full = blank_board(1, 1);
    occupy(&mut full, 0, 0, "a", 1, TileType::Kingdom);
    assert!(kingdoms::board::pick_available_starting_coordinates(&full).is_none());
}
