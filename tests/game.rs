use webgame_server::board::Board;
use webgame_server::game::Game;
use webgame_server::protocol::{
    Character, Delivery, Message, PlayerInfo, PlayerRole, Team, Turn,
};

fn words(n: usize) -> Vec<String> {
    (0..n).map(|i| format!("word{}", i)).collect()
}

fn fixed_board(starting: Team) -> Board {
    let w = words(25);
    let picks: Vec<usize> = (0..25).collect();
    Board::from_parts(&w, &picks, &Board::deck(starting), starting)
}

fn info(id: u128, name: &str) -> PlayerInfo {
    PlayerInfo { id, nickname: name.to_string() }
}

fn game_with(ids: &[u128]) -> Game {
    let mut g = Game::new(77, "BCDFGH".to_string(), fixed_board(Team::Red));
    for id in ids {
        assert!(g.add_player(info(*id, "p")).is_some());
    }
    g
}

fn entry(g: &Game, id: u128) -> (Option<Team>, PlayerRole, bool) {
    let e = g.players().iter().find(|e| e.player.id == id).unwrap();
    (e.team, e.role, e.ready)
}

fn spymasters(g: &Game, team: Team) -> usize {
    g.players().iter().filter(|e| e.team == Some(team) && e.role == PlayerRole::Spymaster).count()
}

#[test]
fn new_game_is_an_empty_pregame() {
    let g = Game::new(5, "BCDFGH".to_string(), fixed_board(Team::Blue));
    assert_eq!(g.id(), 5);
    assert_eq!(g.join_code(), "BCDFGH");
    assert!(g.is_joinable());
    assert!(g.is_empty());
    let info = g.game_info();
    assert_eq!(info.game_id, 5);
    assert_eq!(info.join_code, "BCDFGH");
}

#[test]
fn players_join_as_spectators_in_id_order_once() {
    let mut g = game_with(&[30, 10, 20]);
    let ids: Vec<u128> = g.players().iter().map(|e| e.player.id).collect();
    assert_eq!(ids, vec![10, 20, 30]);
    assert_eq!(entry(&g, 20), (None, PlayerRole::Spectator, false));
    assert!(g.add_player(info(20, "again")).is_none());
    assert_eq!(g.players().len(), 3);
    assert!(g.remove_player(20));
    assert!(!g.remove_player(20));
    assert_eq!(g.players().len(), 2);
}

#[test]
fn first_on_a_team_becomes_spymaster() {
    let mut g = game_with(&[1, 2, 3]);
    g.set_player_team(1, Some(Team::Red));
    g.set_player_team(2, Some(Team::Red));
    assert_eq!(entry(&g, 1), (Some(Team::Red), PlayerRole::Spymaster, false));
    assert_eq!(entry(&g, 2), (Some(Team::Red), PlayerRole::Operative, false));
    g.set_player_team(3, Some(Team::Blue));
    assert_eq!(entry(&g, 3), (Some(Team::Blue), PlayerRole::Spymaster, false));
    g.set_player_team(3, None);
    assert_eq!(entry(&g, 3), (None, PlayerRole::Spectator, false));
}

#[test]
fn new_spymaster_demotes_the_old_one() {
    let mut g = game_with(&[1, 2]);
    g.set_player_team(1, Some(Team::Red));
    g.set_player_team(2, Some(Team::Red));
    g.mark_player_ready(1);
    g.set_player_role(2, PlayerRole::Spymaster);
    assert_eq!(entry(&g, 2), (Some(Team::Red), PlayerRole::Spymaster, false));
    assert_eq!(entry(&g, 1), (Some(Team::Red), PlayerRole::Operative, false));
    assert_eq!(spymasters(&g, Team::Red), 1);
}

#[test]
fn role_without_team_is_ignored() {
    let mut g = game_with(&[1]);
    g.set_player_role(1, PlayerRole::Spymaster);
    assert_eq!(entry(&g, 1), (None, PlayerRole::Spectator, false));
}

#[test]
fn any_sequence_keeps_one_spymaster_per_team() {
    let mut g = game_with(&[1, 2, 3, 4, 5]);
    let teams = [Some(Team::Red), Some(Team::Blue), None];
    let roles = [PlayerRole::Spymaster, PlayerRole::Operative, PlayerRole::Spectator];
    let mut state: u64 = 12345;
    for _ in 0..500 {
        state = state.wrapping_mul(6364136223846793005).wrapping_add(1442695040888963407);
        let pid = (state >> 33) % 5 + 1;
        let pick = ((state >> 20) % 3) as usize;
        if (state >> 40) % 2 == 0 {
            g.set_player_team(pid as u128, teams[pick]);
        } else {
            g.set_player_role(pid as u128, roles[pick]);
        }
        assert!(spymasters(&g, Team::Red) <= 1);
        assert!(spymasters(&g, Team::Blue) <= 1);
        assert!(g.players().iter().all(|e| e.team.is_some() || e.role == PlayerRole::Spectator));
    }
}

fn staffed_game() -> Game {
    let mut g = game_with(&[1, 2, 3, 4]);
    g.set_player_team(1, Some(Team::Red));
    g.set_player_team(2, Some(Team::Red));
    g.set_player_team(3, Some(Team::Blue));
    g.set_player_team(4, Some(Team::Blue));
    g
}

#[test]
fn all_four_ready_starts_play() {
    let mut g = staffed_game();
    for id in 1..=3 {
        g.mark_player_ready(id);
        assert_eq!(g.turn(), Turn::Pregame);
    }
    g.mark_player_ready(4);
    assert_eq!(g.turn(), Turn::RedSpymasterThinking);
    assert_eq!(g.turn(), g.board().initial_turn());
    assert!(!g.is_joinable());
}

#[test]
fn unreadied_player_blocks_start() {
    let mut g = staffed_game();
    g.mark_player_ready(1);
    g.mark_player_ready(2);
    g.mark_player_ready(3);
    g.set_player_role(3, PlayerRole::Spymaster);
    assert_eq!(entry(&g, 3), (Some(Team::Blue), PlayerRole::Spymaster, false));
    g.mark_player_ready(4);
    assert_eq!(g.turn(), Turn::Pregame);
    g.mark_player_ready(3);
    assert_ne!(g.turn(), Turn::Pregame);
}

#[test]
fn missing_pair_blocks_start() {
    let mut g = staffed_game();
    assert!(g.remove_player(4));
    for id in 1..=3 {
        g.mark_player_ready(id);
    }
    assert_eq!(g.turn(), Turn::Pregame);
    assert!(!g.has_quorum());
}

#[test]
fn snapshots_redact_by_role_and_phase() {
    let mut g = staffed_game();
    assert!(g.add_player(info(9, "watcher")).is_some());
    let spymaster = g.snapshot_for(1);
    assert!(spymaster.tiles.iter().all(|t| t.character == Character::Unknown));
    let spectator = g.snapshot_for(9);
    assert!(spectator.tiles.iter().all(|t| t.character == Character::Unknown));
    for id in 1..=4 {
        g.mark_player_ready(id);
    }
    assert_ne!(g.turn(), Turn::Pregame);
    let deck = Board::deck(Team::Red);
    let spymaster = g.snapshot_for(1);
    let shown: Vec<Character> = spymaster.tiles.iter().map(|t| t.character).collect();
    assert_eq!(shown, deck);
    let spectator = g.snapshot_for(9);
    assert!(spectator.tiles.iter().all(|t| t.character != Character::Unknown));
    let operative = g.snapshot_for(2);
    assert!(operative.tiles.iter().all(|t| t.character == Character::Unknown));
    assert_eq!(operative.players.len(), 5);
    assert_eq!(operative.turn, g.turn());
}

#[test]
fn broadcasts_reach_every_member() {
    let g = game_with(&[3, 1, 2]);
    let mut out: Vec<Delivery> = Vec::new();
    g.broadcast(&Message::GameLeft, &mut out);
    let to: Vec<u128> = out.iter().map(|d| d.recipient).collect();
    assert_eq!(to, vec![1, 2, 3]);
    let mut out: Vec<Delivery> = Vec::new();
    g.broadcast_state(&mut out);
    assert_eq!(out.len(), 3);
    assert!(out.iter().all(|d| matches!(d.message, Message::GameStateSnapshot(_))));
}

#[test]
fn extra_unready_team_member_blocks_start() {
    let mut g = staffed_game();
    assert!(g.add_player(info(5, "extra")).is_some());
    g.set_player_team(5, Some(Team::Red));
    assert_eq!(entry(&g, 5), (Some(Team::Red), PlayerRole::Operative, false));
    for id in 1..=4 {
        g.mark_player_ready(id);
    }
    assert_eq!(g.turn(), Turn::Pregame);
    g.mark_player_ready(5);
    assert_eq!(g.turn(), Turn::RedSpymasterThinking);
}

#[test]
fn spectators_do_not_count_for_readiness() {
    let mut g = staffed_game();
    assert!(g.add_player(info(5, "watcher")).is_some());
    for id in 1..=4 {
        g.mark_player_ready(id);
    }
    assert_eq!(g.turn(), Turn::RedSpymasterThinking);
}
