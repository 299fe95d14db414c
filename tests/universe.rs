use webgame_server::protocol::{Delivery, Message, PlayerRole, ProtocolErrorKind, Team, Turn};
use webgame_server::universe::Universe;

fn words(n: usize) -> Vec<String> {
    (0..n).map(|i| format!("word{}", i)).collect()
}

#[test]
fn sessions_get_fresh_ids_and_authenticate_once() {
    let mut u = Universe::new(words(30));
    let a = u.add_player();
    let b = u.add_player();
    assert_ne!(a, b);
    assert_eq!(u.get_player_info(a).unwrap().nickname, "anonymous");
    assert!(!u.player_is_authenticated(a));
    let info = u.authenticate_player(a, "alice".to_string()).unwrap();
    assert_eq!(info.id, a);
    assert_eq!(info.nickname, "alice");
    assert!(u.player_is_authenticated(a));
    let again = u.authenticate_player(a, "alice2".to_string());
    assert_eq!(again.err().unwrap().kind(), ProtocolErrorKind::AlreadyAuthenticated);
    let missing = u.authenticate_player(a ^ b ^ 1, "x".to_string());
    if a ^ b ^ 1 != a && a ^ b ^ 1 != b {
        assert_eq!(missing.err().unwrap().kind(), ProtocolErrorKind::InternalError);
    }
    u.remove_player(a);
    assert!(u.get_player_info(a).is_none());
    assert!(!u.player_is_authenticated(a));
}

#[test]
fn send_drops_messages_for_missing_sessions() {
    let mut u = Universe::new(words(30));
    let a = u.add_player();
    let mut out: Vec<Delivery> = Vec::new();
    u.send(a, Message::GameLeft, &mut out);
    u.remove_player(a);
    u.send(a, Message::GameLeft, &mut out);
    assert_eq!(out.len(), 1);
    assert_eq!(out[0].recipient, a);
}

#[test]
fn joinable_games_have_distinct_codes() {
    let mut u = Universe::new(words(30));
    let mut codes: Vec<String> = Vec::new();
    for _ in 0..200 {
        let gid = u.new_game().unwrap();
        let g = u.get_game(gid).unwrap();
        assert!(g.is_joinable());
        assert!(g.is_empty());
        codes.push(g.join_code().to_string());
    }
    let n = codes.len();
    codes.sort();
    codes.dedup();
    assert_eq!(codes.len(), n);
}

#[test]
fn joining_by_code_is_case_and_hyphen_insensitive() {
    let mut u = Universe::new(words(30));
    let a = u.add_player();
    let b = u.add_player();
    let gid = u.new_game().unwrap();
    let mut out: Vec<Delivery> = Vec::new();
    assert!(u.add_player_to_game(gid, a, &mut out));
    assert!(out.is_empty());
    let code = u.get_game(gid).unwrap().join_code().to_lowercase();
    let typed = format!("{}-{}", &code[..3], &code[3..]);
    assert_eq!(u.join_game(b, &typed, &mut out).unwrap(), gid);
    assert_eq!(u.get_player_game(b), Some(gid));
    assert_eq!(out.len(), 1);
    assert_eq!(out[0].recipient, a);
    match &out[0].message {
        Message::PlayerConnected(state) => {
            assert_eq!(state.player.id, b);
            assert_eq!(state.role, PlayerRole::Spectator);
            assert_eq!(state.team, None);
        }
        other => panic!("unexpected {:?}", other),
    }
    let bad = u.join_game(b, "ZZZZZZZZ", &mut out);
    assert_eq!(bad.err().unwrap().kind(), ProtocolErrorKind::NotFound);
}

#[test]
fn started_game_refuses_new_players() {
    let mut u = Universe::new(words(30));
    let ids: Vec<u128> = (0..5).map(|_| u.add_player()).collect();
    let gid = u.new_game().unwrap();
    let mut out: Vec<Delivery> = Vec::new();
    for id in &ids[..4] {
        u.add_player_to_game(gid, *id, &mut out);
    }
    u.set_player_team_in(gid, ids[0], Some(Team::Red));
    u.set_player_team_in(gid, ids[1], Some(Team::Red));
    u.set_player_team_in(gid, ids[2], Some(Team::Blue));
    u.set_player_team_in(gid, ids[3], Some(Team::Blue));
    for id in &ids[..4] {
        u.mark_player_ready_in(gid, *id);
    }
    assert_ne!(u.get_game(gid).unwrap().turn(), Turn::Pregame);
    let code = u.get_game(gid).unwrap().join_code().to_string();
    let r = u.join_game(ids[4], &code, &mut out);
    assert_eq!(r.err().unwrap().kind(), ProtocolErrorKind::InvalidCommand);
}

#[test]
fn last_player_leaving_removes_the_game() {
    let mut u = Universe::new(words(30));
    let a = u.add_player();
    let b = u.add_player();
    let gid = u.new_game().unwrap();
    let code = u.get_game(gid).unwrap().join_code().to_string();
    let mut out: Vec<Delivery> = Vec::new();
    u.add_player_to_game(gid, a, &mut out);
    u.add_player_to_game(gid, b, &mut out);
    out.clear();
    u.remove_player_from_game(a, &mut out);
    assert!(u.get_game(gid).is_some());
    assert_eq!(out.len(), 1);
    assert_eq!(out[0].recipient, b);
    assert!(matches!(out[0].message, Message::PlayerDisconnected(ref m) if m.player_id == a));
    assert_eq!(u.get_player_game(a), None);
    u.remove_player_from_game(b, &mut out);
    assert!(u.get_game(gid).is_none());
    assert_eq!(u.get_player_game(b), None);
    let r = u.join_game(a, &code, &mut out);
    assert_eq!(r.err().unwrap().kind(), ProtocolErrorKind::NotFound);
    assert!(!u.remove_game(gid));
}

#[test]
fn claiming_codes() {
    let mut u = Universe::new(words(30));
    assert!(u.claim_code(&"BBBBBB".to_string()));
    let ids: Vec<u128> = (0..4).map(|_| u.add_player()).collect();
    let gid = u.new_game().unwrap();
    let code = u.get_game(gid).unwrap().join_code().to_string();
    assert!(!u.claim_code(&code));
    assert!(u.get_game(gid).is_some());
    let mut out: Vec<Delivery> = Vec::new();
    for id in &ids {
        u.add_player_to_game(gid, *id, &mut out);
    }
    u.set_player_team_in(gid, ids[0], Some(Team::Red));
    u.set_player_team_in(gid, ids[1], Some(Team::Red));
    u.set_player_team_in(gid, ids[2], Some(Team::Blue));
    u.set_player_team_in(gid, ids[3], Some(Team::Blue));
    for id in &ids {
        u.mark_player_ready_in(gid, *id);
    }
    assert!(!u.get_game(gid).unwrap().is_joinable());
    assert!(u.claim_code(&code));
    let other = u.add_player();
    let r = u.join_game(other, &code, &mut out);
    assert_eq!(r.err().unwrap().kind(), ProtocolErrorKind::NotFound);
}
