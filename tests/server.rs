use webgame_server::protocol::{
    AuthenticateCommand, Command, Delivery, JoinGameCommand, Message, PlayerRole,
    ProtocolErrorKind, SendTextCommand, SetPlayerRoleCommand, SetPlayerTeamCommand, Team, Turn,
};
use webgame_server::server::{on_player_disconnected, on_player_message};
use webgame_server::universe::Universe;

fn words(n: usize) -> Vec<String> {
    (0..n).map(|i| format!("word{}", i)).collect()
}

fn auth(u: &mut Universe, id: u128, name: &str, out: &mut Vec<Delivery>) {
    let cmd = Command::Authenticate(AuthenticateCommand { nickname: name.to_string() });
    on_player_message(u, id, cmd, out).unwrap();
}

fn joined(out: &[Delivery], id: u128) -> (u128, String) {
    for d in out.iter().rev() {
        if d.recipient == id {
            if let Message::GameJoined(info) = &d.message {
                return (info.game_id, info.join_code.clone());
            }
        }
    }
    panic!("no GameJoined for {}", id);
}

fn entry(u: &Universe, gid: u128, id: u128) -> (Option<Team>, PlayerRole) {
    let g = u.get_game(gid).unwrap();
    let e = g.players().iter().find(|e| e.player.id == id).unwrap();
    (e.team, e.role)
}

#[test]
fn unauthenticated_sessions_may_only_authenticate() {
    let mut u = Universe::new(words(30));
    let a = u.add_player();
    let mut out: Vec<Delivery> = Vec::new();
    let r = on_player_message(&mut u, a, Command::NewGame, &mut out);
    assert_eq!(r.err().unwrap().kind(), ProtocolErrorKind::NotAuthenticated);
    let long = Command::Authenticate(AuthenticateCommand { nickname: "x".repeat(17) });
    let r = on_player_message(&mut u, a, long, &mut out);
    assert_eq!(r.err().unwrap().kind(), ProtocolErrorKind::BadInput);
    let blank = Command::Authenticate(AuthenticateCommand { nickname: "   ".to_string() });
    let r = on_player_message(&mut u, a, blank, &mut out);
    assert_eq!(r.err().unwrap().kind(), ProtocolErrorKind::BadInput);
    assert!(out.is_empty());
    auth(&mut u, a, "  alice  ", &mut out);
    assert_eq!(u.get_player_info(a).unwrap().nickname, "alice");
    assert!(matches!(out[0].message, Message::Authenticated(ref i) if i.nickname == "alice"));
    let again = Command::Authenticate(AuthenticateCommand { nickname: "alice".to_string() });
    let r = on_player_message(&mut u, a, again, &mut out);
    assert_eq!(r.err().unwrap().kind(), ProtocolErrorKind::AlreadyAuthenticated);
}

#[test]
fn match_commands_need_a_match() {
    let mut u = Universe::new(words(30));
    let a = u.add_player();
    let mut out: Vec<Delivery> = Vec::new();
    auth(&mut u, a, "alice", &mut out);
    let cmds = vec![
        Command::SendText(SendTextCommand { text: "hi".to_string() }),
        Command::MarkReady,
        Command::SetPlayerRole(SetPlayerRoleCommand { role: PlayerRole::Spymaster }),
        Command::SetPlayerTeam(SetPlayerTeamCommand { team: Some(Team::Red) }),
        Command::RequestGameStateSnapshot,
    ];
    for cmd in cmds {
        let r = on_player_message(&mut u, a, cmd, &mut out);
        assert_eq!(r.err().unwrap().kind(), ProtocolErrorKind::BadState);
    }
    let r = on_player_message(&mut u, a, Command::LeaveGame, &mut out);
    assert!(r.is_ok());
    assert!(matches!(out.last().unwrap().message, Message::GameLeft));
}

#[test]
fn four_players_ready_up_and_start() {
    let mut u = Universe::new(words(30));
    let mut out: Vec<Delivery> = Vec::new();
    let a = u.add_player();
    let b = u.add_player();
    let c = u.add_player();
    let d = u.add_player();
    auth(&mut u, a, "alice", &mut out);
    auth(&mut u, b, "bob", &mut out);
    auth(&mut u, c, "carol", &mut out);
    auth(&mut u, d, "dave", &mut out);

    on_player_message(&mut u, a, Command::NewGame, &mut out).unwrap();
    let (gid, code) = joined(&out, a);

    out.clear();
    let join = Command::JoinGame(JoinGameCommand { join_code: code.clone() });
    on_player_message(&mut u, b, join, &mut out).unwrap();
    assert_eq!(joined(&out, b).0, gid);
    assert!(out.iter().any(|x| x.recipient == a
        && matches!(x.message, Message::PlayerConnected(ref s) if s.player.id == b)));

    let red = || Command::SetPlayerTeam(SetPlayerTeamCommand { team: Some(Team::Red) });
    let blue = || Command::SetPlayerTeam(SetPlayerTeamCommand { team: Some(Team::Blue) });
    on_player_message(&mut u, a, red(), &mut out).unwrap();
    on_player_message(&mut u, b, red(), &mut out).unwrap();
    assert_eq!(entry(&u, gid, a), (Some(Team::Red), PlayerRole::Spymaster));
    assert_eq!(entry(&u, gid, b), (Some(Team::Red), PlayerRole::Operative));

    for id in [c, d] {
        let join = Command::JoinGame(JoinGameCommand { join_code: code.clone() });
        on_player_message(&mut u, id, join, &mut out).unwrap();
    }
    on_player_message(&mut u, c, blue(), &mut out).unwrap();
    on_player_message(&mut u, d, blue(), &mut out).unwrap();
    assert_eq!(entry(&u, gid, c), (Some(Team::Blue), PlayerRole::Spymaster));
    assert_eq!(entry(&u, gid, d), (Some(Team::Blue), PlayerRole::Operative));

    for id in [a, b, c] {
        on_player_message(&mut u, id, Command::MarkReady, &mut out).unwrap();
        assert_eq!(u.get_game(gid).unwrap().turn(), Turn::Pregame);
    }
    out.clear();
    on_player_message(&mut u, d, Command::MarkReady, &mut out).unwrap();
    let g = u.get_game(gid).unwrap();
    assert_ne!(g.turn(), Turn::Pregame);
    assert_eq!(g.turn(), g.board().initial_turn());
    assert_eq!(out.len(), 4);

    let r = on_player_message(&mut u, a, blue(), &mut out);
    assert_eq!(r.err().unwrap().kind(), ProtocolErrorKind::BadState);
}

#[test]
fn sole_player_disconnecting_removes_the_game() {
    let mut u = Universe::new(words(30));
    let mut out: Vec<Delivery> = Vec::new();
    let a = u.add_player();
    let b = u.add_player();
    auth(&mut u, a, "alice", &mut out);
    auth(&mut u, b, "bob", &mut out);
    on_player_message(&mut u, a, Command::NewGame, &mut out).unwrap();
    let (gid, code) = joined(&out, a);
    on_player_disconnected(&mut u, a, &mut out);
    assert!(u.get_game(gid).is_none());
    assert!(u.get_player_info(a).is_none());
    let join = Command::JoinGame(JoinGameCommand { join_code: code });
    let r = on_player_message(&mut u, b, join, &mut out);
    assert_eq!(r.err().unwrap().kind(), ProtocolErrorKind::NotFound);
}

#[test]
fn chat_and_snapshot_requests() {
    let mut u = Universe::new(words(30));
    let mut out: Vec<Delivery> = Vec::new();
    let a = u.add_player();
    auth(&mut u, a, "alice", &mut out);
    on_player_message(&mut u, a, Command::NewGame, &mut out).unwrap();
    out.clear();
    let chat = Command::SendText(SendTextCommand { text: "hello".to_string() });
    on_player_message(&mut u, a, chat, &mut out).unwrap();
    assert_eq!(out.len(), 1);
    assert!(matches!(out[0].message, Message::Chat(ref m) if m.text == "hello" && m.player_id == a));
    out.clear();
    on_player_message(&mut u, a, Command::RequestGameStateSnapshot, &mut out).unwrap();
    assert_eq!(out.len(), 1);
    match &out[0].message {
        Message::GameStateSnapshot(s) => {
            assert_eq!(s.players.len(), 1);
            assert_eq!(s.tiles.len(), 25);
            assert_eq!(s.turn, Turn::Pregame);
        }
        other => panic!("unexpected {:?}", other),
    }
}
