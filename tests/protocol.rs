use webgame_server::protocol::{
    Character, GamePlayerState, GameStateSnapshot, PlayerAction, PlayerInfo, PlayerRole,
    ProtocolError, ProtocolErrorKind, Team, Tile, Turn,
};

fn player(role: PlayerRole, team: Option<Team>) -> GamePlayerState {
    GamePlayerState {
        player: PlayerInfo { id: 1, nickname: "p".to_string() },
        team,
        role,
        ready: false,
    }
}

#[test]
fn turn_team_and_role() {
    assert_eq!(Turn::RedSpymasterThinking.team(), Some(Team::Red));
    assert_eq!(Turn::RedOperativesGuessing.team(), Some(Team::Red));
    assert_eq!(Turn::BlueSpymasterThinking.team(), Some(Team::Blue));
    assert_eq!(Turn::BlueOperativesGuessing.team(), Some(Team::Blue));
    assert_eq!(Turn::Pregame.team(), None);
    assert_eq!(Turn::Endgame.team(), None);
    assert_eq!(Turn::RedSpymasterThinking.role(), Some(PlayerRole::Spymaster));
    assert_eq!(Turn::BlueOperativesGuessing.role(), Some(PlayerRole::Operative));
    assert_eq!(Turn::Intermission.role(), None);
}

#[test]
fn turn_labels() {
    assert_eq!(Turn::Pregame.label(), "pre-game");
    assert_eq!(Turn::Intermission.label(), "intermission");
    assert_eq!(Turn::RedSpymasterThinking.label(), "red spymaster");
    assert_eq!(Turn::RedOperativesGuessing.label(), "red operatives");
    assert_eq!(Turn::BlueSpymasterThinking.label(), "blue spymaster");
    assert_eq!(Turn::BlueOperativesGuessing.label(), "blue operatives");
    assert_eq!(Turn::Endgame.label(), "end");
}

#[test]
fn turn_player_actions() {
    let spymaster = player(PlayerRole::Spymaster, Some(Team::Red));
    assert_eq!(
        spymaster.get_turn_player_action(Turn::RedSpymasterThinking),
        Some(PlayerAction::ShareCodename)
    );
    let operative = player(PlayerRole::Operative, Some(Team::Blue));
    assert_eq!(
        operative.get_turn_player_action(Turn::BlueOperativesGuessing),
        Some(PlayerAction::Guess)
    );
    assert_eq!(operative.get_turn_player_action(Turn::RedSpymasterThinking), None);
    let spectator = player(PlayerRole::Spectator, None);
    assert_eq!(spectator.get_turn_player_action(Turn::Pregame), None);
}

#[test]
fn protocol_error_accessors() {
    let e = ProtocolError::new(ProtocolErrorKind::NotFound, "game does not exist");
    assert_eq!(e.kind(), ProtocolErrorKind::NotFound);
    assert_eq!(e.message(), "game does not exist");
}

#[test]
fn default_snapshot_and_tile() {
    let t = Tile::default();
    assert_eq!(t.codeword, "");
    assert_eq!(t.character, Character::Bystander);
    assert!(!t.spotted);
    let s = GameStateSnapshot::default();
    assert!(s.players.is_empty());
    assert_eq!(s.tiles.len(), 25);
    assert_eq!(s.turn, Turn::Pregame);
    assert!(s.tiles.iter().all(|t| t.character == Character::Bystander && !t.spotted));
}
