//! Values exchanged with clients: commands, events and the data they carry.

use vstd::prelude::*;

verus! {

/// Phase of a match.
#[derive(Debug, Clone, Copy, PartialEq, Eq, Structural)]
pub enum Turn {
    Pregame,
    Intermission,
    RedSpymasterThinking,
    BlueSpymasterThinking,
    RedOperativesGuessing,
    BlueOperativesGuessing,
    Endgame,
}

/// What a player is expected to do during a turn.
#[derive(Debug, Clone, Copy, PartialEq, Eq, Structural)]
pub enum PlayerAction {
    ShareCodename,
    Guess,
}

#[derive(Debug, Clone, Copy, PartialEq, Eq, Hash, Structural)]
pub enum Team {
    Red,
    Blue,
}

#[derive(Debug, Clone, Copy, PartialEq, Eq, Hash, Structural)]
pub enum PlayerRole {
    Spymaster,
    Operative,
    Spectator,
}

#[derive(Debug, Clone, Copy, PartialEq, Eq, Structural)]
pub enum Character {
    /// Not a real character: it stands in for a hidden one in a redacted view.
    Unknown,
    RedAgent,
    BlueAgent,
    Bystander,
    Assassin,
}

pub open spec fn spec_turn_team(turn: Turn) -> Option<Team> {
    match turn {
        Turn::RedSpymasterThinking | Turn::RedOperativesGuessing => Some(Team::Red),
        Turn::BlueSpymasterThinking | Turn::BlueOperativesGuessing => Some(Team::Blue),
        _ => None,
    }
}

pub open spec fn spec_turn_role(turn: Turn) -> Option<PlayerRole> {
    match turn {
        Turn::RedSpymasterThinking | Turn::BlueSpymasterThinking => Some(PlayerRole::Spymaster),
        Turn::RedOperativesGuessing | Turn::BlueOperativesGuessing => Some(PlayerRole::Operative),
        _ => None,
    }
}

impl Turn {
    /// The team whose turn it is, if any.
    pub fn team(self) -> (r: Option<Team>)
        ensures
            r == spec_turn_team(self),
    {
        match self {
            Turn::RedSpymasterThinking | Turn::RedOperativesGuessing => Some(Team::Red),
            Turn::BlueSpymasterThinking | Turn::BlueOperativesGuessing => Some(Team::Blue),
            _ => None,
        }
    }

    /// The role that acts during this turn, if any.
    pub fn role(self) -> (r: Option<PlayerRole>)
        ensures
            r == spec_turn_role(self),
    {
        match self {
            Turn::RedSpymasterThinking | Turn::BlueSpymasterThinking => Some(PlayerRole::Spymaster),
            Turn::RedOperativesGuessing | Turn::BlueOperativesGuessing => Some(
                PlayerRole::Operative,
            ),
            _ => None,
        }
    }

    /// Human readable name of the turn.
    pub fn label(self) -> (r: &'static str)
        ensures
            self == Turn::Pregame ==> r@ == "pre-game"@,
            self == Turn::Intermission ==> r@ == "intermission"@,
            self == Turn::RedSpymasterThinking ==> r@ == "red spymaster"@,
            self == Turn::RedOperativesGuessing ==> r@ == "red operatives"@,
            self == Turn::BlueSpymasterThinking ==> r@ == "blue spymaster"@,
            self == Turn::BlueOperativesGuessing ==> r@ == "blue operatives"@,
            self == Turn::Endgame ==> r@ == "end"@,
    {
        match self {
            Turn::Pregame => "pre-game",
            Turn::Intermission => "intermission",
            Turn::RedSpymasterThinking => "red spymaster",
            Turn::RedOperativesGuessing => "red operatives",
            Turn::BlueSpymasterThinking => "blue spymaster",
            Turn::BlueOperativesGuessing => "blue operatives",
            Turn::Endgame => "end",
        }
    }
}

/// Compares two optional teams.
pub fn same_team(a: Option<Team>, b: Option<Team>) -> (r: bool)
    ensures
        r == (a == b),
{
    match (a, b) {
        (None, None) => true,
        (Some(x), Some(y)) => x == y,
        _ => false,
    }
}

/// One square of the board.
#[derive(Debug)]
pub struct Tile {
    pub codeword: String,
    pub character: Character,
    pub spotted: bool,
}

impl Clone for Tile {
    fn clone(&self) -> (r: Self)
        ensures
            r == *self,
    {
        Tile { codeword: self.codeword.clone(), character: self.character, spotted: self.spotted }
    }
}

impl Tile {
    /// An empty, unspotted bystander tile.
    pub fn default() -> (r: Tile)
        ensures
            r.codeword@ == Seq::<char>::empty(),
            r.character == Character::Bystander,
            !r.spotted,
    {
        Tile { codeword: String::new(), character: Character::Bystander, spotted: false }
    }
}

/// Public identity of a connected player.
#[derive(Debug)]
pub struct PlayerInfo {
    pub id: u128,
    pub nickname: String,
}

impl Clone for PlayerInfo {
    fn clone(&self) -> (r: Self)
        ensures
            r == *self,
    {
        PlayerInfo { id: self.id, nickname: self.nickname.clone() }
    }
}

/// A roster entry: a player's place in a match.
#[derive(Debug)]
pub struct GamePlayerState {
    pub player: PlayerInfo,
    pub team: Option<Team>,
    pub role: PlayerRole,
    pub ready: bool,
}

impl Clone for GamePlayerState {
    fn clone(&self) -> (r: Self)
        ensures
            r == *self,
    {
        GamePlayerState {
            player: self.player.clone(),
            team: self.team,
            role: self.role,
            ready: self.ready,
        }
    }
}

pub open spec fn spec_turn_player_action(state: GamePlayerState, turn: Turn) -> Option<
    PlayerAction,
> {
    if state.team != spec_turn_team(turn) && Some(state.role) != spec_turn_role(turn) {
        None
    } else {
        match state.role {
            PlayerRole::Operative => Some(PlayerAction::Guess),
            PlayerRole::Spymaster => Some(PlayerAction::ShareCodename),
            PlayerRole::Spectator => None,
        }
    }
}

impl GamePlayerState {
    /// What this player is expected to do during `turn`.
    pub fn get_turn_player_action(&self, turn: Turn) -> (r: Option<PlayerAction>)
        ensures
            r == spec_turn_player_action(*self, turn),
    {
        let role_matches = match turn.role() {
            Some(role) => role == self.role,
            None => false,
        };
        if !same_team(self.team, turn.team()) && !role_matches {
            None
        } else {
            match self.role {
                PlayerRole::Operative => Some(PlayerAction::Guess),
                PlayerRole::Spymaster => Some(PlayerAction::ShareCodename),
                PlayerRole::Spectator => None,
            }
        }
    }
}

/// Identity of a match as shown to its players.
#[derive(Debug)]
pub struct GameInfo {
    pub game_id: u128,
    pub join_code: String,
}

impl Clone for GameInfo {
    fn clone(&self) -> (r: Self)
        ensures
            r == *self,
    {
        GameInfo { game_id: self.game_id, join_code: self.join_code.clone() }
    }
}

/// A complete view of a match, personalized for one viewer.
#[derive(Debug)]
pub struct GameStateSnapshot {
    pub players: Vec<GamePlayerState>,
    pub tiles: Vec<Tile>,
    pub turn: Turn,
}

impl Clone for GameStateSnapshot {
    fn clone(&self) -> (r: Self)
        ensures
            r.players@ == self.players@,
            r.tiles@ == self.tiles@,
            r.turn == self.turn,
    {
        let mut players: Vec<GamePlayerState> = Vec::new();
        let mut i: usize = 0;
        while i < self.players.len()
            invariant
                i <= self.players@.len(),
                players@ == self.players@.take(i as int),
            decreases self.players@.len() - i,
        {
            players.push(self.players[i].clone());
            i = i + 1;
            assert(players@ =~= self.players@.take(i as int));
        }
        let mut tiles: Vec<Tile> = Vec::new();
        let mut j: usize = 0;
        while j < self.tiles.len()
            invariant
                j <= self.tiles@.len(),
                tiles@ == self.tiles@.take(j as int),
            decreases self.tiles@.len() - j,
        {
            tiles.push(self.tiles[j].clone());
            j = j + 1;
            assert(tiles@ =~= self.tiles@.take(j as int));
        }
        assert(players@ =~= self.players@);
        assert(tiles@ =~= self.tiles@);
        GameStateSnapshot { players, tiles, turn: self.turn }
    }
}

/// Number of tiles on a board.
pub const BOARD_TILES: usize = 25;

impl GameStateSnapshot {
    /// An empty pregame snapshot with a board of blank tiles.
    pub fn default() -> (r: GameStateSnapshot)
        ensures
            r.players@.len() == 0,
            r.tiles@.len() == BOARD_TILES,
            forall|i: int|
                0 <= i < BOARD_TILES ==> #[trigger] r.tiles@[i].character == Character::Bystander
                    && !r.tiles@[i].spotted && r.tiles@[i].codeword@.len() == 0,
            r.turn == Turn::Pregame,
    {
        let mut tiles: Vec<Tile> = Vec::new();
        let mut i: usize = 0;
        while i < BOARD_TILES
            invariant
                i <= BOARD_TILES,
                tiles@.len() == i,
                forall|j: int|
                    0 <= j < i ==> #[trigger] tiles@[j].character == Character::Bystander
                        && !tiles@[j].spotted && tiles@[j].codeword@.len() == 0,
            decreases BOARD_TILES - i,
        {
            tiles.push(Tile::default());
            i = i + 1;
        }
        GameStateSnapshot { players: Vec::new(), tiles, turn: Turn::Pregame }
    }
}

/// Kinds of errors reported to a client.
#[derive(Debug, Clone, Copy, PartialEq, Eq, Hash, Structural)]
pub enum ProtocolErrorKind {
    /// Client tried to authenticate twice
    AlreadyAuthenticated,
    /// Tried to do something while unauthenticated
    NotAuthenticated,
    /// Client sent in some garbage
    InvalidCommand,
    /// Cannot be done at this time
    BadState,
    /// Something wasn't found
    NotFound,
    /// Invalid input.
    BadInput,
    /// This should never happen.
    InternalError,
}

/// An error with a kind and a human readable message.
#[derive(Debug)]
pub struct ProtocolError {
    kind: ProtocolErrorKind,
    message: String,
}

impl Clone for ProtocolError {
    fn clone(&self) -> (r: Self)
        ensures
            r == *self,
    {
        ProtocolError { kind: self.kind, message: self.message.clone() }
    }
}

impl ProtocolError {
    pub closed spec fn spec_kind(&self) -> ProtocolErrorKind {
        self.kind
    }

    pub closed spec fn spec_message(&self) -> Seq<char> {
        self.message@
    }

    pub fn new(kind: ProtocolErrorKind, s: &str) -> (r: ProtocolError)
        ensures
            r.spec_kind() == kind,
            r.spec_message() == s@,
    {
        ProtocolError { kind, message: String::from_str(s) }
    }

    pub fn kind(&self) -> (r: ProtocolErrorKind)
        ensures
            r == self.spec_kind(),
    {
        self.kind
    }

    pub fn message(&self) -> (r: &str)
        ensures
            r@ == self.spec_message(),
    {
        self.message.as_str()
    }
}

/// `r` is an error of the given kind.
pub open spec fn fails_with<T>(r: Result<T, ProtocolError>, kind: ProtocolErrorKind) -> bool {
    match r {
        Err(e) => e.spec_kind() == kind,
        Ok(_) => false,
    }
}

#[derive(Debug)]
pub struct AuthenticateCommand {
    pub nickname: String,
}

#[derive(Debug)]
pub struct SendTextCommand {
    pub text: String,
}

#[derive(Debug)]
pub struct JoinGameCommand {
    pub join_code: String,
}

#[derive(Debug)]
pub struct SetPlayerRoleCommand {
    pub role: PlayerRole,
}

#[derive(Debug)]
pub struct SetPlayerTeamCommand {
    pub team: Option<Team>,
}

/// A request sent by a client.
#[derive(Debug)]
pub enum Command {
    Authenticate(AuthenticateCommand),
    SendText(SendTextCommand),
    NewGame,
    JoinGame(JoinGameCommand),
    LeaveGame,
    MarkReady,
    SetPlayerRole(SetPlayerRoleCommand),
    SetPlayerTeam(SetPlayerTeamCommand),
    RequestGameStateSnapshot,
}

#[derive(Debug)]
pub struct ChatMessage {
    pub player_id: u128,
    pub text: String,
}

#[derive(Debug)]
pub struct PlayerDisconnectedMessage {
    pub player_id: u128,
}

impl Clone for ChatMessage {
    fn clone(&self) -> (r: Self)
        ensures
            r == *self,
    {
        ChatMessage { player_id: self.player_id, text: self.text.clone() }
    }
}

impl Clone for PlayerDisconnectedMessage {
    fn clone(&self) -> (r: Self)
        ensures
            r == *self,
    {
        PlayerDisconnectedMessage { player_id: self.player_id }
    }
}

/// An event sent to a client.
#[derive(Debug)]
pub enum Message {
    Chat(ChatMessage),
    PlayerConnected(GamePlayerState),
    PlayerDisconnected(PlayerDisconnectedMessage),
    PregameStarted,
    GameJoined(GameInfo),
    GameLeft,
    Authenticated(PlayerInfo),
    Error(ProtocolError),
    GameStateSnapshot(GameStateSnapshot),
}

/// Two messages carry the same content: snapshots hold the same players, tiles and
/// turn; other messages are equal.
pub open spec fn same_message(a: Message, b: Message) -> bool {
    match a {
        Message::GameStateSnapshot(x) => match b {
            Message::GameStateSnapshot(y) => x.players@ == y.players@ && x.tiles@ == y.tiles@
                && x.turn == y.turn,
            _ => false,
        },
        _ => a == b,
    }
}

impl Clone for Message {
    fn clone(&self) -> (r: Self)
        ensures
            same_message(*self, r),
    {
        match self {
            Message::Chat(m) => Message::Chat(m.clone()),
            Message::PlayerConnected(m) => Message::PlayerConnected(m.clone()),
            Message::PlayerDisconnected(m) => Message::PlayerDisconnected(m.clone()),
            Message::PregameStarted => Message::PregameStarted,
            Message::GameJoined(m) => Message::GameJoined(m.clone()),
            Message::GameLeft => Message::GameLeft,
            Message::Authenticated(m) => Message::Authenticated(m.clone()),
            Message::Error(m) => Message::Error(m.clone()),
            Message::GameStateSnapshot(m) => Message::GameStateSnapshot(m.clone()),
        }
    }
}

/// A message to hand to one session's outbound channel.
pub struct Delivery {
    pub recipient: u128,
    pub message: Message,
}

} // verus!
