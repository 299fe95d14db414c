//! Presentation helpers of the browser client: chat lines, tile styles and the
//! client's own roster entry.

use vstd::prelude::*;

use crate::protocol::{Character, GamePlayerState, Tile};

verus! {

/// State of a client's connection to the server.
#[derive(Debug, Clone, Copy, PartialEq, Eq, Structural)]
pub enum ApiState {
    Connecting,
    Connected,
    Disconnected,
}

/// What the game page asks of the page that holds it.
#[derive(Debug, Clone, Copy, PartialEq, Eq, Structural)]
pub enum GamePageCommand {
    Quit,
}

/// What a line of the chat log records.
#[derive(Debug)]
pub enum ChatLineData {
    Connected,
    Disconnected,
    Text(String),
}

/// One line of the chat log.
#[derive(Debug)]
pub struct ChatLine {
    pub nickname: String,
    pub data: ChatLineData,
}

pub open spec fn spec_line_text(data: ChatLineData) -> Seq<char> {
    match data {
        ChatLineData::Connected => "*connected*"@,
        ChatLineData::Disconnected => "*disconnected*"@,
        ChatLineData::Text(x) => x@,
    }
}

impl ChatLine {
    /// The body of the line.
    pub fn text(&self) -> (r: &str)
        ensures
            r@ == spec_line_text(self.data),
    {
        match &self.data {
            ChatLineData::Connected => "*connected*",
            ChatLineData::Disconnected => "*disconnected*",
            ChatLineData::Text(x) => x.as_str(),
        }
    }

    /// The line as shown: `<nickname> text`.
    pub fn render(&self) -> (r: String)
        ensures
            r@ == "<"@ + self.nickname@ + "> "@ + spec_line_text(self.data),
    {
        let mut r = String::from_str("<");
        r.append(self.nickname.as_str());
        r.append("> ");
        r.append(self.text());
        r
    }
}

pub open spec fn spec_tile_class(c: Character) -> Seq<char> {
    match c {
        Character::BlueAgent => "tile blue-agent"@,
        Character::RedAgent => "tile red-agent"@,
        Character::Bystander => "tile bystander"@,
        Character::Assassin => "tile assassin"@,
        Character::Unknown => "tile unspotted"@,
    }
}

/// Style class of a tile, after the character it shows.
pub fn get_tile_class(tile: &Tile) -> (r: &'static str)
    ensures
        r@ == spec_tile_class(tile.character),
{
    match tile.character {
        Character::BlueAgent => "tile blue-agent",
        Character::RedAgent => "tile red-agent",
        Character::Bystander => "tile bystander",
        Character::Assassin => "tile assassin",
        Character::Unknown => "tile unspotted",
    }
}

/// Most lines a chat log keeps.
pub const CHAT_LOG_LINES: usize = 20;

/// `i` is the first entry of `players` that belongs to `pid`.
pub open spec fn first_entry(players: Seq<GamePlayerState>, pid: u128, i: int) -> bool {
    &&& 0 <= i < players.len()
    &&& players[i].player.id == pid
    &&& forall|j: int| 0 <= j < i ==> players[j].player.id != pid
}

/// How a chat line names `pid`: their nickname, or "anonymous" when they are unknown.
pub open spec fn chat_nickname(players: Seq<GamePlayerState>, pid: u128) -> Seq<char> {
    if exists|i: int| first_entry(players, pid, i) {
        players[choose|i: int| first_entry(players, pid, i)].player.nickname@
    } else {
        "anonymous"@
    }
}

/// The entry of `player_id` in a snapshot's players.
pub fn my_state(players: &Vec<GamePlayerState>, player_id: u128) -> (r: Option<&GamePlayerState>)
    ensures
        match r {
            Some(s) => exists|i: int| first_entry(players@, player_id, i) && *s == players@[i],
            None => forall|i: int| 0 <= i < players@.len() ==> players@[i].player.id != player_id,
        },
{
    let mut i: usize = 0;
    while i < players.len()
        invariant
            i <= players@.len(),
            forall|j: int| 0 <= j < i ==> players@[j].player.id != player_id,
        decreases players@.len() - i,
    {
        if players[i].player.id == player_id {
            assert(first_entry(players@, player_id, i as int));
            return Some(&players[i]);
        }
        i = i + 1;
    }
    None
}

/// Appends a line by `player_id` to the chat log, keeping only its last
/// `CHAT_LOG_LINES` lines.
pub fn add_chat_message(
    log: &mut Vec<ChatLine>,
    players: &Vec<GamePlayerState>,
    player_id: u128,
    data: ChatLineData,
)
    ensures
        ({
            let full = old(log)@.len() + 1int;
            let keep = if full > CHAT_LOG_LINES {
                CHAT_LOG_LINES as int
            } else {
                full
            };
            &&& final(log)@.len() == keep
            &&& forall|i: int|
                0 <= i < keep - 1 ==> #[trigger] final(log)@[i] == old(log)@[full - keep + i]
            &&& final(log)@[keep - 1].nickname@ == chat_nickname(players@, player_id)
            &&& final(log)@[keep - 1].data == data
        }),
{
    let nickname = match my_state(players, player_id) {
        Some(state) => {
            proof {
                let i = choose|i: int| first_entry(players@, player_id, i) && *state == players@[i];
                let c = choose|i: int| first_entry(players@, player_id, i);
                if c < i {
                } else if i < c {
                }
                assert(c == i);
            }
            state.player.nickname.clone()
        },
        None => {
            proof {
                assert(!exists|i: int| first_entry(players@, player_id, i));
            }
            String::from_str("anonymous")
        },
    };
    let ghost n = nickname;
    log.push(ChatLine { nickname, data });
    let ghost full = log@;
    while log.len() > CHAT_LOG_LINES
        invariant
            log@.len() <= full.len(),
            log@.len() >= CHAT_LOG_LINES || log@.len() == full.len(),
            log@ == full.subrange(full.len() - log@.len(), full.len() as int),
        decreases log@.len(),
    {
        log.remove(0);
        assert(log@ =~= full.subrange(full.len() - log@.len(), full.len() as int));
    }
    proof {
        let keep = log@.len() as int;
        assert(log@[keep - 1] == full[full.len() - 1]);
        assert forall|i: int| 0 <= i < keep - 1 implies #[trigger] log@[i] == old(log)@[full.len() - keep + i] by {
            assert(log@[i] == full[full.len() - keep + i]);
        }
    }
}

} // verus!
