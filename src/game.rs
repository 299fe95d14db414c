//! One match: its roster, the rules that teams and roles keep, readiness and the
//! start of play, and the snapshots each member is sent.

use vstd::prelude::*;

use crate::board::{redact_tile, spec_initial_turn, Board};
use crate::rules::{lemma_set_role_keeps_rules, lemma_set_team_keeps_rules};
use crate::protocol::{
    same_message, same_team, Delivery, GameInfo, GamePlayerState, GameStateSnapshot, Message, PlayerInfo,
    PlayerRole, Team, Turn, BOARD_TILES,
};

verus! {

/// Roster entries are ordered by strictly increasing player id, so ids are unique.
pub open spec fn ids_sorted(s: Seq<GamePlayerState>) -> bool {
    forall|i: int, j: int| 0 <= i < j < s.len() ==> s[i].player.id < s[j].player.id
}

/// No two roster entries are the spymaster of the same team.
pub open spec fn one_spymaster_per_team(s: Seq<GamePlayerState>) -> bool {
    forall|i: int, j: int|
        0 <= i < s.len() && 0 <= j < s.len() && i != j && s[i].role == PlayerRole::Spymaster
            && s[j].role == PlayerRole::Spymaster ==> s[i].team != s[j].team
}

/// A roster entry without a team is a spectator.
pub open spec fn teamless_spectate(s: Seq<GamePlayerState>) -> bool {
    forall|i: int| 0 <= i < s.len() && s[i].team is None ==> s[i].role == PlayerRole::Spectator
}

/// The role and team rules every roster keeps.
pub open spec fn roster_rules(s: Seq<GamePlayerState>) -> bool {
    one_spymaster_per_team(s) && teamless_spectate(s)
}

pub open spec fn has_player(s: Seq<GamePlayerState>, pid: u128) -> bool {
    exists|i: int| 0 <= i < s.len() && s[i].player.id == pid
}

/// The entry of player `pid`; meaningful when `has_player(s, pid)`.
pub open spec fn entry_of(s: Seq<GamePlayerState>, pid: u128) -> GamePlayerState {
    s[choose|i: int| 0 <= i < s.len() && s[i].player.id == pid]
}

pub open spec fn team_has_spymaster(s: Seq<GamePlayerState>, team: Option<Team>) -> bool {
    exists|i: int| 0 <= i < s.len() && s[i].role == PlayerRole::Spymaster && s[i].team == team
}

/// An entry after its player joined `team`: a spectator without a team, else an
/// operative when the team has a spymaster, else the team's new spymaster.
pub open spec fn joined_team(e: GamePlayerState, team: Option<Team>, have_spymaster: bool) -> GamePlayerState {
    GamePlayerState {
        player: e.player,
        team,
        role: if team is None {
            PlayerRole::Spectator
        } else if have_spymaster {
            PlayerRole::Operative
        } else {
            PlayerRole::Spymaster
        },
        ready: false,
    }
}

pub open spec fn roster_after_set_team(s: Seq<GamePlayerState>, pid: u128, team: Option<Team>) -> Seq<GamePlayerState> {
    s.map_values(
        |e: GamePlayerState|
            if e.player.id == pid {
                joined_team(e, team, team_has_spymaster(s, team))
            } else {
                e
            },
    )
}

pub open spec fn with_role(e: GamePlayerState, role: PlayerRole) -> GamePlayerState {
    GamePlayerState { player: e.player, team: e.team, role, ready: false }
}

/// The roster after `pid` asked for `role`: nothing changes for a player without a team;
/// a new spymaster demotes the team's former spymaster to operative.
pub open spec fn roster_after_set_role(s: Seq<GamePlayerState>, pid: u128, role: PlayerRole) -> Seq<GamePlayerState> {
    if has_player(s, pid) && entry_of(s, pid).team is Some {
        let team = entry_of(s, pid).team;
        s.map_values(
            |e: GamePlayerState|
                if e.player.id == pid {
                    with_role(e, role)
                } else if role == PlayerRole::Spymaster && e.role == PlayerRole::Spymaster
                    && e.team == team {
                    with_role(e, PlayerRole::Operative)
                } else {
                    e
                },
        )
    } else {
        s
    }
}

pub open spec fn roster_after_mark_ready(s: Seq<GamePlayerState>, pid: u128) -> Seq<GamePlayerState> {
    s.map_values(
        |e: GamePlayerState|
            if e.player.id == pid {
                GamePlayerState { player: e.player, team: e.team, role: e.role, ready: true }
            } else {
                e
            },
    )
}

/// Some entry plays `role` for `team`.
pub open spec fn holds_pair(s: Seq<GamePlayerState>, team: Team, role: PlayerRole) -> bool {
    exists|i: int| 0 <= i < s.len() && s[i].team == Some(team) && s[i].role == role
}

/// Every player with a team and a role other than spectator is ready.
pub open spec fn members_ready(s: Seq<GamePlayerState>) -> bool {
    forall|i: int|
        0 <= i < s.len() && s[i].team is Some && s[i].role != PlayerRole::Spectator ==> s[i].ready
}

/// The readiness quorum: both teams have a spymaster and an operative, and every
/// such player is ready.
pub open spec fn quorum(s: Seq<GamePlayerState>) -> bool {
    &&& holds_pair(s, Team::Red, PlayerRole::Spymaster)
    &&& holds_pair(s, Team::Red, PlayerRole::Operative)
    &&& holds_pair(s, Team::Blue, PlayerRole::Spymaster)
    &&& holds_pair(s, Team::Blue, PlayerRole::Operative)
    &&& members_ready(s)
}

/// A viewer in `role` sees every character once play has started, unless an operative.
pub open spec fn sees_everything(role: PlayerRole, turn: Turn) -> bool {
    (role == PlayerRole::Spymaster || role == PlayerRole::Spectator) && turn != Turn::Pregame
}

pub open spec fn viewer_reveal(s: Seq<GamePlayerState>, viewer: u128, turn: Turn) -> bool {
    exists|i: int| 0 <= i < s.len() && s[i].player.id == viewer && sees_everything(s[i].role, turn)
}

pub open spec fn new_entry(info: PlayerInfo) -> GamePlayerState {
    GamePlayerState { player: info, team: None, role: PlayerRole::Spectator, ready: false }
}

pub open spec fn roster_ids(s: Seq<GamePlayerState>) -> Seq<u128> {
    s.map_values(|e: GamePlayerState| e.player.id)
}

/// One copy of `m` for each of `ids`, in order.
pub open spec fn broadcast_to(ids: Seq<u128>, m: Message) -> Seq<Delivery> {
    ids.map_values(|id: u128| Delivery { recipient: id, message: m })
}

/// Each of `ids`, in order, gets a copy of `m` after what `before` already held.
pub open spec fn copies_sent(before: Seq<Delivery>, after: Seq<Delivery>, ids: Seq<u128>, m: Message) -> bool {
    &&& after.len() == before.len() + ids.len()
    &&& after.take(before.len() as int) == before
    &&& forall|i: int|
        0 <= i < ids.len() ==> (#[trigger] after[before.len() + i]).recipient == ids[i]
            && same_message(m, after[before.len() + i].message)
}

/// `m` is the snapshot of match `g` as `viewer` sees it.
pub open spec fn is_snapshot_of(m: Message, g: Game, viewer: u128) -> bool {
    match m {
        Message::GameStateSnapshot(snap) => {
            &&& snap.players@ == g.roster()
            &&& snap.turn == g.spec_turn()
            &&& snap.tiles@.len() == g.spec_board().spec_tiles().len()
            &&& forall|i: int|
                0 <= i < snap.tiles@.len() ==> #[trigger] snap.tiles@[i] == redact_tile(
                    g.spec_board().spec_tiles()[i],
                    viewer_reveal(g.roster(), viewer, g.spec_turn()),
                )
        },
        _ => false,
    }
}

/// Each roster member, in roster order, gets their own snapshot of `g`.
pub open spec fn snapshots_sent(before: Seq<Delivery>, after: Seq<Delivery>, g: Game) -> bool {
    &&& after.len() == before.len() + g.roster().len()
    &&& after.take(before.len() as int) == before
    &&& forall|i: int|
        0 <= i < g.roster().len() ==> (#[trigger] after[before.len() + i]).recipient
            == g.roster()[i].player.id && is_snapshot_of(
            after[before.len() + i].message,
            g,
            g.roster()[i].player.id,
        )
}

/// One match: its roster, its turn and its board.
pub struct Game {
    id: u128,
    join_code: String,
    players: Vec<GamePlayerState>,
    turn: Turn,
    board: Board,
}

impl Game {
    pub closed spec fn spec_id(&self) -> u128 {
        self.id
    }

    pub closed spec fn spec_join_code(&self) -> Seq<char> {
        self.join_code@
    }

    pub closed spec fn roster(&self) -> Seq<GamePlayerState> {
        self.players@
    }

    pub closed spec fn spec_turn(&self) -> Turn {
        self.turn
    }

    pub closed spec fn spec_board(&self) -> Board {
        self.board
    }

    pub open spec fn wf(&self) -> bool {
        &&& ids_sorted(self.roster())
        &&& roster_rules(self.roster())
        &&& self.spec_board().wf()
    }

    pub open spec fn spec_joinable(&self) -> bool {
        self.spec_turn() == Turn::Pregame
    }

    /// A new match in pregame with an empty roster.
    pub fn new(id: u128, join_code: String, board: Board) -> (r: Game)
        requires
            board.wf(),
        ensures
            r.wf(),
            r.spec_id() == id,
            r.spec_join_code() == join_code@,
            r.roster().len() == 0,
            r.spec_turn() == Turn::Pregame,
            r.spec_board() == board,
    {
        Game { id, join_code, players: Vec::new(), turn: Turn::Pregame, board }
    }

    pub fn id(&self) -> (r: u128)
        ensures
            r == self.spec_id(),
    {
        self.id
    }

    pub fn join_code(&self) -> (r: &str)
        ensures
            r@ == self.spec_join_code(),
    {
        self.join_code.as_str()
    }

    pub fn game_info(&self) -> (r: GameInfo)
        ensures
            r.game_id == self.spec_id(),
            r.join_code@ == self.spec_join_code(),
    {
        GameInfo { game_id: self.id, join_code: self.join_code.clone() }
    }

    /// Players may join, and pick teams and roles, only before play starts.
    pub fn is_joinable(&self) -> (r: bool)
        ensures
            r == self.spec_joinable(),
    {
        self.turn == Turn::Pregame
    }

    pub fn is_empty(&self) -> (r: bool)
        ensures
            r == (self.roster().len() == 0),
    {
        self.players.len() == 0
    }

    pub fn turn(&self) -> (r: Turn)
        ensures
            r == self.spec_turn(),
    {
        self.turn
    }

    pub fn board(&self) -> (r: &Board)
        ensures
            *r == self.spec_board(),
    {
        &self.board
    }

    pub fn players(&self) -> (r: &Vec<GamePlayerState>)
        ensures
            r@ == self.roster(),
    {
        &self.players
    }

    /// Position of player `pid` in the roster.
    pub fn find_player(&self, pid: u128) -> (r: Option<usize>)
        requires
            ids_sorted(self.roster()),
        ensures
            match r {
                Some(k) => k < self.roster().len() && self.roster()[k as int].player.id == pid,
                None => !has_player(self.roster(), pid),
            },
    {
        let mut i: usize = 0;
        while i < self.players.len()
            invariant
                i <= self.players@.len(),
                forall|j: int| 0 <= j < i ==> self.players@[j].player.id != pid,
            decreases self.players@.len() - i,
        {
            if self.players[i].player.id == pid {
                return Some(i);
            }
            i = i + 1;
        }
        None
    }

    /// Adds a player as a teamless spectator who is not ready; returns the new entry,
    /// or `None` (and changes nothing) when the player is already on the roster.
    pub fn add_player(&mut self, info: PlayerInfo) -> (r: Option<GamePlayerState>)
        requires
            old(self).wf(),
        ensures
            final(self).wf(),
            final(self).spec_id() == old(self).spec_id(),
            final(self).spec_join_code() == old(self).spec_join_code(),
            final(self).spec_turn() == old(self).spec_turn(),
            final(self).spec_board() == old(self).spec_board(),
            has_player(old(self).roster(), info.id) ==> r is None && final(self).roster()
                == old(self).roster(),
            !has_player(old(self).roster(), info.id) ==> r == Some(new_entry(info)) && exists|
                k: int,
            |
                0 <= k <= old(self).roster().len() && final(self).roster() == old(self).roster().insert(k, new_entry(info)),
    {
        let ghost s = self.players@;
        let pid = info.id;
        let mut i: usize = 0;
        while i < self.players.len() && self.players[i].player.id < pid
            invariant
                s == self.players@,
                self.wf(),
                i <= s.len(),
                forall|j: int| 0 <= j < i ==> s[j].player.id < pid,
            decreases s.len() - i,
        {
            i = i + 1;
        }
        if i < self.players.len() && self.players[i].player.id == pid {
            assert(s[i as int].player.id == pid);
            return None;
        }
        proof {
            assert forall|j: int| i <= j < s.len() implies s[j].player.id > pid by {
                if j > i {
                    assert(s[i as int].player.id < s[j].player.id);
                }
            }
        }
        let entry = GamePlayerState {
            player: info.clone(),
            team: None,
            role: PlayerRole::Spectator,
            ready: false,
        };
        let r = entry.clone();
        self.players.insert(i, entry);
        proof {
            let t = self.players@;
            assert(t == s.insert(i as int, new_entry(info)));
            assert forall|a: int, b: int| 0 <= a < b < t.len() implies t[a].player.id
                < t[b].player.id by {
                if b < i {
                } else if a < i && b == i {
                } else if a < i {
                    assert(t[b] == s[b - 1]);
                } else if a == i {
                    assert(t[b] == s[b - 1]);
                } else {
                    assert(t[a] == s[a - 1]);
                    assert(t[b] == s[b - 1]);
                }
            }
            assert forall|a: int, b: int|
                0 <= a < t.len() && 0 <= b < t.len() && a != b && t[a].role
                    == PlayerRole::Spymaster && t[b].role == PlayerRole::Spymaster implies t[a].team
                != t[b].team by {
                let sa = if a < i {
                    a
                } else {
                    a - 1
                };
                let sb = if b < i {
                    b
                } else {
                    b - 1
                };
                assert(t[a] == s[sa]);
                assert(t[b] == s[sb]);
            }
            assert forall|a: int| 0 <= a < t.len() && t[a].team is None implies t[a].role
                == PlayerRole::Spectator by {
                if a != i {
                    let sa = if a < i {
                        a
                    } else {
                        a - 1
                    };
                    assert(t[a] == s[sa]);
                }
            }
        }
        Some(r)
    }

    /// Removes a player; returns whether they were on the roster.
    pub fn remove_player(&mut self, pid: u128) -> (r: bool)
        requires
            old(self).wf(),
        ensures
            final(self).wf(),
            final(self).spec_id() == old(self).spec_id(),
            final(self).spec_join_code() == old(self).spec_join_code(),
            final(self).spec_turn() == old(self).spec_turn(),
            final(self).spec_board() == old(self).spec_board(),
            r == has_player(old(self).roster(), pid),
            !r ==> final(self).roster() == old(self).roster(),
            r ==> exists|k: int|
                0 <= k < old(self).roster().len() && old(self).roster()[k].player.id == pid
                    && final(self).roster() == old(self).roster().remove(k),
            !has_player(final(self).roster(), pid),
    {
        let ghost s = self.players@;
        match self.find_player(pid) {
            None => false,
            Some(k) => {
                self.players.remove(k);
                proof {
                    let t = self.players@;
                    assert(t == s.remove(k as int));
                    assert forall|a: int| 0 <= a < t.len() implies #[trigger] t[a] == s[
                        if a < k {
                            a
                        } else {
                            a + 1
                        }
                    ] by {}
                    assert forall|a: int, b: int| 0 <= a < b < t.len() implies t[a].player.id
                        < t[b].player.id by {
                        let sa = if a < k {
                            a
                        } else {
                            a + 1
                        };
                        let sb = if b < k {
                            b
                        } else {
                            b + 1
                        };
                        assert(t[a] == s[sa]);
                        assert(t[b] == s[sb]);
                    }
                    assert forall|a: int, b: int|
                        0 <= a < t.len() && 0 <= b < t.len() && a != b && t[a].role
                            == PlayerRole::Spymaster && t[b].role
                            == PlayerRole::Spymaster implies t[a].team != t[b].team by {
                        let sa = if a < k {
                            a
                        } else {
                            a + 1
                        };
                        let sb = if b < k {
                            b
                        } else {
                            b + 1
                        };
                        assert(t[a] == s[sa]);
                        assert(t[b] == s[sb]);
                    }
                    assert forall|a: int| 0 <= a < t.len() && t[a].team is None implies t[a].role
                        == PlayerRole::Spectator by {
                        let sa = if a < k {
                            a
                        } else {
                            a + 1
                        };
                        assert(t[a] == s[sa]);
                    }
                    assert forall|a: int| 0 <= a < t.len() implies t[a].player.id != pid by {
                        let sa = if a < k {
                            a
                        } else {
                            a + 1
                        };
                        assert(t[a] == s[sa]);
                        assert(sa != k);
                    }
                }
                true
            },
        }
    }

    /// Whether some player is the spymaster of `team`.
    pub fn has_spymaster(&self, team: Option<Team>) -> (r: bool)
        ensures
            r == team_has_spymaster(self.roster(), team),
    {
        let mut i: usize = 0;
        while i < self.players.len()
            invariant
                i <= self.players@.len(),
                forall|j: int|
                    0 <= j < i ==> !(self.players@[j].role == PlayerRole::Spymaster
                        && self.players@[j].team == team),
            decreases self.players@.len() - i,
        {
            if self.players[i].role == PlayerRole::Spymaster && same_team(
                self.players[i].team,
                team,
            ) {
                return true;
            }
            i = i + 1;
        }
        false
    }

    /// Moves a player to `team` (or out of both teams), clearing their readiness: without
    /// a team they spectate; they become the team's spymaster when it has none, and an
    /// operative otherwise.
    pub fn set_player_team(&mut self, pid: u128, team: Option<Team>)
        requires
            old(self).wf(),
        ensures
            final(self).wf(),
            final(self).spec_id() == old(self).spec_id(),
            final(self).spec_join_code() == old(self).spec_join_code(),
            final(self).spec_turn() == old(self).spec_turn(),
            final(self).spec_board() == old(self).spec_board(),
            final(self).roster() == roster_after_set_team(old(self).roster(), pid, team),
    {
        let ghost s = self.players@;
        let have = self.has_spymaster(team);
        match self.find_player(pid) {
            None => {
                assert(roster_after_set_team(s, pid, team) =~= s);
            },
            Some(k) => {
                let role = if team.is_none() {
                    PlayerRole::Spectator
                } else if have {
                    PlayerRole::Operative
                } else {
                    PlayerRole::Spymaster
                };
                let entry = GamePlayerState {
                    player: self.players[k].player.clone(),
                    team,
                    role,
                    ready: false,
                };
                self.players.set(k, entry);
                proof {
                    let t = self.players@;
                    assert forall|a: int| 0 <= a < s.len() implies (s[a].player.id == pid <==> a
                        == k) by {
                        if a < k {
                            assert(s[a].player.id < s[k as int].player.id);
                        } else if a > k {
                            assert(s[k as int].player.id < s[a].player.id);
                        }
                    }
                    assert(t =~= roster_after_set_team(s, pid, team));
                    lemma_set_team_keeps_rules(s, pid, team);
                }
            },
        }
    }

    /// A player with a team takes `role`, clearing their readiness; a new spymaster
    /// demotes the team's other spymaster to an operative who is not ready. Nothing
    /// changes for a player without a team.
    pub fn set_player_role(&mut self, pid: u128, role: PlayerRole)
        requires
            old(self).wf(),
        ensures
            final(self).wf(),
            final(self).spec_id() == old(self).spec_id(),
            final(self).spec_join_code() == old(self).spec_join_code(),
            final(self).spec_turn() == old(self).spec_turn(),
            final(self).spec_board() == old(self).spec_board(),
            final(self).roster() == roster_after_set_role(old(self).roster(), pid, role),
    {
        let ghost s = self.players@;
        let k = match self.find_player(pid) {
            None => {
                return ;
            },
            Some(k) => k,
        };
        let my_team = self.players[k].team;
        proof {
            assert forall|a: int| 0 <= a < s.len() implies (s[a].player.id == pid <==> a == k) by {
                if a < k {
                    assert(s[a].player.id < s[k as int].player.id);
                } else if a > k {
                    assert(s[k as int].player.id < s[a].player.id);
                }
            }
            assert(has_player(s, pid));
            assert(entry_of(s, pid) == s[k as int]);
        }
        if my_team.is_none() {
            return ;
        }
        let mut out: Vec<GamePlayerState> = Vec::new();
        let mut i: usize = 0;
        while i < self.players.len()
            invariant
                s == self.players@,
                i <= s.len(),
                k < s.len(),
                my_team == s[k as int].team,
                out@.len() == i,
                forall|j: int|
                    0 <= j < i ==> #[trigger] out@[j] == (if j == k {
                        with_role(s[j], role)
                    } else if role == PlayerRole::Spymaster && s[j].role == PlayerRole::Spymaster
                        && s[j].team == my_team {
                        with_role(s[j], PlayerRole::Operative)
                    } else {
                        s[j]
                    }),
            decreases s.len() - i,
        {
            let e = &self.players[i];
            let next = if i == k {
                GamePlayerState { player: e.player.clone(), team: e.team, role, ready: false }
            } else if role == PlayerRole::Spymaster && e.role == PlayerRole::Spymaster
                && same_team(e.team, my_team) {
                GamePlayerState {
                    player: e.player.clone(),
                    team: e.team,
                    role: PlayerRole::Operative,
                    ready: false,
                }
            } else {
                e.clone()
            };
            out.push(next);
            i = i + 1;
        }
        self.players = out;
        proof {
            let t = self.players@;
            assert(t =~= roster_after_set_role(s, pid, role));
            lemma_set_role_keeps_rules(s, pid, role);
        }
    }

    /// Whether the readiness quorum holds.
    pub fn has_quorum(&self) -> (r: bool)
        ensures
            r == quorum(self.roster()),
    {
        let ghost s = self.players@;
        let mut red_spymaster = false;
        let mut red_operative = false;
        let mut blue_spymaster = false;
        let mut blue_operative = false;
        let mut all_ready = true;
        let mut i: usize = 0;
        while i < self.players.len()
            invariant
                s == self.players@,
                i <= s.len(),
                red_spymaster == exists|j: int|
                    0 <= j < i && s[j].team == Some(Team::Red) && s[j].role
                        == PlayerRole::Spymaster,
                red_operative == exists|j: int|
                    0 <= j < i && s[j].team == Some(Team::Red) && s[j].role
                        == PlayerRole::Operative,
                blue_spymaster == exists|j: int|
                    0 <= j < i && s[j].team == Some(Team::Blue) && s[j].role
                        == PlayerRole::Spymaster,
                blue_operative == exists|j: int|
                    0 <= j < i && s[j].team == Some(Team::Blue) && s[j].role
                        == PlayerRole::Operative,
                all_ready == forall|j: int|
                    0 <= j < i && s[j].team is Some && s[j].role != PlayerRole::Spectator
                        ==> s[j].ready,
            decreases s.len() - i,
        {
            let e = &self.players[i];
            match e.team {
                Some(Team::Red) => {
                    if e.role == PlayerRole::Spymaster {
                        red_spymaster = true;
                    } else if e.role == PlayerRole::Operative {
                        red_operative = true;
                    }
                },
                Some(Team::Blue) => {
                    if e.role == PlayerRole::Spymaster {
                        blue_spymaster = true;
                    } else if e.role == PlayerRole::Operative {
                        blue_operative = true;
                    }
                },
                None => {},
            }
            if e.team.is_some() && e.role != PlayerRole::Spectator && !e.ready {
                all_ready = false;
            }
            proof {
                let n = i + 1;
                assert(red_spymaster == exists|j: int|
                    0 <= j < n && s[j].team == Some(Team::Red) && s[j].role
                        == PlayerRole::Spymaster);
                assert(red_operative == exists|j: int|
                    0 <= j < n && s[j].team == Some(Team::Red) && s[j].role
                        == PlayerRole::Operative);
                assert(blue_spymaster == exists|j: int|
                    0 <= j < n && s[j].team == Some(Team::Blue) && s[j].role
                        == PlayerRole::Spymaster);
                assert(blue_operative == exists|j: int|
                    0 <= j < n && s[j].team == Some(Team::Blue) && s[j].role
                        == PlayerRole::Operative);
            }
            i = i + 1;
        }
        red_spymaster && red_operative && blue_spymaster && blue_operative && all_ready
    }

    /// Marks a player ready; when the match is still in pregame and the readiness
    /// quorum then holds, play starts with the board's initial turn.
    pub fn mark_player_ready(&mut self, pid: u128)
        requires
            old(self).wf(),
        ensures
            final(self).wf(),
            final(self).spec_id() == old(self).spec_id(),
            final(self).spec_join_code() == old(self).spec_join_code(),
            final(self).spec_board() == old(self).spec_board(),
            final(self).roster() == roster_after_mark_ready(old(self).roster(), pid),
            final(self).spec_turn() == if old(self).spec_turn() == Turn::Pregame && quorum(
                final(self).roster(),
            ) {
                spec_initial_turn(old(self).spec_board().spec_starting_team())
            } else {
                old(self).spec_turn()
            },
    {
        let ghost s = self.players@;
        match self.find_player(pid) {
            None => {
                assert(roster_after_mark_ready(s, pid) =~= s);
            },
            Some(k) => {
                let entry = GamePlayerState {
                    player: self.players[k].player.clone(),
                    team: self.players[k].team,
                    role: self.players[k].role,
                    ready: true,
                };
                self.players.set(k, entry);
                proof {
                    let t = self.players@;
                    assert forall|a: int| 0 <= a < s.len() implies (s[a].player.id == pid <==> a
                        == k) by {
                        if a < k {
                            assert(s[a].player.id < s[k as int].player.id);
                        } else if a > k {
                            assert(s[k as int].player.id < s[a].player.id);
                        }
                    }
                    assert(t =~= roster_after_mark_ready(s, pid));
                }
            },
        }
        if self.turn == Turn::Pregame && self.has_quorum() {
            self.turn = self.board.initial_turn();
        }
    }

    /// Whether `viewer` sees every character: a spymaster or spectator of this match
    /// once play has started.
    pub fn reveals_to(&self, viewer: u128) -> (r: bool)
        requires
            ids_sorted(self.roster()),
        ensures
            r == viewer_reveal(self.roster(), viewer, self.spec_turn()),
    {
        match self.find_player(viewer) {
            None => false,
            Some(k) => {
                let role = self.players[k].role;
                let r = (role == PlayerRole::Spymaster || role == PlayerRole::Spectator)
                    && self.turn != Turn::Pregame;
                proof {
                    let s = self.players@;
                    if viewer_reveal(s, viewer, self.turn) {
                        let a = choose|a: int|
                            0 <= a < s.len() && s[a].player.id == viewer && sees_everything(
                                s[a].role,
                                self.turn,
                            );
                        if a < k {
                            assert(s[a].player.id < s[k as int].player.id);
                        } else if a > k {
                            assert(s[k as int].player.id < s[a].player.id);
                        }
                    }
                }
                r
            },
        }
    }

    /// The match as `viewer` sees it: every roster entry, the tiles redacted for the
    /// viewer, and the turn.
    pub fn snapshot_for(&self, viewer: u128) -> (r: GameStateSnapshot)
        requires
            self.wf(),
        ensures
            r.players@ == self.roster(),
            r.turn == self.spec_turn(),
            r.tiles@.len() == BOARD_TILES,
            r.tiles@.len() == self.spec_board().spec_tiles().len(),
            forall|i: int|
                0 <= i < r.tiles@.len() ==> #[trigger] r.tiles@[i] == redact_tile(
                    self.spec_board().spec_tiles()[i],
                    viewer_reveal(self.roster(), viewer, self.spec_turn()),
                ),
    {
        let reveal = self.reveals_to(viewer);
        let mut players: Vec<GamePlayerState> = Vec::new();
        let mut i: usize = 0;
        while i < self.players.len()
            invariant
                i <= self.players@.len(),
                players@ == self.players@.take(i as int),
            decreases self.players@.len() - i,
        {
            players.push(self.players[i].clone());
            i = i + 1;
            assert(players@ =~= self.players@.take(i as int));
        }
        assert(players@ =~= self.players@);
        GameStateSnapshot { players, tiles: self.board.tiles(reveal), turn: self.turn }
    }

    /// Queues `message` for every roster member, in roster order.
    pub fn broadcast(&self, message: &Message, out: &mut Vec<Delivery>)
        ensures
            copies_sent(old(out)@, final(out)@, roster_ids(self.roster()), *message),
            !(message is GameStateSnapshot) ==> final(out)@ == old(out)@ + broadcast_to(
                roster_ids(self.roster()),
                *message,
            ),
    {
        let ghost start = out@;
        let ghost ids = roster_ids(self.players@);
        assert(out@.take(start.len() as int) =~= start);
        let mut i: usize = 0;
        while i < self.players.len()
            invariant
                ids == roster_ids(self.players@),
                i <= self.players@.len(),
                copies_sent(start, out@, ids.take(i as int), *message),
            decreases self.players@.len() - i,
        {
            let ghost before = out@;
            let m = message.clone();
            out.push(Delivery { recipient: self.players[i].player.id, message: m });
            proof {
                assert(out@.take(start.len() as int) =~= before.take(start.len() as int));
                assert forall|k: int| 0 <= k < i + 1 implies (#[trigger] out@[start.len() + k]).recipient
                    == ids.take(i + 1)[k] && same_message(*message, out@[start.len() + k].message) by {
                    if k < i {
                        assert(out@[start.len() + k] == before[start.len() + k]);
                    }
                }
            }
            i = i + 1;
        }
        assert(ids.take(self.players@.len() as int) =~= ids);
        proof {
            if !(message is GameStateSnapshot) {
                assert forall|k: int| 0 <= k < ids.len() implies out@[start.len() + k] == (Delivery {
                    recipient: ids[k],
                    message: *message,
                }) by {
                    assert(ids.take(ids.len() as int)[k] == ids[k]);
                    assert(same_message(*message, out@[start.len() + k].message));
                }
                assert forall|k: int| 0 <= k < start.len() implies out@[k] == start[k] by {
                    assert(out@.take(start.len() as int)[k] == out@[k]);
                }
                assert(out@ =~= start + broadcast_to(ids, *message));
            }
        }
    }

    /// Queues for every roster member, in roster order, their own snapshot.
    pub fn broadcast_state(&self, out: &mut Vec<Delivery>)
        requires
            self.wf(),
        ensures
            snapshots_sent(old(out)@, final(out)@, *self),
    {
        let ghost start = out@;
        let mut i: usize = 0;
        while i < self.players.len()
            invariant
                self.wf(),
                i <= self.players@.len(),
                out@.len() == start.len() + i,
                out@.take(start.len() as int) == start,
                forall|k: int|
                    0 <= k < i ==> (#[trigger] out@[start.len() + k]).recipient
                        == self.players@[k].player.id && is_snapshot_of(
                        out@[start.len() + k].message,
                        *self,
                        self.players@[k].player.id,
                    ),
            decreases self.players@.len() - i,
        {
            let viewer = self.players[i].player.id;
            let snap = self.snapshot_for(viewer);
            let ghost before = out@;
            out.push(Delivery { recipient: viewer, message: Message::GameStateSnapshot(snap) });
            proof {
                assert(out@.take(start.len() as int) =~= before.take(start.len() as int));
                assert forall|k: int| 0 <= k < i + 1 implies (#[trigger] out@[start.len()
                    + k]).recipient == self.players@[k].player.id && is_snapshot_of(
                    out@[start.len() + k].message,
                    *self,
                    self.players@[k].player.id,
                ) by {
                    if k < i {
                        assert(out@[start.len() + k] == before[start.len() + k]);
                    }
                }
            }
            i = i + 1;
        }
    }
}

} // verus!
