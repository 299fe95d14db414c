//! Laws of the game: properties that hold across sequences of operations.

use vstd::prelude::*;

use crate::board::{redact_tile, stored_character};
use crate::game::{
    entry_of, has_player, holds_pair, ids_sorted, members_ready, quorum, roster_after_set_role,
    roster_after_set_team, roster_rules, sees_everything, team_has_spymaster, viewer_reveal,
};
use crate::protocol::{Character, Delivery, GamePlayerState, PlayerRole, Team, Tile, Turn};
use crate::universe::{code_target, left_game, Universe};

verus! {

/// A change a player makes to their own place on a roster.
pub enum RosterChange {
    Team(u128, Option<Team>),
    Role(u128, PlayerRole),
}

/// The roster after the changes, applied in order.
pub open spec fn apply_changes(s: Seq<GamePlayerState>, changes: Seq<RosterChange>) -> Seq<
    GamePlayerState,
>
    decreases changes.len(),
{
    if changes.len() == 0 {
        s
    } else {
        let before = apply_changes(s, changes.drop_last());
        match changes.last() {
            RosterChange::Team(pid, team) => roster_after_set_team(before, pid, team),
            RosterChange::Role(pid, role) => roster_after_set_role(before, pid, role),
        }
    }
}

proof fn lemma_unique_ids(s: Seq<GamePlayerState>, a: int, b: int)
    requires
        ids_sorted(s),
        0 <= a < s.len(),
        0 <= b < s.len(),
        s[a].player.id == s[b].player.id,
    ensures
        a == b,
{
    if a < b {
        assert(s[a].player.id < s[b].player.id);
    } else if b < a {
        assert(s[b].player.id < s[a].player.id);
    }
}

/// Joining a team keeps the roster's order and its role and team rules.
pub proof fn lemma_set_team_keeps_rules(s: Seq<GamePlayerState>, pid: u128, team: Option<Team>)
    requires
        ids_sorted(s),
        roster_rules(s),
    ensures
        ids_sorted(roster_after_set_team(s, pid, team)),
        roster_rules(roster_after_set_team(s, pid, team)),
{
    let t = roster_after_set_team(s, pid, team);
    assert forall|a: int, b: int|
        0 <= a < t.len() && 0 <= b < t.len() && a != b && t[a].role == PlayerRole::Spymaster
            && t[b].role == PlayerRole::Spymaster implies t[a].team != t[b].team by {
        if s[a].player.id == pid && s[b].player.id == pid {
            lemma_unique_ids(s, a, b);
        } else if s[a].player.id == pid {
            assert(!team_has_spymaster(s, team));
            assert(!(s[b].role == PlayerRole::Spymaster && s[b].team == team));
        } else if s[b].player.id == pid {
            assert(!(s[a].role == PlayerRole::Spymaster && s[a].team == team));
        }
    }
}

/// Taking a role keeps the roster's order and its role and team rules.
pub proof fn lemma_set_role_keeps_rules(s: Seq<GamePlayerState>, pid: u128, role: PlayerRole)
    requires
        ids_sorted(s),
        roster_rules(s),
    ensures
        ids_sorted(roster_after_set_role(s, pid, role)),
        roster_rules(roster_after_set_role(s, pid, role)),
{
    let t = roster_after_set_role(s, pid, role);
    if has_player(s, pid) && entry_of(s, pid).team is Some {
        let k = choose|i: int| 0 <= i < s.len() && s[i].player.id == pid;
        let team = s[k].team;
        assert forall|a: int| 0 <= a < s.len() && s[a].player.id == pid implies a == k by {
            lemma_unique_ids(s, a, k);
        }
        assert forall|a: int, b: int|
            0 <= a < t.len() && 0 <= b < t.len() && a != b && t[a].role == PlayerRole::Spymaster
                && t[b].role == PlayerRole::Spymaster implies t[a].team != t[b].team by {
            if a != k && b != k {
                assert(s[a].role == PlayerRole::Spymaster);
                assert(s[b].role == PlayerRole::Spymaster);
            }
        }
    }
}

/// Whatever players do with their teams and roles, each team keeps at most one
/// spymaster, and a player without a team is a spectator.
pub proof fn lemma_roster_rules_kept(s: Seq<GamePlayerState>, changes: Seq<RosterChange>)
    requires
        ids_sorted(s),
        roster_rules(s),
    ensures
        ids_sorted(apply_changes(s, changes)),
        roster_rules(apply_changes(s, changes)),
    decreases changes.len(),
{
    if changes.len() > 0 {
        let before = apply_changes(s, changes.drop_last());
        lemma_roster_rules_kept(s, changes.drop_last());
        match changes.last() {
            RosterChange::Team(pid, team) => lemma_set_team_keeps_rules(before, pid, team),
            RosterChange::Role(pid, role) => lemma_set_role_keeps_rules(before, pid, role),
        }
    }
}

/// Some ready player plays `role` for `team`.
pub open spec fn ready_pair(s: Seq<GamePlayerState>, team: Team, role: PlayerRole) -> bool {
    exists|i: int| 0 <= i < s.len() && s[i].team == Some(team) && s[i].role == role && s[i].ready
}

/// The quorum holds exactly when each of the four team and role pairs is held by a
/// ready player and no other player of a team is still unready.
pub proof fn lemma_quorum_is_four_ready_pairs(s: Seq<GamePlayerState>)
    ensures
        quorum(s) <==> (ready_pair(s, Team::Red, PlayerRole::Spymaster) && ready_pair(
            s,
            Team::Red,
            PlayerRole::Operative,
        ) && ready_pair(s, Team::Blue, PlayerRole::Spymaster) && ready_pair(
            s,
            Team::Blue,
            PlayerRole::Operative,
        ) && members_ready(s)),
{
    if quorum(s) {
        let a = choose|i: int|
            0 <= i < s.len() && s[i].team == Some(Team::Red) && s[i].role == PlayerRole::Spymaster;
        let b = choose|i: int|
            0 <= i < s.len() && s[i].team == Some(Team::Red) && s[i].role == PlayerRole::Operative;
        let c = choose|i: int|
            0 <= i < s.len() && s[i].team == Some(Team::Blue) && s[i].role
                == PlayerRole::Spymaster;
        let d = choose|i: int|
            0 <= i < s.len() && s[i].team == Some(Team::Blue) && s[i].role
                == PlayerRole::Operative;
        assert(s[a].ready && s[b].ready && s[c].ready && s[d].ready);
    }
}

/// A player of a team who is not a spectator and not ready keeps the quorum from
/// holding.
pub proof fn lemma_unready_player_blocks_quorum(s: Seq<GamePlayerState>, i: int)
    requires
        0 <= i < s.len(),
        s[i].team is Some,
        s[i].role != PlayerRole::Spectator,
        !s[i].ready,
    ensures
        !quorum(s),
{
}

/// Without a player in one of the four team and role pairs the quorum does not hold,
/// so removing the only holder of a pair prevents play from starting.
pub proof fn lemma_missing_pair_blocks_quorum(
    s: Seq<GamePlayerState>,
    team: Team,
    role: PlayerRole,
)
    requires
        role != PlayerRole::Spectator,
        !holds_pair(s, team, role),
    ensures
        !quorum(s),
{
}

/// How a tile is shown to a roster member: unspotted tiles stay hidden during pregame
/// and from operatives at all times, spymasters and spectators see every character
/// once play has started, and a spotted tile shows its character to everyone.
pub proof fn lemma_redaction(s: Seq<GamePlayerState>, k: int, turn: Turn, t: Tile)
    requires
        ids_sorted(s),
        0 <= k < s.len(),
        stored_character(t.character),
    ensures
        viewer_reveal(s, s[k].player.id, turn) == sees_everything(s[k].role, turn),
        ({
            let shown = redact_tile(t, viewer_reveal(s, s[k].player.id, turn));
            &&& shown.codeword == t.codeword
            &&& shown.spotted == t.spotted
            &&& (!t.spotted && turn == Turn::Pregame ==> shown.character == Character::Unknown)
            &&& (!t.spotted && turn != Turn::Pregame && (s[k].role == PlayerRole::Spymaster
                || s[k].role == PlayerRole::Spectator) ==> shown.character == t.character)
            &&& (!t.spotted && s[k].role == PlayerRole::Operative ==> shown.character
                == Character::Unknown)
            &&& (t.spotted ==> shown.character == t.character)
        }),
{
    let viewer = s[k].player.id;
    if viewer_reveal(s, viewer, turn) {
        let a = choose|a: int|
            0 <= a < s.len() && s[a].player.id == viewer && sees_everything(s[a].role, turn);
        lemma_unique_ids(s, a, k);
    }
}

/// No two matches that can still be joined share a join code: every registry
/// operation keeps the registry well formed, so this holds however many matches were
/// started.
pub proof fn lemma_joinable_codes_distinct(u: Universe, g1: u128, g2: u128)
    requires
        u.wf(),
        u.game_map().contains_key(g1),
        u.game_map().contains_key(g2),
        g1 != g2,
        u.game_map()[g1].spec_joinable(),
        u.game_map()[g2].spec_joinable(),
    ensures
        u.game_map()[g1].spec_join_code() != u.game_map()[g2].spec_join_code(),
{
    let t = u.join_table();
    let i = choose|i: int| 0 <= i < t.len() && t[i] == (u.game_map()[g1].spec_join_code(), g1);
    let j = choose|j: int| 0 <= j < t.len() && t[j] == (u.game_map()[g2].spec_join_code(), g2);
    if i < j {
        assert(t[i].0 != t[j].0);
    } else if j < i {
        assert(t[j].0 != t[i].0);
    }
}

/// A match that is gone from the registry, and from its join code table, is reached
/// neither by its id nor by any code, its former one included.
pub proof fn lemma_removed_game_unreachable(u: Universe, gid: u128, code: Seq<char>)
    requires
        u.wf(),
        !u.game_map().contains_key(gid),
        forall|i: int| 0 <= i < u.join_table().len() ==> (#[trigger] u.join_table()[i]).1 != gid,
    ensures
        code_target(u.join_table(), code) != Some(gid),
{
    let t = u.join_table();
    if exists|i: int| 0 <= i < t.len() && t[i].0 == code {
        let i = choose|i: int| 0 <= i < t.len() && t[i].0 == code;
        assert(t[i].1 != gid);
    }
}

/// When the last player leaves a match, the match is gone: no lookup by its id finds
/// it, and no join code, its former one included, leads to it.
pub proof fn lemma_last_player_leaving_removes_game(
    before: Universe,
    after: Universe,
    gid: u128,
    pid: u128,
    out_before: Seq<Delivery>,
    out_after: Seq<Delivery>,
    code: Seq<char>,
)
    requires
        after.wf(),
        before.game_map().contains_key(gid),
        before.game_map()[gid].roster().len() == 1,
        has_player(before.game_map()[gid].roster(), pid),
        left_game(before, after, gid, pid, out_before, out_after),
    ensures
        !after.game_map().contains_key(gid),
        code_target(after.join_table(), code) != Some(gid),
{
    lemma_removed_game_unreachable(after, gid, code);
}

} // verus!
