//! The registry: connected sessions, live matches and the join code table.

use vstd::prelude::*;
use std::collections::HashMap;

use crate::board::Board;
use crate::protocol::BOARD_TILES;
use crate::board::spec_initial_turn;
use crate::game::{
    broadcast_to, copies_sent, has_player, is_snapshot_of, new_entry, quorum, roster_after_mark_ready,
    roster_after_set_role, roster_after_set_team, roster_ids, snapshots_sent, Game,
};
use crate::join_code::{
    generate_join_code, is_code_text, normalize_join_code, normalized, JOIN_CODE_LEN,
};
use crate::protocol::{
    fails_with, Delivery, GamePlayerState, Message, PlayerDisconnectedMessage, PlayerInfo,
    PlayerRole, ProtocolError, ProtocolErrorKind, Team, Turn,
};
use crate::random::random_uuid;

verus! {

broadcast use vstd::std_specs::hash::group_hash_axioms;

/// A connected session as the registry knows it.
pub struct UniversePlayerState {
    pub player_info: PlayerInfo,
    pub is_authenticated: bool,
    pub game_id: Option<u128>,
}

/// A join code that still leads to a match.
pub struct JoinCodeEntry {
    pub code: String,
    pub game_id: u128,
}

impl Clone for JoinCodeEntry {
    fn clone(&self) -> (r: Self)
        ensures
            r == *self,
    {
        JoinCodeEntry { code: self.code.clone(), game_id: self.game_id }
    }
}

/// How many fresh join codes a new match draws before it gives up.
pub const JOIN_CODE_DRAWS: usize = 32;

/// Nickname of a session that has not authenticated yet.
pub open spec fn anonymous_name() -> Seq<char> {
    "anonymous"@
}

/// Distance from `start` up to `x`, wrapping around past the largest value.
pub open spec fn offset_from(start: u128, x: u128) -> int {
    if x >= start {
        x - start
    } else {
        x + 0x1_0000_0000_0000_0000_0000_0000_0000_0000int - start
    }
}

/// A key that `m` does not hold, probing upward from `start`.
pub fn fresh_key<V>(m: &HashMap<u128, V>, start: u128) -> (r: u128)
    ensures
        !m@.contains_key(r),
{
    let ghost dom = m@.dom();
    let n = m.len();
    let mut id = start;
    let mut tries: usize = 0;
    let ghost mut tried: Set<u128> = Set::empty();
    proof {
        vstd::std_specs::hash::axiom_hashmap_view_finite_dom(*m);
    }
    while m.contains_key(&id)
        invariant
            dom == m@.dom(),
            dom.finite(),
            n == dom.len(),
            tried.finite(),
            tried.len() == tries,
            tried.subset_of(dom),
            forall|x: u128| tried.contains(x) ==> offset_from(start, x) < tries,
            offset_from(start, id) == tries,
        decreases dom.len() - tries,
    {
        proof {
            assert(!tried.contains(id));
            tried = tried.insert(id);
            vstd::set_lib::lemma_len_subset(tried, dom);
        }
        id = id.wrapping_add(1);
        tries = tries + 1;
    }
    id
}

/// Process-wide directory of sessions and matches.
pub struct Universe {
    players: HashMap<u128, UniversePlayerState>,
    games: HashMap<u128, Game>,
    joinable_games: Vec<JoinCodeEntry>,
    words: Vec<String>,
}

impl Universe {
    pub closed spec fn sessions(&self) -> Map<u128, UniversePlayerState> {
        self.players@
    }

    pub closed spec fn game_map(&self) -> Map<u128, Game> {
        self.games@
    }

    /// The join code table: each code with the match it leads to.
    pub closed spec fn join_table(&self) -> Seq<(Seq<char>, u128)> {
        self.joinable_games@.map_values(|e: JoinCodeEntry| (e.code@, e.game_id))
    }

    pub closed spec fn spec_words(&self) -> Seq<String> {
        self.words@
    }

    /// Every session is filed under its own id.
    pub open spec fn sessions_keyed(&self) -> bool {
        forall|pid: u128| #[trigger]
            self.sessions().contains_key(pid) ==> self.sessions()[pid].player_info.id == pid
    }

    /// Every session and every match is filed under its own id; there are words for a
    /// full board; every match is well formed; the codes of the table are distinct; and every joinable match has its
    /// code in the table.
    pub open spec fn wf(&self) -> bool {
        &&& self.sessions_keyed()
        &&& self.spec_words().len() >= BOARD_TILES
        &&& forall|gid: u128| #[trigger]
            self.game_map().contains_key(gid) ==> self.game_map()[gid].wf()
                && self.game_map()[gid].spec_id() == gid
        &&& forall|i: int, j: int|
            0 <= i < j < self.join_table().len() ==> self.join_table()[i].0
                != self.join_table()[j].0
        &&& forall|gid: u128| #[trigger]
            self.game_map().contains_key(gid) && self.game_map()[gid].spec_joinable() ==> exists|
                i: int,
            |
                0 <= i < self.join_table().len() && self.join_table()[i] == (
                self.game_map()[gid].spec_join_code(),
                gid,
            )
    }

    /// Changing the session `pid` alone, to one filed under its own id, keeps the
    /// registry well formed.
    proof fn lemma_same_matches(before: Universe, after: Universe, pid: u128)
        requires
            before.wf(),
            after.games@ == before.games@,
            after.joinable_games@ == before.joinable_games@,
            after.words@ == before.words@,
            after.sessions().contains_key(pid) ==> after.sessions()[pid].player_info.id == pid,
            forall|p: u128|
                p != pid && #[trigger] after.sessions().contains_key(p) ==> before.sessions().contains_key(p)
                    && after.sessions()[p] == before.sessions()[p],
        ensures
            after.wf(),
    {
        assert forall|p: u128| #[trigger] after.sessions().contains_key(p) implies after.sessions()[p].player_info.id == p by {
            if p != pid {
                assert(before.sessions().contains_key(p));
            }
        }
        assert(after.join_table() == before.join_table());
        assert forall|gid: u128| #[trigger] after.game_map().contains_key(gid) implies after.game_map()[gid].wf()
            && after.game_map()[gid].spec_id() == gid by {
            assert(before.game_map().contains_key(gid));
        }
        assert forall|gid: u128| #[trigger]
            after.game_map().contains_key(gid) && after.game_map()[gid].spec_joinable() implies exists|i: int|
                0 <= i < after.join_table().len() && after.join_table()[i] == (
                after.game_map()[gid].spec_join_code(),
                gid,
            ) by {
            assert(before.game_map().contains_key(gid));
        }
    }

    /// An empty registry; boards of new matches draw from `words`, which must be
    /// enough for a full board.
    pub fn new(words: Vec<String>) -> (r: Universe)
        requires
            words@.len() >= BOARD_TILES,
        ensures
            r.wf(),
            r.sessions() == Map::<u128, UniversePlayerState>::empty(),
            r.game_map() == Map::<u128, Game>::empty(),
            r.join_table().len() == 0,
            r.spec_words() == words@,
    {
        let r = Universe {
            players: HashMap::new(),
            games: HashMap::new(),
            joinable_games: Vec::new(),
            words,
        };
        assert(r.join_table() =~= Seq::<(Seq<char>, u128)>::empty());
        r
    }

    /// Registers a new session under a fresh id, not authenticated, named
    /// "anonymous" and in no match.
    pub fn add_player(&mut self) -> (r: u128)
        requires
            old(self).wf(),
        ensures
            final(self).wf(),
            !old(self).sessions().contains_key(r),
            final(self).sessions().contains_key(r),
            final(self).sessions()[r].player_info.id == r,
            final(self).sessions()[r].player_info.nickname@ == anonymous_name(),
            !final(self).sessions()[r].is_authenticated,
            final(self).sessions()[r].game_id is None,
            final(self).sessions() == old(self).sessions().insert(r, final(self).sessions()[r]),
            final(self).game_map() == old(self).game_map(),
            final(self).join_table() == old(self).join_table(),
            final(self).spec_words() == old(self).spec_words(),
    {
        let id = fresh_key(&self.players, random_uuid());
        let nickname = String::from_str("anonymous");
        let state = UniversePlayerState {
            player_info: PlayerInfo { id, nickname },
            is_authenticated: false,
            game_id: None,
        };
        self.players.insert(id, state);
        proof {
            Universe::lemma_same_matches(*old(self), *self, id);
        }
        id
    }

    /// Public identity of a session.
    pub fn get_player_info(&self, pid: u128) -> (r: Option<PlayerInfo>)
        ensures
            match r {
                Some(info) => self.sessions().contains_key(pid) && info
                    == self.sessions()[pid].player_info,
                None => !self.sessions().contains_key(pid),
            },
    {
        match self.players.get(&pid) {
            Some(state) => Some(state.player_info.clone()),
            None => None,
        }
    }

    /// Authenticates a session under `nickname`. Fails with `InternalError` when the
    /// session does not exist and with `AlreadyAuthenticated` when it already
    /// authenticated; changes nothing then.
    pub fn authenticate_player(&mut self, pid: u128, nickname: String) -> (r: Result<
        PlayerInfo,
        ProtocolError,
    >)
        requires
            old(self).wf(),
        ensures
            final(self).wf(),
            final(self).game_map() == old(self).game_map(),
            final(self).join_table() == old(self).join_table(),
            final(self).spec_words() == old(self).spec_words(),
            !old(self).sessions().contains_key(pid) ==> fails_with(
                r,
                ProtocolErrorKind::InternalError,
            ) && final(self).sessions() == old(self).sessions(),
            old(self).sessions().contains_key(pid) && old(self).sessions()[pid].is_authenticated
                ==> fails_with(r, ProtocolErrorKind::AlreadyAuthenticated) && final(self).sessions()
                == old(self).sessions(),
            old(self).sessions().contains_key(pid) && !old(self).sessions()[pid].is_authenticated ==> {
                let s = old(self).sessions()[pid];
                let info = PlayerInfo { id: s.player_info.id, nickname };
                &&& r == Ok::<PlayerInfo, ProtocolError>(info)
                &&& final(self).sessions() == old(self).sessions().insert(
                    pid,
                    UniversePlayerState {
                        player_info: info,
                        is_authenticated: true,
                        game_id: s.game_id,
                    },
                )
            },
    {
        let (id, game_id) = match self.players.get(&pid) {
            None => {
                return Err(
                    ProtocolError::new(
                        ProtocolErrorKind::InternalError,
                        "couldn't find user in state",
                    ),
                );
            },
            Some(state) => {
                if state.is_authenticated {
                    return Err(
                        ProtocolError::new(
                            ProtocolErrorKind::AlreadyAuthenticated,
                            "cannot authenticate twice",
                        ),
                    );
                }
                (state.player_info.id, state.game_id)
            },
        };
        let info = PlayerInfo { id, nickname };
        let r = info.clone();
        self.players.insert(
            pid,
            UniversePlayerState { player_info: info, is_authenticated: true, game_id },
        );
        proof {
            Universe::lemma_same_matches(*old(self), *self, pid);
        }
        Ok(r)
    }

    /// Whether the session exists and has authenticated.
    pub fn player_is_authenticated(&self, pid: u128) -> (r: bool)
        ensures
            r == (self.sessions().contains_key(pid) && self.sessions()[pid].is_authenticated),
    {
        match self.players.get(&pid) {
            Some(state) => state.is_authenticated,
            None => false,
        }
    }

    /// Unregisters a session; its match membership is left alone.
    pub fn remove_player(&mut self, pid: u128)
        requires
            old(self).wf(),
        ensures
            final(self).wf(),
            final(self).sessions() == old(self).sessions().remove(pid),
            final(self).game_map() == old(self).game_map(),
            final(self).join_table() == old(self).join_table(),
            final(self).spec_words() == old(self).spec_words(),
    {
        self.players.remove(&pid);
        proof {
            Universe::lemma_same_matches(*old(self), *self, pid);
        }
    }

    /// Records the match a session is in; returns whether the session exists.
    pub fn set_player_game_id(&mut self, pid: u128, game_id: Option<u128>) -> (r: bool)
        requires
            old(self).wf(),
        ensures
            final(self).wf(),
            r == old(self).sessions().contains_key(pid),
            r ==> final(self).sessions() == old(self).sessions().insert(
                pid,
                UniversePlayerState {
                    player_info: old(self).sessions()[pid].player_info,
                    is_authenticated: old(self).sessions()[pid].is_authenticated,
                    game_id,
                },
            ),
            !r ==> final(self).sessions() == old(self).sessions(),
            final(self).game_map() == old(self).game_map(),
            final(self).join_table() == old(self).join_table(),
            final(self).spec_words() == old(self).spec_words(),
    {
        let state = match self.players.get(&pid) {
            None => {
                return false;
            },
            Some(state) => UniversePlayerState {
                player_info: state.player_info.clone(),
                is_authenticated: state.is_authenticated,
                game_id,
            },
        };
        self.players.insert(pid, state);
        proof {
            Universe::lemma_same_matches(*old(self), *self, pid);
        }
        true
    }

    /// A match by id.
    pub fn get_game(&self, gid: u128) -> (r: Option<&Game>)
        ensures
            match r {
                Some(g) => self.game_map().contains_key(gid) && *g == self.game_map()[gid],
                None => !self.game_map().contains_key(gid),
            },
    {
        self.games.get(&gid)
    }

    /// The match a session is in, if both still exist.
    pub fn get_player_game(&self, pid: u128) -> (r: Option<u128>)
        ensures
            r == player_game(self.sessions(), self.game_map(), pid),
    {
        match self.players.get(&pid) {
            None => None,
            Some(state) => match state.game_id {
                None => None,
                Some(gid) => {
                    if self.games.contains_key(&gid) {
                        Some(gid)
                    } else {
                        None
                    }
                },
            },
        }
    }

    /// Queues `message` for a session; nothing is queued when the session is gone.
    pub fn send(&self, pid: u128, message: Message, out: &mut Vec<Delivery>)
        ensures
            final(out)@ == if self.sessions().contains_key(pid) {
                old(out)@.push(Delivery { recipient: pid, message })
            } else {
                old(out)@
            },
    {
        if self.players.contains_key(&pid) {
            out.push(Delivery { recipient: pid, message });
        }
    }

    /// The table entry an entry of the join code table leads to is a match that is
    /// still joinable.
    pub open spec fn entry_live(&self, i: int) -> bool {
        let gid = self.join_table()[i].1;
        self.game_map().contains_key(gid) && self.game_map()[gid].spec_joinable()
    }

    /// Position of `code` in the join code table.
    pub fn find_code(&self, code: &String) -> (r: Option<usize>)
        ensures
            match r {
                Some(i) => i < self.join_table().len() && self.join_table()[i as int].0 == code@,
                None => forall|i: int|
                    0 <= i < self.join_table().len() ==> self.join_table()[i].0 != code@,
            },
    {
        let mut i: usize = 0;
        while i < self.joinable_games.len()
            invariant
                i <= self.joinable_games@.len(),
                forall|j: int| 0 <= j < i ==> self.joinable_games@[j].code@ != code@,
            decreases self.joinable_games@.len() - i,
        {
            if self.joinable_games[i].code == *code {
                return Some(i);
            }
            i = i + 1;
        }
        None
    }

    /// Deregisters a match and drops the join codes that lead to it.
    pub fn remove_game(&mut self, gid: u128) -> (r: bool)
        requires
            old(self).wf(),
        ensures
            final(self).wf(),
            r == old(self).game_map().contains_key(gid),
            final(self).game_map() == old(self).game_map().remove(gid),
            final(self).sessions() == old(self).sessions(),
            final(self).spec_words() == old(self).spec_words(),
            forall|i: int| 0 <= i < final(self).join_table().len() ==> #[trigger] final(self).join_table()[i].1 != gid,
            forall|i: int|
                0 <= i < old(self).join_table().len() && old(self).join_table()[i].1 != gid
                    ==> final(self).join_table().contains(#[trigger] old(self).join_table()[i]),
            forall|i: int|
                0 <= i < final(self).join_table().len() ==> old(self).join_table().contains(
                    #[trigger] final(self).join_table()[i],
                ),
    {
        let r = self.games.remove(&gid).is_some();
        let ghost t = self.join_table();
        let ghost te = self.joinable_games@;
        let ghost mut origin: Seq<int> = Seq::empty();
        let mut kept: Vec<JoinCodeEntry> = Vec::new();
        let mut i: usize = 0;
        while i < self.joinable_games.len()
            invariant
                te == self.joinable_games@,
                i <= te.len(),
                origin.len() == kept@.len(),
                forall|a: int|
                    0 <= a < kept@.len() ==> 0 <= #[trigger] origin[a] < i && kept@[a]
                        == te[origin[a]],
                forall|a: int, b: int| 0 <= a < b < kept@.len() ==> origin[a] < origin[b],
                forall|a: int| 0 <= a < kept@.len() ==> (#[trigger] kept@[a]).game_id != gid,
                forall|j: int|
                    0 <= j < i && (#[trigger] te[j]).game_id != gid ==> origin.contains(j),
            decreases te.len() - i,
        {
            if self.joinable_games[i].game_id != gid {
                kept.push(self.joinable_games[i].clone());
                proof {
                    let prev = origin;
                    origin = origin.push(i as int);
                    assert forall|j: int|
                        0 <= j < i + 1 && (#[trigger] te[j]).game_id != gid implies origin.contains(
                        j,
                    ) by {
                        if j == i {
                            assert(origin[origin.len() - 1] == j);
                        } else {
                            let x = choose|x: int| 0 <= x < prev.len() && prev[x] == j;
                            assert(origin[x] == j);
                        }
                    }
                }
            }
            i = i + 1;
        }
        self.joinable_games = kept;
        proof {
            let nt = self.join_table();
            let og = old(self).game_map();
            assert forall|a: int| 0 <= a < nt.len() implies t.contains(#[trigger] nt[a]) by {
                assert(nt[a] == t[origin[a]]);
            }
            assert forall|j: int| 0 <= j < t.len() && t[j].1 != gid implies nt.contains(
                #[trigger] t[j],
            ) by {
                assert(te[j].game_id != gid);
                let a = choose|a: int| 0 <= a < origin.len() && origin[a] == j;
                assert(nt[a] == t[j]);
            }
            assert forall|a: int, b: int| 0 <= a < b < nt.len() implies nt[a].0 != nt[b].0 by {
                assert(nt[a] == t[origin[a]]);
                assert(nt[b] == t[origin[b]]);
            }
            assert forall|g: u128| #[trigger] self.game_map().contains_key(g) implies self.game_map()[g].wf()
                && self.game_map()[g].spec_id() == g by {
                assert(og.contains_key(g));
            }
            assert forall|g: u128| #[trigger]
                self.game_map().contains_key(g) && self.game_map()[g].spec_joinable() implies exists|k: int|
                    0 <= k < nt.len() && nt[k] == (self.game_map()[g].spec_join_code(), g) by {
                assert(og.contains_key(g));
                let j = choose|j: int| 0 <= j < t.len() && t[j] == (og[g].spec_join_code(), g);
                assert(nt.contains(t[j]));
            }
        }
        r
    }

    proof fn lemma_evict_stale(before: Universe, after: Universe, i: int)
        requires
            before.wf(),
            after.words@ == before.words@,
            after.players@ == before.players@,
            0 <= i < before.join_table().len(),
            !before.entry_live(i),
            after.games@ == before.games@,
            after.joinable_games@ == before.joinable_games@.remove(i),
        ensures
            after.wf(),
            after.join_table() == before.join_table().remove(i),
    {
        let t = before.join_table();
        let nt = after.join_table();
        assert(nt =~= t.remove(i));
        assert forall|a: int, b: int| 0 <= a < b < nt.len() implies nt[a].0 != nt[b].0 by {
            let sa = if a < i { a } else { a + 1 };
            let sb = if b < i { b } else { b + 1 };
            assert(nt[a] == t[sa]);
            assert(nt[b] == t[sb]);
        }
        assert forall|g: u128| #[trigger] after.game_map().contains_key(g) implies after.game_map()[g].wf()
            && after.game_map()[g].spec_id() == g by {
            assert(before.game_map().contains_key(g));
        }
        assert forall|g: u128| #[trigger]
            after.game_map().contains_key(g) && after.game_map()[g].spec_joinable() implies exists|k: int|
                0 <= k < nt.len() && nt[k] == (after.game_map()[g].spec_join_code(), g) by {
            assert(before.game_map().contains_key(g));
            let j = choose|j: int| 0 <= j < t.len() && t[j] == (before.game_map()[g].spec_join_code(), g);
            assert(j != i);
            if j < i {
                assert(nt[j] == t[j]);
            } else {
                assert(nt[j - 1] == t[j]);
            }
        }
    }

    /// Draws a join code that no entry of the table holds. A drawn code already in the
    /// table is taken back from a match that can no longer be joined, and drawn anew
    /// when its match is joinable, at most `JOIN_CODE_DRAWS` times in all.
    fn allocate_join_code(&mut self) -> (r: Option<String>)
        requires
            old(self).wf(),
        ensures
            final(self).wf(),
            final(self).game_map() == old(self).game_map(),
            final(self).sessions() == old(self).sessions(),
            final(self).spec_words() == old(self).spec_words(),
            forall|i: int|
                0 <= i < final(self).join_table().len() ==> old(self).join_table().contains(
                    #[trigger] final(self).join_table()[i],
                ),
            match r {
                Some(code) => {
                    &&& code@.len() == JOIN_CODE_LEN
                    &&& is_code_text(code@)
                    &&& forall|i: int|
                        0 <= i < final(self).join_table().len() ==> (
                        #[trigger] final(self).join_table()[i]).0 != code@
                },
                None => final(self).join_table() == old(self).join_table(),
            },
            (forall|i: int| 0 <= i < old(self).join_table().len() ==> !old(self).entry_live(i))
                ==> r is Some,
    {
        let mut draws: usize = 0;
        while draws < JOIN_CODE_DRAWS
            invariant
                self.wf(),
                self.game_map() == old(self).game_map(),
                self.join_table() == old(self).join_table(),
                self.sessions() == old(self).sessions(),
                self.spec_words() == old(self).spec_words(),
                draws <= JOIN_CODE_DRAWS,
                (forall|i: int| 0 <= i < old(self).join_table().len() ==> !old(self).entry_live(i))
                    ==> draws == 0,
            decreases JOIN_CODE_DRAWS - draws,
        {
            let code = generate_join_code();
            let ghost before = *self;
            assert(before.join_table() == old(self).join_table());
            assert(before.game_map() == old(self).game_map());
            if self.claim_code(&code) {
                proof {
                    let t = before.join_table();
                    let nt = self.join_table();
                    assert forall|k: int| 0 <= k < nt.len() implies t.contains(#[trigger] nt[k]) by {
                        if nt != t {
                            let i = choose|i: int| 0 <= i < t.len() && t[i].0 == code@ && nt == t.remove(i);
                            if k < i {
                                assert(nt[k] == t[k]);
                            } else {
                                assert(nt[k] == t[k + 1]);
                            }
                        }
                    }
                }
                return Some(code);
            }
            proof {
                let gid = code_target(before.join_table(), code@)->Some_0;
                let t = before.join_table();
                let i = choose|i: int| 0 <= i < t.len() && t[i].0 == code@;
                Universe::lemma_code_target_found(t, code@, i);
                assert(old(self).entry_live(i));
            }
            draws = draws + 1;
        }
        None
    }

    /// Makes a drawn join code free for a new match. A code that no entry holds is
    /// free; a code held by a match that is gone or can no longer be joined is taken
    /// back from it; a code held by a joinable match stays with it, and the result is
    /// `false`.
    pub fn claim_code(&mut self, code: &String) -> (r: bool)
        requires
            old(self).wf(),
        ensures
            final(self).wf(),
            final(self).game_map() == old(self).game_map(),
            final(self).sessions() == old(self).sessions(),
            final(self).spec_words() == old(self).spec_words(),
            ({
                let t = old(self).join_table();
                let target = code_target(t, code@);
                let live = target is Some && old(self).game_map().contains_key(target->Some_0)
                    && old(self).game_map()[target->Some_0].spec_joinable();
                &&& r == !live
                &&& target is None ==> final(self).join_table() == t
                &&& live ==> final(self).join_table() == t
                &&& target is Some && !live ==> exists|i: int|
                    0 <= i < t.len() && t[i].0 == code@ && final(self).join_table() == t.remove(i)
                &&& r ==> forall|i: int|
                    0 <= i < final(self).join_table().len() ==> (
                    #[trigger] final(self).join_table()[i]).0 != code@
            }),
    {
        let i = match self.find_code(code) {
            None => {
                proof {
                    Universe::lemma_code_target_absent(self.join_table(), code@);
                }
                return true;
            },
            Some(i) => i,
        };
        proof {
            Universe::lemma_code_target_found(self.join_table(), code@, i as int);
        }
        let gid = self.joinable_games[i].game_id;
        let live = match self.games.get(&gid) {
            Some(g) => g.is_joinable(),
            None => false,
        };
        if live {
            return false;
        }
        let ghost before = *self;
        assert(!before.entry_live(i as int));
        self.joinable_games.remove(i);
        proof {
            Universe::lemma_evict_stale(before, *self, i as int);
            let nt = self.join_table();
            let t = before.join_table();
            assert forall|k: int| 0 <= k < nt.len() implies (#[trigger] nt[k]).0 != code@ by {
                if k < i {
                    assert(nt[k] == t[k]);
                    assert(t[k].0 != t[i as int].0);
                } else {
                    assert(nt[k] == t[k + 1]);
                    assert(t[k + 1].0 != t[i as int].0);
                }
            }
        }
        true
    }

    /// Starts a new pregame match with a fresh id, an empty roster, a board drawn from
    /// the registry's words, and a join code that no other entry of the table holds.
    /// Returns `None`, changing nothing, only when every code drawn belonged to a
    /// joinable match.
    pub fn new_game(&mut self) -> (r: Option<u128>)
        requires
            old(self).wf(),
        ensures
            final(self).wf(),
            final(self).sessions() == old(self).sessions(),
            final(self).spec_words() == old(self).spec_words(),
            match r {
                None => final(self).game_map() == old(self).game_map() && final(self).join_table()
                    == old(self).join_table(),
                Some(gid) => {
                    let g = final(self).game_map()[gid];
                    &&& !old(self).game_map().contains_key(gid)
                    &&& final(self).game_map() == old(self).game_map().insert(gid, g)
                    &&& g.spec_id() == gid
                    &&& g.roster().len() == 0
                    &&& g.spec_turn() == Turn::Pregame
                    &&& g.spec_join_code().len() == JOIN_CODE_LEN
                    &&& is_code_text(g.spec_join_code())
                    &&& final(self).join_table().contains((g.spec_join_code(), gid))
                },
            },
            (forall|i: int| 0 <= i < old(self).join_table().len() ==> !old(self).entry_live(i))
                ==> r is Some,
    {
        let code = match self.allocate_join_code() {
            None => {
                return None;
            },
            Some(code) => code,
        };
        let ghost mid = *self;
        let gid = fresh_key(&self.games, random_uuid());
        let board = Board::new(&self.words);
        let game = Game::new(gid, code.clone(), board);
        self.games.insert(gid, game);
        self.joinable_games.push(JoinCodeEntry { code, game_id: gid });
        proof {
            let t = mid.join_table();
            let nt = self.join_table();
            assert(nt =~= t.push((code@, gid)));
            assert(nt[t.len() as int] == (code@, gid));
            assert forall|a: int, b: int| 0 <= a < b < nt.len() implies nt[a].0 != nt[b].0 by {
                assert(nt[a] == t[a]);
                if b < t.len() {
                    assert(nt[b] == t[b]);
                }
            }
            assert forall|g: u128| #[trigger] self.game_map().contains_key(g) implies self.game_map()[g].wf()
                && self.game_map()[g].spec_id() == g by {
                if g != gid {
                    assert(mid.game_map().contains_key(g));
                }
            }
            assert forall|g: u128| #[trigger]
                self.game_map().contains_key(g) && self.game_map()[g].spec_joinable() implies exists|k: int|
                    0 <= k < nt.len() && nt[k] == (self.game_map()[g].spec_join_code(), g) by {
                if g == gid {
                    assert(nt[t.len() as int] == (self.game_map()[g].spec_join_code(), g));
                } else {
                    assert(mid.game_map().contains_key(g));
                    let j = choose|j: int| 0 <= j < t.len() && t[j] == (mid.game_map()[g].spec_join_code(), g);
                    assert(nt[j] == t[j]);
                }
            }
        }
        Some(gid)
    }

    proof fn lemma_game_updated(before: Universe, after: Universe, gid: u128)
        requires
            before.wf(),
            after.words@ == before.words@,
            after.players@ == before.players@,
            before.game_map().contains_key(gid),
            after.games@ == before.games@.insert(gid, after.games@[gid]),
            after.joinable_games@ == before.joinable_games@,
            after.games@[gid].wf(),
            after.games@[gid].spec_id() == gid,
            after.games@[gid].spec_join_code() == before.games@[gid].spec_join_code(),
            after.games@[gid].spec_joinable() ==> before.games@[gid].spec_joinable(),
        ensures
            after.wf(),
    {
        assert(after.join_table() == before.join_table());
        assert forall|g: u128| #[trigger] after.game_map().contains_key(g) implies after.game_map()[g].wf()
            && after.game_map()[g].spec_id() == g by {
            assert(before.game_map().contains_key(g));
        }
        assert forall|g: u128| #[trigger]
            after.game_map().contains_key(g) && after.game_map()[g].spec_joinable() implies exists|k: int|
                0 <= k < after.join_table().len() && after.join_table()[k] == (
                after.game_map()[g].spec_join_code(),
                g,
            ) by {
            assert(before.game_map().contains_key(g));
            assert(before.game_map()[g].spec_joinable());
        }
    }

    /// Puts session `pid` into match `gid`: the session records the match and, when
    /// not on the roster yet, joins it as a teamless spectator while the rest of the
    /// match hears of it. Returns `false`, changing nothing, when the match or the
    /// session does not exist.
    pub fn add_player_to_game(&mut self, gid: u128, pid: u128, out: &mut Vec<Delivery>) -> (r: bool)
        requires
            old(self).wf(),
        ensures
            final(self).wf(),
            final(self).spec_words() == old(self).spec_words(),
            final(self).join_table() == old(self).join_table(),
            r == (old(self).game_map().contains_key(gid) && old(self).sessions().contains_key(pid)),
            !r ==> final(self).sessions() == old(self).sessions() && final(self).game_map() == old(self).game_map()
                && final(out)@ == old(out)@,
            r ==> {
                let s = old(self).sessions()[pid];
                let g = old(self).game_map()[gid];
                let g2 = final(self).game_map()[gid];
                let entry = new_entry(s.player_info);
                &&& final(self).sessions() == old(self).sessions().insert(
                    pid,
                    UniversePlayerState {
                        player_info: s.player_info,
                        is_authenticated: s.is_authenticated,
                        game_id: Some(gid),
                    },
                )
                &&& final(self).game_map() == old(self).game_map().insert(gid, g2)
                &&& g2.spec_id() == g.spec_id()
                &&& g2.spec_join_code() == g.spec_join_code()
                &&& g2.spec_turn() == g.spec_turn()
                &&& g2.spec_board() == g.spec_board()
                &&& has_player(g.roster(), pid) ==> g2.roster() == g.roster() && final(out)@ == old(out)@
                &&& !has_player(g.roster(), pid) ==> (exists|k: int|
                    0 <= k <= g.roster().len() && g2.roster() == g.roster().insert(k, entry))
                    && final(out)@ == old(out)@ + broadcast_to(
                    roster_ids(g.roster()),
                    Message::PlayerConnected(entry),
                )
            },
    {
        if !self.games.contains_key(&gid) {
            return false;
        }
        let info = match self.players.get(&pid) {
            None => {
                return false;
            },
            Some(state) => state.player_info.clone(),
        };
        self.set_player_game_id(pid, Some(gid));
        let ghost mid = *self;
        let mut game = match self.games.remove(&gid) {
            Some(g) => g,
            None => {
                return false;
            },
        };
        if game.find_player(pid).is_none() {
            let entry = GamePlayerState {
                player: info.clone(),
                team: None,
                role: PlayerRole::Spectator,
                ready: false,
            };
            game.broadcast(&Message::PlayerConnected(entry), out);
        }
        game.add_player(info);
        let ghost g2 = game;
        self.games.insert(gid, game);
        proof {
            assert(self.games@ =~= mid.games@.insert(gid, g2));
            Universe::lemma_game_updated(mid, *self, gid);
            assert(self.game_map() =~= old(self).game_map().insert(gid, g2));
        }
        true
    }

    /// Takes session `pid` out of match `gid`: the session records no match, the rest
    /// of the match hears that the player left, and a match whose roster becomes empty
    /// is removed with its join codes.
    pub fn leave_game(&mut self, gid: u128, pid: u128, out: &mut Vec<Delivery>)
        requires
            old(self).wf(),
        ensures
            final(self).wf(),
            final(self).spec_words() == old(self).spec_words(),
            old(self).sessions().contains_key(pid) ==> final(self).sessions() == old(self).sessions().insert(
                pid,
                UniversePlayerState {
                    player_info: old(self).sessions()[pid].player_info,
                    is_authenticated: old(self).sessions()[pid].is_authenticated,
                    game_id: None,
                },
            ),
            !old(self).sessions().contains_key(pid) ==> final(self).sessions() == old(self).sessions(),
            left_game(*old(self), *final(self), gid, pid, old(out)@, final(out)@),
    {
        self.set_player_game_id(pid, None);
        if !self.games.contains_key(&gid) {
            return ;
        }
        let ghost mid = *self;
        let mut game = match self.games.remove(&gid) {
            Some(g) => g,
            None => {
                return ;
            },
        };
        let ghost g = game;
        let removed = game.remove_player(pid);
        if removed {
            game.broadcast(
                &Message::PlayerDisconnected(PlayerDisconnectedMessage { player_id: pid }),
                out,
            );
        }
        let empty = game.is_empty();
        let ghost g2 = game;
        self.games.insert(gid, game);
        proof {
            assert(self.games@ =~= mid.games@.insert(gid, g2));
            Universe::lemma_game_updated(mid, *self, gid);
        }
        if empty {
            self.remove_game(gid);
        }
        proof {
            assert(old(self).game_map() == mid.game_map());
            assert(g == old(self).game_map()[gid]);
            if removed {
                let k = choose|k: int|
                    0 <= k < g.roster().len() && g.roster()[k].player.id == pid && g2.roster()
                        == g.roster().remove(k);
                assert(g2.roster().len() == g.roster().len() - 1);
            }
            let before = *old(self);
            let after = *self;
            assert(before.game_map().contains_key(gid));
            if self.game_map().contains_key(gid) {
                assert(after.game_map() == before.game_map().insert(gid, after.game_map()[gid]));
                assert(after.join_table() == before.join_table());
                assert(!has_player(after.game_map()[gid].roster(), pid));
            } else {
                assert(after.game_map() == before.game_map().remove(gid));
            }
        }
    }

    /// Takes session `pid` out of the match it is in, if any.
    pub fn remove_player_from_game(&mut self, pid: u128, out: &mut Vec<Delivery>)
        requires
            old(self).wf(),
        ensures
            final(self).wf(),
            final(self).spec_words() == old(self).spec_words(),
            player_game(old(self).sessions(), old(self).game_map(), pid) is None ==> final(self).sessions()
                == old(self).sessions() && final(self).game_map() == old(self).game_map()
                && final(self).join_table() == old(self).join_table() && final(out)@ == old(out)@,
            player_game(final(self).sessions(), final(self).game_map(), pid) is None,
            player_game(old(self).sessions(), old(self).game_map(), pid) matches Some(gid)
                ==> left_game(*old(self), *final(self), gid, pid, old(out)@, final(out)@),
            final(self).sessions().remove(pid) == old(self).sessions().remove(pid),
            final(self).sessions().contains_key(pid) == old(self).sessions().contains_key(pid),
            old(self).sessions().contains_key(pid) ==> final(self).sessions()[pid].player_info
                == old(self).sessions()[pid].player_info,
    {
        match self.get_player_game(pid) {
            None => {},
            Some(gid) => {
                self.leave_game(gid, pid, out);
                assert(self.sessions().remove(pid) =~= old(self).sessions().remove(pid));
            },
        }
    }

    /// Moves `pid` to `team` in match `gid` (see `Game::set_player_team`).
    pub fn set_player_team_in(&mut self, gid: u128, pid: u128, team: Option<Team>)
        requires
            old(self).wf(),
            old(self).game_map().contains_key(gid),
        ensures
            final(self).wf(),
            final(self).sessions() == old(self).sessions(),
            final(self).join_table() == old(self).join_table(),
            final(self).spec_words() == old(self).spec_words(),
            final(self).game_map() == old(self).game_map().insert(gid, final(self).game_map()[gid]),
            ({
                let g = old(self).game_map()[gid];
                let g2 = final(self).game_map()[gid];
                &&& g2.spec_id() == g.spec_id()
                &&& g2.spec_join_code() == g.spec_join_code()
                &&& g2.spec_board() == g.spec_board()
                &&& g2.roster() == roster_after_set_team(g.roster(), pid, team)
            }),
            ({
                let g = old(self).game_map()[gid];
                let g2 = final(self).game_map()[gid];
                &&& g2.spec_turn() == g.spec_turn()
            }),
    {
        let ghost mid = *self;
        let mut game = match self.games.remove(&gid) {
            Some(g) => g,
            None => {
                return ;
            },
        };
        game.set_player_team(pid, team);
        let ghost g2 = game;
        self.games.insert(gid, game);
        proof {
            assert(self.games@ =~= mid.games@.insert(gid, g2));
            Universe::lemma_game_updated(mid, *self, gid);
            assert(self.game_map() =~= old(self).game_map().insert(gid, g2));
        }
    }

    /// Gives `pid` the role `role` in match `gid` (see `Game::set_player_role`).
    pub fn set_player_role_in(&mut self, gid: u128, pid: u128, role: PlayerRole)
        requires
            old(self).wf(),
            old(self).game_map().contains_key(gid),
        ensures
            final(self).wf(),
            final(self).sessions() == old(self).sessions(),
            final(self).join_table() == old(self).join_table(),
            final(self).spec_words() == old(self).spec_words(),
            final(self).game_map() == old(self).game_map().insert(gid, final(self).game_map()[gid]),
            ({
                let g = old(self).game_map()[gid];
                let g2 = final(self).game_map()[gid];
                &&& g2.spec_id() == g.spec_id()
                &&& g2.spec_join_code() == g.spec_join_code()
                &&& g2.spec_board() == g.spec_board()
                &&& g2.roster() == roster_after_set_role(g.roster(), pid, role)
            }),
            ({
                let g = old(self).game_map()[gid];
                let g2 = final(self).game_map()[gid];
                &&& g2.spec_turn() == g.spec_turn()
            }),
    {
        let ghost mid = *self;
        let mut game = match self.games.remove(&gid) {
            Some(g) => g,
            None => {
                return ;
            },
        };
        game.set_player_role(pid, role);
        let ghost g2 = game;
        self.games.insert(gid, game);
        proof {
            assert(self.games@ =~= mid.games@.insert(gid, g2));
            Universe::lemma_game_updated(mid, *self, gid);
            assert(self.game_map() =~= old(self).game_map().insert(gid, g2));
        }
    }

    /// Marks `pid` ready in match `gid`, which may start play (see `Game::mark_player_ready`).
    pub fn mark_player_ready_in(&mut self, gid: u128, pid: u128)
        requires
            old(self).wf(),
            old(self).game_map().contains_key(gid),
        ensures
            final(self).wf(),
            final(self).sessions() == old(self).sessions(),
            final(self).join_table() == old(self).join_table(),
            final(self).spec_words() == old(self).spec_words(),
            final(self).game_map() == old(self).game_map().insert(gid, final(self).game_map()[gid]),
            ({
                let g = old(self).game_map()[gid];
                let g2 = final(self).game_map()[gid];
                &&& g2.spec_id() == g.spec_id()
                &&& g2.spec_join_code() == g.spec_join_code()
                &&& g2.spec_board() == g.spec_board()
                &&& g2.roster() == roster_after_mark_ready(g.roster(), pid)
            }),
            ({
                let g = old(self).game_map()[gid];
                let g2 = final(self).game_map()[gid];
                &&& g2.spec_turn() == if g.spec_turn() == Turn::Pregame && quorum(g2.roster()) {
                spec_initial_turn(g.spec_board().spec_starting_team())
            } else {
                g.spec_turn()
            }
            }),
    {
        let ghost mid = *self;
        let mut game = match self.games.remove(&gid) {
            Some(g) => g,
            None => {
                return ;
            },
        };
        game.mark_player_ready(pid);
        let ghost g2 = game;
        self.games.insert(gid, game);
        proof {
            assert(self.games@ =~= mid.games@.insert(gid, g2));
            Universe::lemma_game_updated(mid, *self, gid);
            assert(self.game_map() =~= old(self).game_map().insert(gid, g2));
        }
    }

    /// Queues `message` for every member of match `gid`.
    pub fn broadcast(&self, gid: u128, message: &Message, out: &mut Vec<Delivery>)
        ensures
            self.game_map().contains_key(gid) ==> copies_sent(
                old(out)@,
                final(out)@,
                roster_ids(self.game_map()[gid].roster()),
                *message,
            ),
            self.game_map().contains_key(gid) && !(message is GameStateSnapshot) ==> final(out)@
                == old(out)@ + broadcast_to(roster_ids(self.game_map()[gid].roster()), *message),
            !self.game_map().contains_key(gid) ==> final(out)@ == old(out)@,
    {
        match self.games.get(&gid) {
            Some(game) => game.broadcast(message, out),
            None => {},
        }
    }

    /// Queues for every member of match `gid` their own snapshot of it.
    pub fn broadcast_state(&self, gid: u128, out: &mut Vec<Delivery>)
        requires
            self.wf(),
        ensures
            self.game_map().contains_key(gid) ==> snapshots_sent(
                old(out)@,
                final(out)@,
                self.game_map()[gid],
            ),
            !self.game_map().contains_key(gid) ==> final(out)@ == old(out)@,
    {
        match self.games.get(&gid) {
            Some(game) => {
                assert(self.game_map().contains_key(gid));
                game.broadcast_state(out);
            },
            None => {},
        }
    }

    /// Queues for session `pid` its own snapshot of match `gid`.
    pub fn send_snapshot(&self, gid: u128, pid: u128, out: &mut Vec<Delivery>)
        requires
            self.wf(),
        ensures
            self.game_map().contains_key(gid) && self.sessions().contains_key(pid) ==> final(out)@.len()
                == old(out)@.len() + 1 && final(out)@.drop_last() == old(out)@ && final(out)@.last().recipient
                == pid && is_snapshot_of(final(out)@.last().message, self.game_map()[gid], pid),
            !(self.game_map().contains_key(gid) && self.sessions().contains_key(pid)) ==> final(out)@
                == old(out)@,
    {
        match self.games.get(&gid) {
            Some(game) => {
                assert(self.game_map().contains_key(gid));
                let snap = game.snapshot_for(pid);
                self.send(pid, Message::GameStateSnapshot(snap), out);
            },
            None => {},
        }
    }

    /// Joins session `pid` into the match that the typed `join_code` leads to, leaving
    /// the match the session was in before. Fails with `NotFound` when no match has
    /// the code, and with `InvalidCommand` when that match can no longer be joined;
    /// nothing changes then.
    pub fn join_game(&mut self, pid: u128, join_code: &str, out: &mut Vec<Delivery>) -> (r: Result<u128, ProtocolError>)
        requires
            old(self).wf(),
        ensures
            final(self).wf(),
            final(self).spec_words() == old(self).spec_words(),
            ({
                let target = code_target(old(self).join_table(), normalized(join_code@));
                let found = target is Some && old(self).game_map().contains_key(target->Some_0);
                &&& !found ==> fails_with(r, ProtocolErrorKind::NotFound)
                &&& found && !old(self).game_map()[target->Some_0].spec_joinable() ==> fails_with(
                    r,
                    ProtocolErrorKind::InvalidCommand,
                )
                &&& found && old(self).game_map()[target->Some_0].spec_joinable() ==> r == Ok::<u128, ProtocolError>(target->Some_0)
                    && final(self).game_map().contains_key(target->Some_0)
                    && (old(self).sessions().contains_key(pid) ==> player_game(
                        final(self).sessions(),
                        final(self).game_map(),
                        pid,
                    ) == target && has_player(final(self).game_map()[target->Some_0].roster(), pid)
                    && joined_roster(
                        old(self).game_map()[target->Some_0].roster(),
                        final(self).game_map()[target->Some_0].roster(),
                        old(self).sessions()[pid].player_info,
                    ) && (!has_player(old(self).game_map()[target->Some_0].roster(), pid) ==> all_told(
                        final(out)@,
                        roster_ids(old(self).game_map()[target->Some_0].roster()),
                        Message::PlayerConnected(new_entry(old(self).sessions()[pid].player_info)),
                    )))
                &&& r is Err ==> final(self).sessions() == old(self).sessions() && final(self).game_map()
                    == old(self).game_map() && final(self).join_table() == old(self).join_table()
                    && final(out)@ == old(out)@
            }),
    {
        let code = normalize_join_code(join_code);
        let i = match self.find_code(&code) {
            None => {
                proof {
                    Universe::lemma_code_target_absent(self.join_table(), code@);
                }
                return Err(ProtocolError::new(ProtocolErrorKind::NotFound, "game does not exist"));
            },
            Some(i) => i,
        };
        let gid = self.joinable_games[i].game_id;
        proof {
            Universe::lemma_code_target_found(self.join_table(), code@, i as int);
        }
        let joinable = match self.games.get(&gid) {
            None => {
                return Err(ProtocolError::new(ProtocolErrorKind::NotFound, "game does not exist"));
            },
            Some(game) => game.is_joinable(),
        };
        if !joinable {
            return Err(
                ProtocolError::new(
                    ProtocolErrorKind::InvalidCommand,
                    "game is currently not joinable",
                ),
            );
        }
        match self.get_player_game(pid) {
            Some(current) => {
                if current != gid {
                    self.leave_game(current, pid, out);
                }
            },
            None => {},
        }
        assert(self.game_map().contains_key(gid));
        let ghost mid = *self;
        let ghost mid_out = out@;
        self.add_player_to_game(gid, pid, out);
        proof {
            assert(mid.game_map()[gid] == old(self).game_map()[gid]);
            if old(self).sessions().contains_key(pid) {
                assert(mid.sessions().contains_key(pid));
                let info = mid.sessions()[pid].player_info;
                assert(info == old(self).sessions()[pid].player_info);
                assert(info.id == pid);
                let g = mid.game_map()[gid];
                let g2 = self.game_map()[gid];
                if !has_player(g.roster(), pid) {
                    let k = choose|k: int| 0 <= k <= g.roster().len() && g2.roster() == g.roster().insert(k, new_entry(info));
                    assert(g2.roster()[k] == new_entry(info));
                    let ids = roster_ids(g.roster());
                    let m = Message::PlayerConnected(new_entry(info));
                    assert forall|j: int| 0 <= j < ids.len() implies out@.contains(
                        Delivery { recipient: #[trigger] ids[j], message: m },
                    ) by {
                        assert(out@[mid_out.len() + j] == broadcast_to(ids, m)[j]);
                    }
                    assert(all_told(out@, ids, m));
                }
                assert(has_player(g2.roster(), pid));
                assert(joined_roster(g.roster(), g2.roster(), info));
            }
        }
        Ok(gid)
    }

    proof fn lemma_code_target_absent(t: Seq<(Seq<char>, u128)>, code: Seq<char>)
        requires
            forall|i: int| 0 <= i < t.len() ==> t[i].0 != code,
        ensures
            code_target(t, code) is None,
    {
    }

    proof fn lemma_code_target_found(t: Seq<(Seq<char>, u128)>, code: Seq<char>, i: int)
        requires
            0 <= i < t.len(),
            t[i].0 == code,
            forall|a: int, b: int| 0 <= a < b < t.len() ==> t[a].0 != t[b].0,
        ensures
            code_target(t, code) == Some(t[i].1),
    {
        let j = choose|j: int| 0 <= j < t.len() && t[j].0 == code;
        if j < i {
            assert(t[j].0 != t[i].0);
        } else if i < j {
            assert(t[i].0 != t[j].0);
        }
    }
}

/// What leaving match `gid` does when session `pid` leaves it: the remaining members
/// hear of it in roster order, and a match whose roster becomes empty is removed
/// with the join codes that lead to it; other matches are unchanged.
pub open spec fn left_game(
    before: Universe,
    after: Universe,
    gid: u128,
    pid: u128,
    out_before: Seq<Delivery>,
    out_after: Seq<Delivery>,
) -> bool {
    &&& !before.game_map().contains_key(gid) ==> after.game_map() == before.game_map()
        && after.join_table() == before.join_table() && out_after == out_before
    &&& before.game_map().contains_key(gid) ==> {
        let g = before.game_map()[gid];
        let was_member = has_player(g.roster(), pid);
        &&& !was_member ==> out_after == out_before
        &&& was_member ==> exists|k: int|
            0 <= k < g.roster().len() && g.roster()[k].player.id == pid
                && out_after == out_before + broadcast_to(
                roster_ids(g.roster().remove(k)),
                Message::PlayerDisconnected(PlayerDisconnectedMessage { player_id: pid }),
            ) && (g.roster().len() == 1 <==> !after.game_map().contains_key(gid))
                && (g.roster().len() > 1 ==> after.game_map()[gid].roster()
                == g.roster().remove(k))
        &&& after.game_map().contains_key(gid) ==> {
            let g2 = after.game_map()[gid];
            &&& after.game_map() == before.game_map().insert(gid, g2)
            &&& after.join_table() == before.join_table()
            &&& g2.spec_id() == g.spec_id()
            &&& g2.spec_join_code() == g.spec_join_code()
            &&& g2.spec_turn() == g.spec_turn()
            &&& g2.spec_board() == g.spec_board()
            &&& !has_player(g2.roster(), pid)
            &&& !was_member ==> g2.roster() == g.roster()
        }
        &&& !after.game_map().contains_key(gid) ==> {
            &&& after.game_map() == before.game_map().remove(gid)
            &&& forall|i: int|
                0 <= i < after.join_table().len() ==> (
                #[trigger] after.join_table()[i]).1 != gid
        }
    }
}

/// `after` is the roster `before` with the player of `info` in it: unchanged when they
/// were on it already, else with their entry as a teamless spectator who is not ready.
pub open spec fn joined_roster(
    before: Seq<GamePlayerState>,
    after: Seq<GamePlayerState>,
    info: PlayerInfo,
) -> bool {
    &&& has_player(before, info.id) ==> after == before
    &&& !has_player(before, info.id) ==> exists|k: int|
        0 <= k <= before.len() && after == before.insert(k, new_entry(info))
}

/// Each of `ids` was sent `m`.
pub open spec fn all_told(out: Seq<Delivery>, ids: Seq<u128>, m: Message) -> bool {
    forall|j: int|
        0 <= j < ids.len() ==> out.contains(Delivery { recipient: #[trigger] ids[j], message: m })
}

/// The match the join code table sends `code` to.
pub open spec fn code_target(t: Seq<(Seq<char>, u128)>, code: Seq<char>) -> Option<u128> {
    if exists|i: int| 0 <= i < t.len() && t[i].0 == code {
        Some(t[choose|i: int| 0 <= i < t.len() && t[i].0 == code].1)
    } else {
        None
    }
}

/// The match session `pid` is in, when the session and the match both exist.
pub open spec fn player_game(
    sessions: Map<u128, UniversePlayerState>,
    games: Map<u128, Game>,
    pid: u128,
) -> Option<u128> {
    if sessions.contains_key(pid) && sessions[pid].game_id is Some && games.contains_key(
        sessions[pid].game_id->Some_0,
    ) {
        sessions[pid].game_id
    } else {
        None
    }
}

} // verus!
