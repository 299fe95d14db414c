//! Command handling: what each client command does to the registry and which
//! messages it sends.

use vstd::prelude::*;

use crate::board::spec_initial_turn;
use crate::game::{
    broadcast_to, has_player, is_snapshot_of, new_entry, quorum, roster_after_mark_ready,
    roster_after_set_role, roster_after_set_team, roster_ids, snapshots_sent,
};
use crate::join_code::normalized;
use crate::protocol::{
    fails_with, AuthenticateCommand, ChatMessage, Command, Delivery, JoinGameCommand, Message,
    PlayerInfo, ProtocolError, ProtocolErrorKind, SendTextCommand, SetPlayerRoleCommand,
    SetPlayerTeamCommand,
};
use crate::universe::{
    all_told, code_target, joined_roster, left_game, player_game, Universe,
};

verus! {

/// Longest nickname, in characters.
pub const MAX_NICKNAME_CHARS: usize = 16;

/// Unicode's `White_Space` characters, which `char::is_whitespace` and so `str::trim`
/// go by.
pub open spec fn is_white_space(c: char) -> bool {
    ('\u{9}' <= c && c <= '\u{d}') || c == ' ' || c == '\u{85}' || c == '\u{a0}' || c
        == '\u{1680}' || ('\u{2000}' <= c && c <= '\u{200a}') || c == '\u{2028}' || c == '\u{2029}'
        || c == '\u{202f}' || c == '\u{205f}' || c == '\u{3000}'
}

/// The text without its leading white space.
pub open spec fn trim_start(s: Seq<char>) -> Seq<char>
    decreases s.len(),
{
    if s.len() > 0 && is_white_space(s[0]) {
        trim_start(s.drop_first())
    } else {
        s
    }
}

/// The text without its trailing white space.
pub open spec fn trim_end(s: Seq<char>) -> Seq<char>
    decreases s.len(),
{
    if s.len() > 0 && is_white_space(s.last()) {
        trim_end(s.drop_last())
    } else {
        s
    }
}

/// The text without leading and trailing white space.
pub open spec fn trimmed(s: Seq<char>) -> Seq<char> {
    trim_end(trim_start(s))
}

/// Relies on `str::trim` (and `str::to_owned`): the text without leading and trailing
/// Unicode white space.
#[verifier::external_body]
fn trim_text(s: &str) -> (r: String)
    ensures
        r@ == trimmed(s@),
{
    s.trim().to_owned()
}

/// A nickname is one to sixteen characters long.
pub open spec fn nickname_ok(n: Seq<char>) -> bool {
    1 <= n.len() <= MAX_NICKNAME_CHARS
}

/// The registry looks the same to every caller.
pub open spec fn unchanged(a: Universe, b: Universe) -> bool {
    &&& a.sessions() == b.sessions()
    &&& a.game_map() == b.game_map()
    &&& a.join_table() == b.join_table()
    &&& a.spec_words() == b.spec_words()
}

/// `m` tells a player they joined match `gid` under `code`.
pub open spec fn is_game_joined(m: Message, gid: u128, code: Seq<char>) -> bool {
    match m {
        Message::GameJoined(info) => info.game_id == gid && info.join_code@ == code,
        _ => false,
    }
}

/// `pid` is in a match that still exists.
pub open spec fn in_game(u: Universe, pid: u128) -> bool {
    player_game(u.sessions(), u.game_map(), pid) is Some
}

pub open spec fn current_game(u: Universe, pid: u128) -> u128 {
    player_game(u.sessions(), u.game_map(), pid)->Some_0
}

/// Authenticates session `pid` under an already trimmed nickname and tells the session.
/// Fails with `BadInput` when the nickname is empty or longer than sixteen
/// characters, then as `Universe::authenticate_player` does; nothing changes on failure.
pub fn authenticate_nickname(
    universe: &mut Universe,
    player_id: u128,
    nickname: String,
    out: &mut Vec<Delivery>,
) -> (r: Result<(), ProtocolError>)
    requires
        old(universe).wf(),
    ensures
        final(universe).wf(),
        !nickname_ok(nickname@) ==> fails_with(r, ProtocolErrorKind::BadInput),
        nickname_ok(nickname@) && !old(universe).sessions().contains_key(player_id) ==> fails_with(
            r,
            ProtocolErrorKind::InternalError,
        ),
        nickname_ok(nickname@) && old(universe).sessions().contains_key(player_id) && old(universe).sessions()[player_id].is_authenticated ==> fails_with(
            r,
            ProtocolErrorKind::AlreadyAuthenticated,
        ),
        r is Ok <==> nickname_ok(nickname@) && old(universe).sessions().contains_key(player_id)
            && !old(universe).sessions()[player_id].is_authenticated,
        r is Err ==> unchanged(*old(universe), *final(universe)) && final(out)@ == old(out)@,
        r is Ok ==> {
            let info = PlayerInfo { id: player_id, nickname };
            &&& nickname_ok(nickname@)
            &&& old(universe).sessions().contains_key(player_id)
            &&& !old(universe).sessions()[player_id].is_authenticated
            &&& final(universe).sessions()[player_id].is_authenticated
            &&& final(universe).sessions()[player_id].player_info == info
            &&& final(universe).sessions() == old(universe).sessions().insert(
                player_id,
                final(universe).sessions()[player_id],
            )
            &&& final(universe).sessions()[player_id].game_id == old(universe).sessions()[player_id].game_id
            &&& final(universe).game_map() == old(universe).game_map()
            &&& final(universe).join_table() == old(universe).join_table()
            &&& final(out)@ == old(out)@.push(
                Delivery { recipient: player_id, message: Message::Authenticated(info) },
            )
        },
{
    let len = nickname.as_str().unicode_len();
    if len == 0 || len > MAX_NICKNAME_CHARS {
        return Err(
            ProtocolError::new(
                ProtocolErrorKind::BadInput,
                "nickname must be between 1 and 16 characters",
            ),
        );
    }
    let info = universe.authenticate_player(player_id, nickname)?;
    universe.send(player_id, Message::Authenticated(info), out);
    Ok(())
}

/// Handles an authenticate command: trims the nickname, then as
/// `authenticate_nickname`.
pub fn on_player_authenticate(
    universe: &mut Universe,
    player_id: u128,
    cmd: AuthenticateCommand,
    out: &mut Vec<Delivery>,
) -> (r: Result<(), ProtocolError>)
    requires
        old(universe).wf(),
    ensures
        final(universe).wf(),
        !nickname_ok(trimmed(cmd.nickname@)) ==> fails_with(r, ProtocolErrorKind::BadInput),
        nickname_ok(trimmed(cmd.nickname@)) && !old(universe).sessions().contains_key(player_id)
            ==> fails_with(r, ProtocolErrorKind::InternalError),
        nickname_ok(trimmed(cmd.nickname@)) && old(universe).sessions().contains_key(player_id)
            && old(universe).sessions()[player_id].is_authenticated ==> fails_with(
            r,
            ProtocolErrorKind::AlreadyAuthenticated,
        ),
        r is Err ==> unchanged(*old(universe), *final(universe)) && final(out)@ == old(out)@,
        r is Ok <==> nickname_ok(trimmed(cmd.nickname@)) && old(universe).sessions().contains_key(
            player_id,
        ) && !old(universe).sessions()[player_id].is_authenticated,
        r is Ok ==> final(universe).sessions().contains_key(player_id) && final(universe).sessions()[player_id].is_authenticated
            && final(universe).sessions()[player_id].player_info.nickname@ == trimmed(cmd.nickname@),
{
    let nickname = trim_text(cmd.nickname.as_str());
    authenticate_nickname(universe, player_id, nickname, out)
}

/// Handles a new game command: a new match starts, the player leaves the match they
/// were in, joins the new one as a teamless spectator, hears its id and code, and
/// every member gets a snapshot. Fails with
/// `InternalError` only when no free join code could be drawn.
pub fn on_new_game(universe: &mut Universe, player_id: u128, out: &mut Vec<Delivery>) -> (r: Result<
    (),
    ProtocolError,
>)
    requires
        old(universe).wf(),
    ensures
        final(universe).wf(),
        r is Err ==> fails_with(r, ProtocolErrorKind::InternalError) && unchanged(
            *old(universe),
            *final(universe),
        ) && final(out)@ == old(out)@,
        (forall|i: int|
            0 <= i < old(universe).join_table().len() ==> !old(universe).entry_live(i)) ==> r is Ok,
        r is Ok && old(universe).sessions().contains_key(player_id) ==> {
            let gid = current_game(*final(universe), player_id);
            let g = final(universe).game_map()[gid];
            &&& in_game(*final(universe), player_id)
            &&& !old(universe).game_map().contains_key(gid)
            &&& g.roster() == seq![new_entry(old(universe).sessions()[player_id].player_info)]
            &&& g.spec_joinable()
            &&& exists|i: int|
                0 <= i < final(out)@.len() && final(out)@[i].recipient == player_id
                    && is_game_joined(final(out)@[i].message, gid, g.spec_join_code())
        },
{
    let gid = match universe.new_game() {
        Some(gid) => gid,
        None => {
            return Err(
                ProtocolError::new(ProtocolErrorKind::InternalError, "no free join code"),
            );
        },
    };
    let ghost created = *universe;
    match universe.get_player_game(player_id) {
        Some(current) => {
            if current != gid {
                universe.leave_game(current, player_id, out);
            }
        },
        None => {},
    }
    let ghost fresh = *universe;
    proof {
        assert(fresh.game_map().contains_key(gid));
        assert(fresh.game_map()[gid] == created.game_map()[gid]);
    }
    universe.add_player_to_game(gid, player_id, out);
    let info = match universe.get_game(gid) {
        Some(game) => game.game_info(),
        None => {
            return Ok(());
        },
    };
    let ghost before_send = out@;
    universe.send(player_id, Message::GameJoined(info), out);
    let ghost after_send = out@;
    universe.broadcast_state(gid, out);
    proof {
        if old(universe).sessions().contains_key(player_id) {
            let g0 = fresh.game_map()[gid];
            let g = universe.game_map()[gid];
            let e = new_entry(fresh.sessions()[player_id].player_info);
            assert(fresh.sessions()[player_id].player_info == old(universe).sessions()[player_id].player_info);
            assert(!has_player(g0.roster(), player_id));
            let k = choose|k: int|
                0 <= k <= g0.roster().len() && g.roster() == g0.roster().insert(k, e);
            assert(g.roster() =~= seq![e]);
            let i = before_send.len() as int;
            assert(after_send == before_send.push(Delivery { recipient: player_id, message: Message::GameJoined(info) }));
            assert(out@.take(after_send.len() as int) == after_send);
            assert(out@.take(after_send.len() as int)[i] == out@[i]);
            assert(is_game_joined(out@[i].message, gid, g.spec_join_code()));
        }
    }
    Ok(())
}

/// Handles a join game command: as `Universe::join_game`; then the player hears the
/// match's id and code and every member gets a snapshot.
pub fn on_join_game(
    universe: &mut Universe,
    player_id: u128,
    cmd: JoinGameCommand,
    out: &mut Vec<Delivery>,
) -> (r: Result<(), ProtocolError>)
    requires
        old(universe).wf(),
    ensures
        final(universe).wf(),
        ({
            let target = code_target(
                old(universe).join_table(),
                normalized(cmd.join_code@),
            );
            let found = target is Some && old(universe).game_map().contains_key(target->Some_0);
            &&& !found ==> fails_with(r, ProtocolErrorKind::NotFound)
            &&& found && !old(universe).game_map()[target->Some_0].spec_joinable() ==> fails_with(
                r,
                ProtocolErrorKind::InvalidCommand,
            )
            &&& found && old(universe).game_map()[target->Some_0].spec_joinable() ==> r is Ok && (
            old(universe).sessions().contains_key(player_id) ==> player_game(
                final(universe).sessions(),
                final(universe).game_map(),
                player_id,
            ) == target && has_player(
                final(universe).game_map()[target->Some_0].roster(),
                player_id,
            ) && exists|i: int|
                0 <= i < final(out)@.len() && final(out)@[i].recipient == player_id
                    && is_game_joined(
                    final(out)@[i].message,
                    target->Some_0,
                    final(universe).game_map()[target->Some_0].spec_join_code(),
                ) && joined_roster(
                old(universe).game_map()[target->Some_0].roster(),
                final(universe).game_map()[target->Some_0].roster(),
                old(universe).sessions()[player_id].player_info,
            ) && (!has_player(old(universe).game_map()[target->Some_0].roster(), player_id)
                ==> all_told(
                final(out)@,
                roster_ids(old(universe).game_map()[target->Some_0].roster()),
                Message::PlayerConnected(new_entry(old(universe).sessions()[player_id].player_info)),
            )))
            &&& r is Err ==> unchanged(*old(universe), *final(universe)) && final(out)@ == old(out)@
        }),
{
    let gid = universe.join_game(player_id, cmd.join_code.as_str(), out)?;
    let ghost joined_at = *universe;
    let ghost before_send = out@;
    match universe.get_game(gid) {
        Some(game) => {
            let info = game.game_info();
            universe.send(player_id, Message::GameJoined(info), out);
        },
        None => {},
    }
    let ghost after_send = out@;
    universe.broadcast_state(gid, out);
    proof {
        if old(universe).sessions().contains_key(player_id) {
            let i = before_send.len() as int;
            assert(out@.take(after_send.len() as int) == after_send);
            assert(out@.take(after_send.len() as int)[i] == out@[i]);
            let info = old(universe).sessions()[player_id].player_info;
            let g = old(universe).game_map()[gid];
            assert(universe.game_map()[gid] == joined_at.game_map()[gid]);
            if !has_player(g.roster(), player_id) {
                let ids = roster_ids(g.roster());
                let m = Message::PlayerConnected(new_entry(info));
                assert forall|j: int| 0 <= j < ids.len() implies out@.contains(
                    Delivery { recipient: #[trigger] ids[j], message: m },
                ) by {
                    let d = Delivery { recipient: ids[j], message: m };
                    assert(before_send.contains(d));
                    let k = choose|k: int| 0 <= k < before_send.len() && before_send[k] == d;
                    assert(out@.take(after_send.len() as int)[k] == out@[k]);
                    assert(after_send[k] == before_send[k]);
                }
            }
        }
    }
    Ok(())
}

/// Handles a leave game command: the player leaves their match, if any, and hears
/// that they left.
pub fn on_leave_game(universe: &mut Universe, player_id: u128, out: &mut Vec<Delivery>) -> (r: Result<
    (),
    ProtocolError,
>)
    requires
        old(universe).wf(),
    ensures
        final(universe).wf(),
        r is Ok,
        !in_game(*final(universe), player_id),
        old(universe).sessions().contains_key(player_id) ==> final(out)@.last() == (Delivery {
            recipient: player_id,
            message: Message::GameLeft,
        }) && final(out)@.len() > old(out)@.len(),
        in_game(*old(universe), player_id) ==> left_game(
            *old(universe),
            *final(universe),
            current_game(*old(universe), player_id),
            player_id,
            old(out)@,
            final(out)@.drop_last(),
        ),
        !in_game(*old(universe), player_id) ==> final(universe).game_map() == old(universe).game_map() && final(universe).join_table() == old(universe).join_table(),
{
    universe.remove_player_from_game(player_id, out);
    let ghost mid = out@;
    universe.send(player_id, Message::GameLeft, out);
    proof {
        if old(universe).sessions().contains_key(player_id) {
            assert(out@.drop_last() == mid);
        }
    }
    Ok(())
}

/// Handles a mark ready command. Fails with `BadState` when the player is in no
/// match. While the match is joinable the player is marked ready, which may start
/// play, and every member gets a snapshot; otherwise nothing changes.
pub fn on_player_mark_ready(universe: &mut Universe, player_id: u128, out: &mut Vec<Delivery>) -> (r:
    Result<(), ProtocolError>)
    requires
        old(universe).wf(),
    ensures
        final(universe).wf(),
        !in_game(*old(universe), player_id) ==> fails_with(r, ProtocolErrorKind::BadState)
            && unchanged(*old(universe), *final(universe)) && final(out)@ == old(out)@,
        in_game(*old(universe), player_id) ==> r is Ok && {
            let gid = current_game(*old(universe), player_id);
            let g = old(universe).game_map()[gid];
            let g2 = final(universe).game_map()[gid];
            &&& !g.spec_joinable() ==> unchanged(*old(universe), *final(universe)) && final(out)@
                == old(out)@
            &&& g.spec_joinable() ==> final(universe).game_map().contains_key(gid) && g2.roster()
                == roster_after_mark_ready(g.roster(), player_id) && g2.spec_turn() == if quorum(
                g2.roster(),
            ) {
                spec_initial_turn(g.spec_board().spec_starting_team())
            } else {
                g.spec_turn()
            } && snapshots_sent(old(out)@, final(out)@, g2)
        },
{
    let gid = match universe.get_player_game(player_id) {
        None => {
            return Err(ProtocolError::new(ProtocolErrorKind::BadState, "not in a game"));
        },
        Some(gid) => gid,
    };
    let joinable = match universe.get_game(gid) {
        Some(game) => game.is_joinable(),
        None => false,
    };
    if joinable {
        universe.mark_player_ready_in(gid, player_id);
        universe.broadcast_state(gid, out);
    }
    Ok(())
}

/// Handles a chat command: every member of the player's match gets the text. Fails
/// with `BadState` when the player is in no match.
pub fn on_player_send_text(
    universe: &mut Universe,
    player_id: u128,
    cmd: SendTextCommand,
    out: &mut Vec<Delivery>,
) -> (r: Result<(), ProtocolError>)
    requires
        old(universe).wf(),
    ensures
        unchanged(*old(universe), *final(universe)),
        !in_game(*old(universe), player_id) ==> fails_with(r, ProtocolErrorKind::BadState)
            && final(out)@ == old(out)@,
        in_game(*old(universe), player_id) ==> r is Ok && final(out)@ == old(out)@ + broadcast_to(
            roster_ids(old(universe).game_map()[current_game(*old(universe), player_id)].roster()),
            Message::Chat(ChatMessage { player_id, text: cmd.text }),
        ),
{
    match universe.get_player_game(player_id) {
        None => Err(ProtocolError::new(ProtocolErrorKind::BadState, "not in a game")),
        Some(gid) => {
            universe.broadcast(gid, &Message::Chat(ChatMessage { player_id, text: cmd.text }), out);
            Ok(())
        },
    }
}

/// Handles a set role command. Fails with `BadState` when the player is in no match
/// or the match can no longer be joined; otherwise the player takes the role (see
/// `Game::set_player_role`) and every member gets a snapshot.
pub fn on_player_set_role(
    universe: &mut Universe,
    player_id: u128,
    cmd: SetPlayerRoleCommand,
    out: &mut Vec<Delivery>,
) -> (r: Result<(), ProtocolError>)
    requires
        old(universe).wf(),
    ensures
        final(universe).wf(),
        !in_game(*old(universe), player_id) ==> fails_with(r, ProtocolErrorKind::BadState),
        in_game(*old(universe), player_id) && !old(universe).game_map()[current_game(
            *old(universe),
            player_id,
        )].spec_joinable() ==> fails_with(r, ProtocolErrorKind::BadState),
        in_game(*old(universe), player_id) && old(universe).game_map()[current_game(
            *old(universe),
            player_id,
        )].spec_joinable() ==> r is Ok,
        r is Err ==> unchanged(*old(universe), *final(universe)) && final(out)@ == old(out)@,
        r is Ok ==> {
            let gid = current_game(*old(universe), player_id);
            let g = old(universe).game_map()[gid];
            let g2 = final(universe).game_map()[gid];
            &&& in_game(*old(universe), player_id)
            &&& g.spec_joinable()
            &&& final(universe).game_map().contains_key(gid)
            &&& g2.roster() == roster_after_set_role(g.roster(), player_id, cmd.role)
            &&& g2.spec_turn() == g.spec_turn()
            &&& snapshots_sent(old(out)@, final(out)@, g2)
        },
{
    let gid = match universe.get_player_game(player_id) {
        None => {
            return Err(ProtocolError::new(ProtocolErrorKind::BadState, "not in a game"));
        },
        Some(gid) => gid,
    };
    let joinable = match universe.get_game(gid) {
        Some(game) => game.is_joinable(),
        None => false,
    };
    if !joinable {
        return Err(
            ProtocolError::new(
                ProtocolErrorKind::BadState,
                "cannot set role because game is not joinable",
            ),
        );
    }
    universe.set_player_role_in(gid, player_id, cmd.role);
    universe.broadcast_state(gid, out);
    Ok(())
}

/// Handles a set team command. Fails with `BadState` when the player is in no match
/// or the match can no longer be joined; otherwise the player joins the team (see
/// `Game::set_player_team`) and every member gets a snapshot.
pub fn on_player_set_team(
    universe: &mut Universe,
    player_id: u128,
    cmd: SetPlayerTeamCommand,
    out: &mut Vec<Delivery>,
) -> (r: Result<(), ProtocolError>)
    requires
        old(universe).wf(),
    ensures
        final(universe).wf(),
        !in_game(*old(universe), player_id) ==> fails_with(r, ProtocolErrorKind::BadState),
        in_game(*old(universe), player_id) && !old(universe).game_map()[current_game(
            *old(universe),
            player_id,
        )].spec_joinable() ==> fails_with(r, ProtocolErrorKind::BadState),
        in_game(*old(universe), player_id) && old(universe).game_map()[current_game(
            *old(universe),
            player_id,
        )].spec_joinable() ==> r is Ok,
        r is Err ==> unchanged(*old(universe), *final(universe)) && final(out)@ == old(out)@,
        r is Ok ==> {
            let gid = current_game(*old(universe), player_id);
            let g = old(universe).game_map()[gid];
            let g2 = final(universe).game_map()[gid];
            &&& in_game(*old(universe), player_id)
            &&& g.spec_joinable()
            &&& final(universe).game_map().contains_key(gid)
            &&& g2.roster() == roster_after_set_team(g.roster(), player_id, cmd.team)
            &&& g2.spec_turn() == g.spec_turn()
            &&& snapshots_sent(old(out)@, final(out)@, g2)
        },
{
    let gid = match universe.get_player_game(player_id) {
        None => {
            return Err(ProtocolError::new(ProtocolErrorKind::BadState, "not in a game"));
        },
        Some(gid) => gid,
    };
    let joinable = match universe.get_game(gid) {
        Some(game) => game.is_joinable(),
        None => false,
    };
    if !joinable {
        return Err(
            ProtocolError::new(
                ProtocolErrorKind::BadState,
                "cannot set team because game is not joinable",
            ),
        );
    }
    universe.set_player_team_in(gid, player_id, cmd.team);
    universe.broadcast_state(gid, out);
    Ok(())
}

/// Handles a snapshot request: the player gets their own snapshot of their match.
/// Fails with `BadState` when the player is in no match.
pub fn on_request_game_state(universe: &Universe, player_id: u128, out: &mut Vec<Delivery>) -> (r:
    Result<(), ProtocolError>)
    requires
        universe.wf(),
    ensures
        !in_game(*universe, player_id) ==> fails_with(r, ProtocolErrorKind::BadState) && final(out)@ == old(out)@,
        in_game(*universe, player_id) ==> r is Ok && final(out)@.len() == old(out)@.len() + 1
            && final(out)@.last().recipient == player_id && is_snapshot_of(
            final(out)@.last().message,
            universe.game_map()[current_game(*universe, player_id)],
            player_id,
        ),
{
    match universe.get_player_game(player_id) {
        None => Err(ProtocolError::new(ProtocolErrorKind::BadState, "not in a game")),
        Some(gid) => {
            universe.send_snapshot(gid, player_id, out);
            Ok(())
        },
    }
}

/// Routes one command of session `pid`. An unauthenticated session may only
/// authenticate (anything else fails with `NotAuthenticated`); an authenticated one
/// may not authenticate again (`AlreadyAuthenticated`). Commands that need a match
/// fail with `BadState` when the session is in none. Nothing changes on those failures.
pub fn on_player_message(
    universe: &mut Universe,
    player_id: u128,
    cmd: Command,
    out: &mut Vec<Delivery>,
) -> (r: Result<(), ProtocolError>)
    requires
        old(universe).wf(),
    ensures
        final(universe).wf(),
        ({
            let authed = old(universe).sessions().contains_key(player_id) && old(universe).sessions()[player_id].is_authenticated;
            let needs_game = match cmd {
                Command::SendText(_) | Command::MarkReady | Command::SetPlayerRole(_)
                | Command::SetPlayerTeam(_) | Command::RequestGameStateSnapshot => true,
                _ => false,
            };
            &&& !authed && !(cmd is Authenticate) ==> fails_with(
                r,
                ProtocolErrorKind::NotAuthenticated,
            ) && unchanged(*old(universe), *final(universe)) && final(out)@ == old(out)@
            &&& authed && cmd is Authenticate ==> fails_with(
                r,
                ProtocolErrorKind::AlreadyAuthenticated,
            ) && unchanged(*old(universe), *final(universe)) && final(out)@ == old(out)@
            &&& authed && needs_game && !in_game(*old(universe), player_id) ==> fails_with(
                r,
                ProtocolErrorKind::BadState,
            ) && unchanged(*old(universe), *final(universe)) && final(out)@ == old(out)@
            &&& authed && (cmd is SetPlayerRole || cmd is SetPlayerTeam) && in_game(
                *old(universe),
                player_id,
            ) ==> (r is Ok <==> old(universe).game_map()[current_game(
                *old(universe),
                player_id,
            )].spec_joinable()) && (r is Err ==> fails_with(r, ProtocolErrorKind::BadState))
            &&& authed && (cmd is SendText || cmd is MarkReady || cmd is RequestGameStateSnapshot)
                && in_game(*old(universe), player_id) ==> r is Ok
            &&& authed && cmd is LeaveGame ==> r is Ok && !in_game(*final(universe), player_id)
            &&& authed && cmd is NewGame ==> (r is Ok || fails_with(
                r,
                ProtocolErrorKind::InternalError,
            )) && ((forall|i: int|
                0 <= i < old(universe).join_table().len() ==> !old(universe).entry_live(i))
                ==> r is Ok)
            &&& authed && cmd is JoinGame ==> {
                let target = code_target(
                    old(universe).join_table(),
                    normalized(cmd->JoinGame_0.join_code@),
                );
                let found = target is Some && old(universe).game_map().contains_key(
                    target->Some_0,
                );
                &&& !found ==> fails_with(r, ProtocolErrorKind::NotFound)
                &&& found && !old(universe).game_map()[target->Some_0].spec_joinable()
                    ==> fails_with(r, ProtocolErrorKind::InvalidCommand)
                &&& found && old(universe).game_map()[target->Some_0].spec_joinable() ==> r is Ok
            }
            &&& !authed && cmd is Authenticate ==> {
                let n = trimmed(cmd->Authenticate_0.nickname@);
                &&& !nickname_ok(n) ==> fails_with(r, ProtocolErrorKind::BadInput)
                &&& nickname_ok(n) && old(universe).sessions().contains_key(player_id) ==> r is Ok
                    && final(universe).sessions()[player_id].is_authenticated
                    && final(universe).sessions()[player_id].player_info.nickname@ == n
            }
        }),
{
    if !universe.player_is_authenticated(player_id) {
        match cmd {
            Command::Authenticate(data) => on_player_authenticate(universe, player_id, data, out),
            _ => Err(
                ProtocolError::new(
                    ProtocolErrorKind::NotAuthenticated,
                    "cannot perform this command unauthenticated",
                ),
            ),
        }
    } else {
        match cmd {
            Command::NewGame => on_new_game(universe, player_id, out),
            Command::JoinGame(data) => on_join_game(universe, player_id, data, out),
            Command::LeaveGame => on_leave_game(universe, player_id, out),
            Command::MarkReady => on_player_mark_ready(universe, player_id, out),
            Command::SendText(data) => on_player_send_text(universe, player_id, data, out),
            Command::SetPlayerRole(data) => on_player_set_role(universe, player_id, data, out),
            Command::SetPlayerTeam(data) => on_player_set_team(universe, player_id, data, out),
            Command::RequestGameStateSnapshot => on_request_game_state(universe, player_id, out),
            Command::Authenticate(_) => Err(
                ProtocolError::new(
                    ProtocolErrorKind::AlreadyAuthenticated,
                    "cannot authenticate twice",
                ),
            ),
        }
    }
}

/// Cleans up after a session's connection closed: it leaves its match first, so the
/// rest of the match hears of it and an emptied match is removed, then the session
/// is unregistered.
pub fn on_player_disconnected(universe: &mut Universe, player_id: u128, out: &mut Vec<Delivery>)
    requires
        old(universe).wf(),
    ensures
        final(universe).wf(),
        !final(universe).sessions().contains_key(player_id),
        final(universe).sessions() == old(universe).sessions().remove(player_id),
        in_game(*old(universe), player_id) ==> left_game(
            *old(universe),
            *final(universe),
            current_game(*old(universe), player_id),
            player_id,
            old(out)@,
            final(out)@,
        ),
        !in_game(*old(universe), player_id) ==> final(universe).game_map() == old(universe).game_map() && final(universe).join_table() == old(universe).join_table()
            && final(out)@ == old(out)@,
{
    universe.remove_player_from_game(player_id, out);
    universe.remove_player(player_id);
    assert(universe.sessions() =~= old(universe).sessions().remove(player_id));
}

} // verus!
