//! Session registry and the role-scoped channel fabric.
//!
//! The registry owns every live session, keyed by a 32-bit identifier. Each
//! operation runs to completion under the caller's exclusive access (the
//! surrounding application holds one lock over the whole registry), so
//! concurrent state transitions are serialized. Session creation is
//! idempotent: the first writer wins. Closing a session removes it and
//! signals closure on its user channel.

use vstd::prelude::*;
use std::collections::HashMap;

verus! {

use tokio::sync::broadcast::{Sender, Receiver};
use crate::channel::{broadcast_channel, broadcast_send};
use crate::game::{GameData, GameState, GameDataModel, GameStateModel};
use crate::packet::{Writable, PacketWriter, enc_u8};

broadcast use vstd::std_specs::hash::group_hash_axioms;

/// One of the two competing sides. The wire tags are 0 for blue and 1 for red.
#[derive(Clone, Copy, Debug, PartialEq, Eq, Structural)]
pub enum Team {
    Blue,
    Red,
}

impl Team {
    /// The wire tag of this team.
    pub open spec fn spec_tag(self) -> u8 {
        match self {
            Team::Blue => 0,
            Team::Red => 1,
        }
    }

    pub fn tag(self) -> (r: u8)
        ensures
            r == self.spec_tag(),
    {
        match self {
            Team::Blue => 0,
            Team::Red => 1,
        }
    }

    /// The team a wire tag stands for; tags other than 0 and 1 are invalid.
    pub open spec fn spec_from_tag(tag: u8) -> Option<Team> {
        if tag == 0 {
            Some(Team::Blue)
        } else if tag == 1 {
            Some(Team::Red)
        } else {
            None
        }
    }

    pub fn from_tag(tag: u8) -> (r: Option<Team>)
        ensures
            r == Team::spec_from_tag(tag),
    {
        if tag == 0 {
            Some(Team::Blue)
        } else if tag == 1 {
            Some(Team::Red)
        } else {
            None
        }
    }
}

impl Writable for Team {
    open spec fn spec_enc(&self) -> Seq<u8> {
        enc_u8(self.spec_tag())
    }

    fn write(self, writer: &mut PacketWriter) {
        writer.write_u8(self.tag());
    }
}

/// Commands carried on a session's host channel: score submissions relayed
/// from user connections, tagged with the submitting team.
#[derive(Clone, Copy, Debug, PartialEq, Eq, Structural)]
pub enum HostMessage {
    Score(Team, u8, bool),
}

/// Lifecycle notices carried on a session's user channel.
#[derive(Clone, Copy, Debug, PartialEq, Eq, Structural)]
pub enum UserMessage {
    Close,
    GameStart,
    GameEnd,
}

/// Display-oriented events carried on a session's viewer channel.
#[derive(Clone, Copy, Debug, PartialEq, Eq, Structural)]
pub enum ViewerMessage {
    Score(Team, u8, bool),
    GameStart(u64),
    GameEnd,
    GamePause,
    RevealScore,
    GameUnpause(u64),
}

/// Every role channel buffers this many unread events per subscriber before
/// the oldest is dropped.
pub const CHANNEL_CAPACITY: usize = 10;

/// The host channel endpoints of one session.
pub struct Host {
    pub recv: Receiver<HostMessage>,
    pub sender: Sender<HostMessage>,
}

/// The user channel endpoints of one session.
pub struct User {
    pub recv: Receiver<UserMessage>,
    pub sender: Sender<UserMessage>,
}

/// The viewer channel endpoints of one session.
pub struct Viewer {
    pub recv: Receiver<ViewerMessage>,
    pub sender: Sender<ViewerMessage>,
}

/// One live session: three role channels, the immutable game definition and
/// the mutable game state.
pub struct Session {
    pub host: Host,
    pub user: User,
    pub viewer: Viewer,
    pub game_data: GameData,
    pub game_state: GameState,
}

/// The abstract form of a session: its game definition and game state. The
/// channel endpoints carry no abstract state.
pub struct SessionModel {
    pub game_data: GameDataModel,
    pub game_state: GameStateModel,
}

impl View for Session {
    type V = SessionModel;

    open spec fn view(&self) -> SessionModel {
        SessionModel { game_data: self.game_data@, game_state: self.game_state@ }
    }
}

impl Session {
    /// A fresh session around the given game definition.
    fn make(game_data: GameData) -> (r: Session)
        ensures
            r@ == (SessionModel { game_data: game_data@, game_state: GameStateModel::init() }),
    {
        let (host_sender, host_recv) = broadcast_channel(CHANNEL_CAPACITY);
        let (user_sender, user_recv) = broadcast_channel(CHANNEL_CAPACITY);
        let (viewer_sender, viewer_recv) = broadcast_channel(CHANNEL_CAPACITY);
        Session {
            host: Host { recv: host_recv, sender: host_sender },
            user: User { recv: user_recv, sender: user_sender },
            viewer: Viewer { recv: viewer_recv, sender: viewer_sender },
            game_data,
            game_state: GameState::new(),
        }
    }
}

/// The registry of all live sessions.
pub struct SessionManager {
    pub sessions: HashMap<u32, Session>,
}

impl View for SessionManager {
    type V = Map<u32, SessionModel>;

    open spec fn view(&self) -> Map<u32, SessionModel> {
        Map::new(|id: u32| self.sessions@.contains_key(id), |id: u32| self.sessions@[id]@)
    }
}

impl SessionManager {
    pub fn new() -> (r: Self)
        ensures
            r@ == Map::<u32, SessionModel>::empty(),
    {
        let r = SessionManager { sessions: HashMap::new() };
        proof {
            assert(r@ =~= Map::<u32, SessionModel>::empty());
        }
        r
    }

    /// Creates a session for `id` around `game_data`. Idempotent: when a
    /// session with this identifier already exists, the existing one is kept
    /// untouched and nothing is created — the first writer wins.
    pub fn new_session(&mut self, id: u32, game_data: GameData) -> (created: bool)
        ensures
            created == !old(self)@.contains_key(id),
            created ==> final(self)@ == old(self)@.insert(
                id,
                SessionModel { game_data: game_data@, game_state: GameStateModel::init() },
            ),
            !created ==> *final(self) == *old(self),
    {
        if self.sessions.contains_key(&id) {
            return false;
        }
        let session = Session::make(game_data);
        self.sessions.insert(id, session);
        proof {
            assert(final(self)@ =~= old(self)@.insert(
                id,
                SessionModel { game_data: game_data@, game_state: GameStateModel::init() },
            ));
        }
        true
    }

    /// A read view of the session with this identifier, when it exists.
    pub fn get_session(&self, id: u32) -> (r: Option<&Session>)
        ensures
            match r {
                Some(s) => self@.contains_key(id) && s@ == self@[id],
                None => !self@.contains_key(id),
            },
    {
        self.sessions.get(&id)
    }

    /// Removes the session with this identifier, signalling closure to every
    /// subscriber of its user channel, and returns it.
    pub fn close_session(&mut self, id: u32) -> (r: Option<Session>)
        ensures
            final(self)@ == old(self)@.remove(id),
            match r {
                Some(s) => old(self)@.contains_key(id) && s@ == old(self)@[id],
                None => !old(self)@.contains_key(id),
            },
    {
        let removed = self.sessions.remove(&id);
        proof {
            assert(final(self)@ =~= old(self)@.remove(id));
        }
        match removed {
            Some(session) => {
                broadcast_send(&session.user.sender, UserMessage::Close);
                Some(session)
            },
            None => None,
        }
    }

    /// Starts the game clock of the session; rejected when the session is
    /// unknown or the clock is already set.
    pub fn start_game(&mut self, id: u32, time_started: u64) -> (ok: bool)
        ensures
            ok == (old(self)@.contains_key(id) && old(self)@[id].game_state.start_allowed()),
            ok ==> final(self)@ == old(self)@.insert(
                id,
                SessionModel {
                    game_state: old(self)@[id].game_state.with_start(time_started),
                    ..old(self)@[id]
                },
            ),
            !ok ==> final(self)@ == old(self)@,
    {
        let mut session = match self.sessions.remove(&id) {
            Some(s) => s,
            None => {
                proof {
                    assert(final(self)@ =~= old(self)@);
                }
                return false;
            },
        };
        let ok = session.game_state.start(time_started);
        let ghost sv = session@;
        self.sessions.insert(id, session);
        proof {
            if ok {
                assert(final(self)@ =~= old(self)@.insert(id, sv));
            } else {
                assert(final(self)@ =~= old(self)@);
            }
        }
        ok
    }

    /// Ends the game of the session; rejected when the session is unknown or
    /// the clock is not running.
    pub fn end_game(&mut self, id: u32) -> (ok: bool)
        ensures
            ok == (old(self)@.contains_key(id) && old(self)@[id].game_state.end_allowed()),
            ok ==> final(self)@ == old(self)@.insert(
                id,
                SessionModel { game_state: old(self)@[id].game_state.with_end(), ..old(self)@[id] },
            ),
            !ok ==> final(self)@ == old(self)@,
    {
        let mut session = match self.sessions.remove(&id) {
            Some(s) => s,
            None => {
                proof {
                    assert(final(self)@ =~= old(self)@);
                }
                return false;
            },
        };
        let ok = session.game_state.end();
        let ghost sv = session@;
        self.sessions.insert(id, session);
        proof {
            if ok {
                assert(final(self)@ =~= old(self)@.insert(id, sv));
            } else {
                assert(final(self)@ =~= old(self)@);
            }
        }
        ok
    }

    /// Pauses the game of the session; rejected when the session is unknown
    /// or the game is already paused.
    pub fn pause_game(&mut self, id: u32) -> (ok: bool)
        ensures
            ok == (old(self)@.contains_key(id) && old(self)@[id].game_state.pause_allowed()),
            ok ==> final(self)@ == old(self)@.insert(
                id,
                SessionModel {
                    game_state: old(self)@[id].game_state.with_pause(),
                    ..old(self)@[id]
                },
            ),
            !ok ==> final(self)@ == old(self)@,
    {
        let mut session = match self.sessions.remove(&id) {
            Some(s) => s,
            None => {
                proof {
                    assert(final(self)@ =~= old(self)@);
                }
                return false;
            },
        };
        let ok = session.game_state.pause();
        let ghost sv = session@;
        self.sessions.insert(id, session);
        proof {
            if ok {
                assert(final(self)@ =~= old(self)@.insert(id, sv));
            } else {
                assert(final(self)@ =~= old(self)@);
            }
        }
        ok
    }

    /// Unpauses the game of the session, accumulating the elapsed pause
    /// time; rejected when the session is unknown or the game is not paused.
    pub fn unpause_game(&mut self, id: u32, elapsed: u64) -> (ok: bool)
        ensures
            ok == (old(self)@.contains_key(id) && old(self)@[id].game_state.unpause_allowed()),
            ok ==> final(self)@ == old(self)@.insert(
                id,
                SessionModel {
                    game_state: old(self)@[id].game_state.with_unpause(elapsed),
                    ..old(self)@[id]
                },
            ),
            !ok ==> final(self)@ == old(self)@,
    {
        let mut session = match self.sessions.remove(&id) {
            Some(s) => s,
            None => {
                proof {
                    assert(final(self)@ =~= old(self)@);
                }
                return false;
            },
        };
        let ok = session.game_state.unpause(elapsed);
        let ghost sv = session@;
        self.sessions.insert(id, session);
        proof {
            if ok {
                assert(final(self)@ =~= old(self)@.insert(id, sv));
            } else {
                assert(final(self)@ =~= old(self)@);
            }
        }
        ok
    }

    /// Applies one score or undo to the session's state. Legal exactly when
    /// the session exists and the index is a valid position in its game
    /// data's score-point table, whatever the clock state; an illegal score
    /// is rejected and changes nothing.
    pub fn score(&mut self, id: u32, team: Team, index: u8, undo: bool) -> (ok: bool)
        ensures
            ok == (old(self)@.contains_key(id) && (index as int)
                < old(self)@[id].game_data.score_points.len()),
            ok ==> final(self)@ == old(self)@.insert(
                id,
                SessionModel {
                    game_state: old(self)@[id].game_state.with_score(team, index, undo),
                    ..old(self)@[id]
                },
            ),
            !ok ==> final(self)@ == old(self)@,
    {
        let mut session = match self.sessions.remove(&id) {
            Some(s) => s,
            None => {
                proof {
                    assert(final(self)@ =~= old(self)@);
                }
                return false;
            },
        };
        let ok = (index as usize) < session.game_data.score_points.len();
        if ok {
            session.game_state.apply_score(team, index, undo);
        }
        let ghost sv = session@;
        self.sessions.insert(id, session);
        proof {
            if ok {
                assert(final(self)@ =~= old(self)@.insert(id, sv));
            } else {
                assert(final(self)@ =~= old(self)@);
            }
        }
        ok
    }
}

impl Default for SessionManager {
    fn default() -> (r: Self)
        ensures
            r@ == Map::<u32, SessionModel>::empty(),
    {
        SessionManager::new()
    }
}

} // verus!
