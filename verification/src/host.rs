//! Decision logic of a host connection.
//!
//! A host connection first negotiates the session's game data (the
//! handshake), then runs two halves: an ingress half that applies decoded
//! host commands to the session state and republishes derived events, and an
//! egress half that drains the host channel, applies relayed score commands
//! and encodes packets for the host socket. The surrounding application
//! drives the socket and the channel; every decision is made here.

use vstd::prelude::*;

verus! {

use crate::channel::broadcast_send;
use crate::game::{BuiltinGames, GameData, GameDataModel, GameStateModel};
use crate::packet::Either;
use crate::protocol::{
    ClientboundHostPacket, ClientboundHostPacketModel, ServerboundHostPacket,
    ServerboundHostPacketModel, enc_cb_host, dec_sb_host, from_bytes, into_bytes,
};
use crate::session_manager::{
    SessionManager, SessionModel, Team, UserMessage, ViewerMessage,
};

/// Whether a connection half goes on after handling one event, or the whole
/// connection is torn down.
#[derive(Clone, Copy, Debug, PartialEq, Eq, Structural)]
pub enum HostStep {
    Proceed,
    Terminate,
}

/// The game data a decoded sum-typed game reference stands for: the
/// referenced catalog entry's data, or the inline payload itself.
pub open spec fn spec_resolve_choice(
    game_type: Either<usize, GameDataModel>,
    games: Seq<crate::game::BuiltinGame>,
) -> GameDataModel {
    match game_type {
        Either::Left(index) => games[index as int].data@,
        Either::Right(data) => data,
    }
}

/// Handles the host's initial game-selection packet: decodes it, resolves
/// the referenced or inline game data, creates the session (an existing
/// session with this identifier is kept, first writer wins) and returns the
/// encoded session-info reply for the host socket. Any other packet, or a
/// malformed one, is refused and leaves the registry untouched.
pub fn host_handshake(
    manager: &mut SessionManager,
    id: u32,
    message: Vec<u8>,
    builtin: &BuiltinGames,
) -> (r: Option<Vec<u8>>)
    ensures
        match dec_sb_host(message@, builtin.games@.len() as int) {
            Some(m) => match m {
                ServerboundHostPacketModel::GameData { game_type } => {
                    &&& r matches Some(bytes) && bytes@ == enc_cb_host(
                        ClientboundHostPacketModel::SessionInfo(
                            id,
                            spec_resolve_choice(game_type, builtin.games@),
                        ),
                    )
                    &&& final(manager)@ == if old(manager)@.contains_key(id) {
                        old(manager)@
                    } else {
                        old(manager)@.insert(
                            id,
                            SessionModel {
                                game_data: spec_resolve_choice(game_type, builtin.games@),
                                game_state: GameStateModel::init(),
                            },
                        )
                    }
                },
                _ => r is None && final(manager)@ == old(manager)@,
            },
            None => r is None && final(manager)@ == old(manager)@,
        },
{
    let packet: ServerboundHostPacket = match from_bytes(message, builtin) {
        Some(p) => p,
        None => {
            return None;
        },
    };
    match packet {
        ServerboundHostPacket::GameData { game_type } => {
            let game_data: GameData = match game_type {
                Either::Left(index) => {
                    match builtin.lookup_by_index(index) {
                        Some(game) => game.data.clone(),
                        None => {
                            proof {
                                assert(false);
                            }
                            return None;
                        },
                    }
                },
                Either::Right(data) => data,
            };
            let reply = into_bytes(ClientboundHostPacket::SessionInfo(id, game_data.clone()));
            manager.new_session(id, game_data);
            Some(reply)
        },
        _ => None,
    }
}

/// Applies one decoded host command to the session: enforces the
/// state-transition rules, republishes the derived event to the viewer
/// channel and, for start and end, the lifecycle notice to the user channel.
/// A violated transition rule or an unknown session changes nothing and
/// terminates the connection; a mid-session game-selection packet is
/// ignored.
pub fn host_handle_packet(
    manager: &mut SessionManager,
    id: u32,
    packet: ServerboundHostPacket,
) -> (r: HostStep)
    ensures
        match packet@ {
            ServerboundHostPacketModel::StartGame { time_started } => {
                if old(manager)@.contains_key(id) && old(
                    manager,
                )@[id].game_state.start_allowed() {
                    final(manager)@ == old(manager)@.insert(
                        id,
                        SessionModel {
                            game_state: old(manager)@[id].game_state.with_start(time_started),
                            ..old(manager)@[id]
                        },
                    )
                } else {
                    r == HostStep::Terminate && final(manager)@ == old(manager)@
                }
            },
            ServerboundHostPacketModel::EndGame => {
                if old(manager)@.contains_key(id) && old(manager)@[id].game_state.end_allowed() {
                    final(manager)@ == old(manager)@.insert(
                        id,
                        SessionModel {
                            game_state: old(manager)@[id].game_state.with_end(),
                            ..old(manager)@[id]
                        },
                    )
                } else {
                    r == HostStep::Terminate && final(manager)@ == old(manager)@
                }
            },
            ServerboundHostPacketModel::PauseGame => {
                if old(manager)@.contains_key(id) && old(manager)@[id].game_state.pause_allowed() {
                    r == HostStep::Proceed && final(manager)@ == old(manager)@.insert(
                        id,
                        SessionModel {
                            game_state: old(manager)@[id].game_state.with_pause(),
                            ..old(manager)@[id]
                        },
                    )
                } else {
                    r == HostStep::Terminate && final(manager)@ == old(manager)@
                }
            },
            ServerboundHostPacketModel::UnpauseGame { time_paused } => {
                if old(manager)@.contains_key(id) && old(
                    manager,
                )@[id].game_state.unpause_allowed() {
                    r == HostStep::Proceed && final(manager)@ == old(manager)@.insert(
                        id,
                        SessionModel {
                            game_state: old(manager)@[id].game_state.with_unpause(time_paused),
                            ..old(manager)@[id]
                        },
                    )
                } else {
                    r == HostStep::Terminate && final(manager)@ == old(manager)@
                }
            },
            ServerboundHostPacketModel::GameData { .. } => {
                r == HostStep::Proceed && final(manager)@ == old(manager)@
            },
        },
{
    match packet {
        ServerboundHostPacket::StartGame { time_started } => {
            if !manager.start_game(id, time_started) {
                return HostStep::Terminate;
            }
            let session = match manager.get_session(id) {
                Some(s) => s,
                None => {
                    proof {
                        assert(false);
                    }
                    return HostStep::Terminate;
                },
            };
            broadcast_send(&session.viewer.sender, ViewerMessage::GameStart(time_started));
            if broadcast_send(&session.user.sender, UserMessage::GameStart) {
                HostStep::Proceed
            } else {
                HostStep::Terminate
            }
        },
        ServerboundHostPacket::EndGame => {
            if !manager.end_game(id) {
                return HostStep::Terminate;
            }
            let session = match manager.get_session(id) {
                Some(s) => s,
                None => {
                    proof {
                        assert(false);
                    }
                    return HostStep::Terminate;
                },
            };
            broadcast_send(&session.viewer.sender, ViewerMessage::GameEnd);
            if broadcast_send(&session.user.sender, UserMessage::GameEnd) {
                HostStep::Proceed
            } else {
                HostStep::Terminate
            }
        },
        ServerboundHostPacket::PauseGame => {
            if !manager.pause_game(id) {
                return HostStep::Terminate;
            }
            let session = match manager.get_session(id) {
                Some(s) => s,
                None => {
                    proof {
                        assert(false);
                    }
                    return HostStep::Terminate;
                },
            };
            broadcast_send(&session.viewer.sender, ViewerMessage::GamePause);
            HostStep::Proceed
        },
        ServerboundHostPacket::UnpauseGame { time_paused } => {
            if !manager.unpause_game(id, time_paused) {
                return HostStep::Terminate;
            }
            let session = match manager.get_session(id) {
                Some(s) => s,
                None => {
                    proof {
                        assert(false);
                    }
                    return HostStep::Terminate;
                },
            };
            broadcast_send(&session.viewer.sender, ViewerMessage::GameUnpause(time_paused));
            HostStep::Proceed
        },
        ServerboundHostPacket::GameData { .. } => HostStep::Proceed,
    }
}

/// Applies one relayed score command from the host channel: records the
/// score in the session state, republishes the derived event to the viewer
/// channel and returns the encoded score packet for the host socket. An
/// unknown session or an out-of-range index changes nothing and yields
/// nothing, which terminates the connection.
pub fn host_relay_score(
    manager: &mut SessionManager,
    id: u32,
    team: Team,
    index: u8,
    undo: bool,
) -> (r: Option<Vec<u8>>)
    ensures
        if old(manager)@.contains_key(id) && (index as int)
            < old(manager)@[id].game_data.score_points.len() {
            &&& final(manager)@ == old(manager)@.insert(
                id,
                SessionModel {
                    game_state: old(manager)@[id].game_state.with_score(team, index, undo),
                    ..old(manager)@[id]
                },
            )
            &&& r matches Some(bytes) ==> bytes@ == enc_cb_host(
                ClientboundHostPacketModel::Score(team, index, undo),
            )
        } else {
            r is None && final(manager)@ == old(manager)@
        },
{
    if !manager.score(id, team, index, undo) {
        return None;
    }
    let session = match manager.get_session(id) {
        Some(s) => s,
        None => {
            proof {
                assert(false);
            }
            return None;
        },
    };
    if broadcast_send(&session.viewer.sender, ViewerMessage::Score(team, index, undo)) {
        Some(into_bytes(ClientboundHostPacket::Score(team, index, undo)))
    } else {
        None
    }
}

} // verus!
