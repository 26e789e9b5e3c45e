//! Decision logic of a user (team-side) connection.
//!
//! A user connection is admitted only for a known session. It first receives
//! one session-info packet, then runs an egress half that translates user
//! channel notices into packets (a close notice ends it) and an ingress half
//! that validates decoded scoring requests — the clock must be running and
//! the score index within the game data's table — and forwards accepted
//! commands onto the host channel, tagged with the connection's team.

use vstd::prelude::*;

verus! {

use crate::channel::broadcast_send;
use crate::protocol::{
    ClientboundUserPacket, ClientboundUserPacketModel, ServerboundUserPacket, enc_cb_user,
    dec_sb_user, into_bytes,
};
use crate::session_manager::{HostMessage, SessionManager, Team, UserMessage};

/// The encoded session-info packet for a user that just connected: the
/// current started flag and a snapshot of the game data. An unknown session
/// identifier yields nothing, and the connection is rejected.
pub fn user_session_info(manager: &SessionManager, id: u32) -> (r: Option<Vec<u8>>)
    ensures
        match r {
            Some(bytes) => manager@.contains_key(id) && bytes@ == enc_cb_user(
                ClientboundUserPacketModel::SessionInfo(
                    manager@[id].game_state.time_started is Some,
                    manager@[id].game_data,
                ),
            ),
            None => !manager@.contains_key(id),
        },
{
    let session = match manager.get_session(id) {
        Some(s) => s,
        None => {
            return None;
        },
    };
    let started = session.game_state.time_started.is_some();
    let data = session.game_data.clone();
    Some(into_bytes(ClientboundUserPacket::SessionInfo(started, data)))
}

/// Translates one user-channel notice into the packet for the user socket.
/// A close notice yields nothing: the egress half ends.
pub fn user_egress_packet(message: UserMessage) -> (r: Option<Vec<u8>>)
    ensures
        match message {
            UserMessage::GameStart => r matches Some(bytes) && bytes@ == enc_cb_user(
                ClientboundUserPacketModel::StartGame,
            ),
            UserMessage::GameEnd => r matches Some(bytes) && bytes@ == enc_cb_user(
                ClientboundUserPacketModel::EndGame,
            ),
            UserMessage::Close => r is None,
        },
{
    match message {
        UserMessage::GameStart => Some(into_bytes(ClientboundUserPacket::StartGame)),
        UserMessage::GameEnd => Some(into_bytes(ClientboundUserPacket::EndGame)),
        UserMessage::Close => None,
    }
}

/// Whether a scoring action with this index may be forwarded now: the
/// session exists, its clock is currently started, and the index is a valid
/// position in the session's score-point table.
pub fn user_score_allowed(manager: &SessionManager, id: u32, index: u8) -> (r: bool)
    ensures
        r == (manager@.contains_key(id) && manager@[id].game_state.time_started is Some && (
        index as int) < manager@[id].game_data.score_points.len()),
{
    match manager.get_session(id) {
        Some(session) => session.game_state.time_started.is_some() && (index as usize)
            < session.game_data.score_points.len(),
        None => false,
    }
}

/// Handles one incoming message of a user connection: decodes the scoring
/// packet, validates it, and forwards the accepted command onto the host
/// channel tagged with the connection's team. `false` ends the ingress half:
/// a malformed packet, a stopped clock, an out-of-range index, an unknown
/// session, or a host channel without a subscriber.
pub fn user_handle_message(
    manager: &SessionManager,
    id: u32,
    team: Team,
    message: Vec<u8>,
) -> (accepted: bool)
    ensures
        accepted ==> (dec_sb_user(message@) matches Some(ServerboundUserPacket::Score {
            score_type,
            undo,
        }) && manager@.contains_key(id) && manager@[id].game_state.time_started is Some && (
        score_type as int) < manager@[id].game_data.score_points.len()),
        dec_sb_user(message@) is None ==> !accepted,
{
    let packet = match ServerboundUserPacket::decode(message) {
        Some(p) => p,
        None => {
            return false;
        },
    };
    match packet {
        ServerboundUserPacket::Score { score_type, undo } => {
            if !user_score_allowed(manager, id, score_type) {
                return false;
            }
            let session = match manager.get_session(id) {
                Some(s) => s,
                None => {
                    proof {
                        assert(false);
                    }
                    return false;
                },
            };
            broadcast_send(&session.host.sender, HostMessage::Score(team, score_type, undo))
        },
    }
}

} // verus!
