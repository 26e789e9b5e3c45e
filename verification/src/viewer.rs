//! Decision logic of a viewer (spectator) connection.
//!
//! A viewer is read-only: on attach it captures a snapshot of the session's
//! game data and state, which the surrounding application emits as the first
//! event of its push stream before forwarding viewer-channel events. An
//! unknown session identifier rejects the subscription.

use vstd::prelude::*;

verus! {

use crate::game::{GameData, GameState};
use crate::session_manager::SessionManager;

/// The snapshot a newly attached viewer starts from: the session's game data
/// and its current game state. An unknown session yields nothing.
pub fn viewer_snapshot(manager: &SessionManager, id: u32) -> (r: Option<(GameData, GameState)>)
    ensures
        match r {
            Some(snapshot) => {
                &&& manager@.contains_key(id)
                &&& snapshot.0@ == manager@[id].game_data
                &&& snapshot.1@ == manager@[id].game_state
            },
            None => !manager@.contains_key(id),
        },
{
    match manager.get_session(id) {
        Some(session) => Some((session.game_data.clone(), session.game_state.clone())),
        None => None,
    }
}

} // verus!
