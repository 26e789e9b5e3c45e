//! The broadcast primitive behind the role channels: tokio's multi-subscriber
//! broadcast channel with a bounded ring buffer that drops the oldest unread
//! entry for a subscriber that falls behind.
//!
//! These are the trusted declarations and wrappers for that outside
//! primitive; everything else in the crate is verified against them.

use vstd::prelude::*;

verus! {

#[verifier::external_type_specification]
#[verifier::external_body]
#[verifier::reject_recursive_types(T)]
pub struct ExSender<T>(tokio::sync::broadcast::Sender<T>);

#[verifier::external_type_specification]
#[verifier::external_body]
#[verifier::reject_recursive_types(T)]
pub struct ExReceiver<T>(tokio::sync::broadcast::Receiver<T>);

/// Relies on tokio's `broadcast::channel`: returns a linked sender/receiver
/// pair whose ring buffer holds `capacity` messages. The call panics when
/// the capacity is zero or above half the address space, so those
/// capacities are excluded here.
#[verifier::external_body]
pub(crate) fn broadcast_channel<T: Clone>(capacity: usize) -> (
    tokio::sync::broadcast::Sender<T>,
    tokio::sync::broadcast::Receiver<T>,
)
    requires
        1 <= capacity <= usize::MAX / 2,
{
    tokio::sync::broadcast::channel(capacity)
}

/// Relies on tokio's broadcast `Sender::send`: hands the message to every
/// currently subscribed receiver without blocking (a full subscriber buffer
/// drops its oldest unread entry), and fails exactly when no receiver
/// exists at the moment of the call.
#[verifier::external_body]
pub(crate) fn broadcast_send<T>(sender: &tokio::sync::broadcast::Sender<T>, message: T) -> bool {
    sender.send(message).is_ok()
}

} // verus!
