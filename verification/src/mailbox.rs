//! Trusted bridge to the tokio unbounded channel that backs each user's
//! mailbox.
//!
//! The registry holds one sender handle per user and enqueues outgoing
//! messages through it; the owning connection handler holds the receiving
//! half and drains it to the socket.  Enqueueing never blocks.  Everything
//! here is declared, not proved: the contracts record only what tokio's own
//! source shows.

use vstd::prelude::*;
use crate::messages::OutgoingMsg;

verus! {

/// tokio's unbounded channel sender, declared so that library types can
/// hold one.  The value is opaque to the proofs.
#[verifier::external_type_specification]
#[verifier::external_body]
#[verifier::reject_recursive_types(T)]
pub struct ExUnboundedSender<T>(tokio::sync::mpsc::UnboundedSender<T>);

/// Relies on `tokio::sync::mpsc::UnboundedSender::clone`: a second handle
/// that enqueues to the same queue.
pub assume_specification<T>[ <tokio::sync::mpsc::UnboundedSender<T> as Clone>::clone ](
    sender: &tokio::sync::mpsc::UnboundedSender<T>,
) -> tokio::sync::mpsc::UnboundedSender<T>;

/// Relies on `tokio::sync::mpsc::UnboundedSender::send`: enqueues without
/// blocking and fails exactly when the receiving half has been dropped.
/// Whether the receiver is still open depends on the peer connection, so
/// nothing is promised of the result.
#[verifier::external_body]
pub(crate) fn mailbox_send(
    sender: &tokio::sync::mpsc::UnboundedSender<OutgoingMsg>,
    message: OutgoingMsg,
) -> (r: Result<(), String>) {
    match sender.send(message) {
        Ok(()) => Ok(()),
        Err(e) => Err(e.to_string()),
    }
}

} // verus!
