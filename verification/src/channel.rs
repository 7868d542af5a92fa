//! Trusted bindings to std's mpsc channels, which carry outbound chat
//! messages and bus events between the connection tasks and the UI loop.
//! Delivery order and blocking behaviour are the channel's own business;
//! nothing about the channel's contents can be promised here, only how a
//! send reports the receiver's death.

use vstd::prelude::*;

verus! {

#[verifier::external_type_specification]
#[verifier::external_body]
#[verifier::reject_recursive_types(T)]
pub struct ExSender<T>(std::sync::mpsc::Sender<T>);

/// Relies on `std::sync::mpsc::Sender::send`: queues the value, and fails
/// exactly when the receiving end has been dropped.
#[verifier::external_body]
pub fn send_string(tx: &std::sync::mpsc::Sender<String>, m: String) -> (ok: bool) {
    tx.send(m).is_ok()
}

/// Relies on `std::sync::mpsc::Sender::clone`: another handle to the same
/// queue.
#[verifier::external_body]
pub fn clone_sender(tx: &std::sync::mpsc::Sender<String>) -> (r: std::sync::mpsc::Sender<String>) {
    tx.clone()
}

} // verus!
