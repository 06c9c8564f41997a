use vstd::prelude::*;

use tokio::sync::mpsc::UnboundedReceiver;
use tokio::sync::mpsc::UnboundedSender;

verus! {

#[verifier::external_type_specification]
#[verifier::external_body]
#[verifier::reject_recursive_types(T)]
pub struct ExUnboundedSender<T>(UnboundedSender<T>);

#[verifier::external_type_specification]
#[verifier::external_body]
#[verifier::reject_recursive_types(T)]
pub struct ExUnboundedReceiver<T>(UnboundedReceiver<T>);

/// What has been enqueued on the channel through this send half, oldest
/// first. The receive half yields exactly these values in this order.
pub uninterp spec fn sent(tx: UnboundedSender<String>) -> Seq<Seq<char>>;

/// Whether `rx` is the receive half of the channel that `tx` sends into.
pub uninterp spec fn paired(tx: UnboundedSender<String>, rx: UnboundedReceiver<String>) -> bool;

/// Whether the receive half is still open. Nothing in this library closes a
/// receive half, so this holds of every receiver the library handles.
pub uninterp spec fn receiver_open(rx: UnboundedReceiver<String>) -> bool;

/// Whether the receive half of the channel that `tx` sends into has been
/// closed or dropped. In tokio that is permanent, so the mark never comes
/// off a channel: a send that failed proves it.
pub uninterp spec fn closed(tx: UnboundedSender<String>) -> bool;

/// Relies on tokio::sync::mpsc::unbounded_channel: returns a connected
/// sender/receiver pair over an unbounded queue, with nothing enqueued yet
/// and the receive half open.
#[verifier::external_body]
pub(crate) fn unbounded_message_channel() -> (r: (
    UnboundedSender<String>,
    UnboundedReceiver<String>,
))
    ensures
        sent(r.0) == Seq::<Seq<char>>::empty(),
        paired(r.0, r.1),
        receiver_open(r.1),
{
    tokio::sync::mpsc::unbounded_channel()
}

/// Relies on tokio::sync::mpsc::UnboundedSender::send: enqueues without
/// blocking and fails exactly when the receive half has been closed or
/// dropped. Whether that is so depends on the consumer, so the result says
/// only: enqueued on success, unchanged and provably closed on failure.
/// Closedness is permanent, so an already closed channel stays marked.
#[verifier::external_body]
pub(crate) fn send_line(tx: UnboundedSender<String>, message: String) -> (r: (
    UnboundedSender<String>,
    bool,
))
    ensures
        r.1 ==> sent(r.0) == sent(tx).push(message@),
        !r.1 ==> sent(r.0) == sent(tx) && closed(r.0),
        closed(tx) ==> closed(r.0),
{
    let ok = tx.send(message).is_ok();
    (tx, ok)
}

/// Relies on tokio::sync::mpsc::UnboundedSender::send: a send succeeds as
/// long as the receive half has not been closed or dropped. The caller
/// presents that receive half, alive, so the message is enqueued.
#[verifier::external_body]
pub(crate) fn send_connected(
    tx: UnboundedSender<String>,
    rx: &UnboundedReceiver<String>,
    message: String,
) -> (r: UnboundedSender<String>)
    requires
        paired(tx, *rx),
        receiver_open(*rx),
    ensures
        sent(r) == sent(tx).push(message@),
        paired(r, *rx),
{
    let _ = tx.send(message);
    tx
}

} // verus!
