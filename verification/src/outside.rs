//! The calls that leave this crate: the clock, the source and the text of
//! random identifiers, and the wake-up channel of a simulated instance.
//!
//! Nothing here is proved.  Each function states what its outside
//! counterpart is documented to do, and the rest of the crate is verified
//! against those statements.

use crate::id::spec_id_text;
use crate::model::Timestamp;
use futures::channel::mpsc::Receiver;
use futures::channel::mpsc::Sender;
use std::sync::Arc;
use vstd::prelude::*;

verus! {

/// `futures::channel::mpsc::Sender`, the sending half of a bounded channel.
#[verifier::external_type_specification]
#[verifier::external_body]
#[verifier::reject_recursive_types(T)]
pub struct ExSender<T>(Sender<T>);

/// `futures::channel::mpsc::Receiver`, the receiving half of a bounded
/// channel.
#[verifier::external_type_specification]
#[verifier::external_body]
#[verifier::reject_recursive_types(T)]
pub struct ExReceiver<T>(Receiver<T>);

/// What became of an attempt to wake the task behind a channel.
#[derive(Clone, Copy, Debug, PartialEq, Eq, Structural)]
pub enum NotifyOutcome {
    /// The message was queued.
    Sent,
    /// The channel had no room: a wake-up is already pending.
    Full,
    /// The receiving half is gone.
    Disconnected,
}

/// Whether `id` carries the version and variant bits of a random
/// (version 4) UUID.
pub open spec fn is_random_uuid(id: u128) -> bool {
    id & 0xf000_c000_0000_0000_0000u128 == 0x4000_8000_0000_0000_0000u128
}

/// The current time, from `chrono::Utc::now`, as seconds and nanoseconds
/// since the Unix epoch.  Nothing is claimed of the value: two calls may even
/// go backwards when the system clock is set.  The call relies on a system
/// clock that is not set before 1970.
#[verifier::external_body]
pub(crate) fn now() -> Timestamp {
    let t = chrono::Utc::now();
    Timestamp { secs: t.timestamp(), nanos: t.timestamp_subsec_nanos() }
}

/// A fresh identifier from `uuid::Uuid::new_v4`, packed big-endian into a
/// `u128` as `Uuid::as_u128` does.  The value is random but for the six bits
/// that mark it as a version 4 UUID.
#[verifier::external_body]
pub(crate) fn random_id() -> (id: u128)
    ensures
        is_random_uuid(id),
{
    uuid::Uuid::new_v4().as_u128()
}

/// The text of the UUID that `Uuid::from_u128` makes of `id`, as the
/// `Display` of `uuid::Uuid` writes it: the 32 hexadecimal digits of `id` in
/// lower case, most significant first, in hyphenated groups of 8, 4, 4, 4
/// and 12.
#[verifier::external_body]
pub(crate) fn uuid_text(id: u128) -> (text: String)
    ensures
        text@ == spec_id_text(id),
{
    uuid::Uuid::from_u128(id).to_string()
}

/// A new channel from `futures::channel::mpsc::channel`, which accepts
/// `buffer` messages plus one for its only sender before it reports itself
/// full.  The outside function refuses a `buffer` of a quarter of the address
/// space or more.
#[verifier::external_body]
pub(crate) fn wake_channel(buffer: usize) -> (r: (Sender<()>, Receiver<()>))
    requires
        buffer < usize::MAX / 4,
{
    futures::channel::mpsc::channel(buffer)
}

/// One `Sender::try_send` of the unit message, with its error told apart by
/// `TrySendError::is_disconnected`.  The outcome depends on what the
/// receiving side has done, so nothing is claimed of it.
#[verifier::external_body]
pub(crate) fn try_notify(tx: &mut Sender<()>) -> (r: NotifyOutcome) {
    match tx.try_send(()) {
        Ok(()) => NotifyOutcome::Sent,
        Err(e) => if e.is_disconnected() {
            NotifyOutcome::Disconnected
        } else {
            NotifyOutcome::Full
        },
    }
}

/// `Sender::close_channel`: no message can be sent on the channel any more,
/// and the receiver sees its end once it has drained what was queued.
#[verifier::external_body]
pub(crate) fn close_wake_channel(tx: &mut Sender<()>) {
    tx.close_channel();
}

/// `String::push`: the character is appended to the text.
#[verifier::external_body]
pub(crate) fn push_char(text: &mut String, c: char)
    ensures
        final(text)@ == old(text)@.push(c),
{
    text.push(c);
}

/// `Arc::clone`: another handle on the value that `handle` holds.
#[verifier::external_body]
pub(crate) fn share<T>(handle: &Arc<T>) -> (r: Arc<T>)
    ensures
        *r == **handle,
{
    Arc::clone(handle)
}

} // verus!
