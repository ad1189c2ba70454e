//! The channels of the `futures` crate that carry events to the consumer
//! and replies back: their types, and the slot for one reply. Nothing here
//! is proved: what a channel does is decided by the tasks at its other end.
//! Waiting on a slot is left to the caller of the library.

use futures::channel::mpsc;
use futures::channel::oneshot;
use vstd::prelude::*;

verus! {

/// `futures::channel::mpsc::Sender`: the end of a bounded queue that puts
/// messages in. Nothing of its inside is known here.
#[verifier::external_type_specification]
#[verifier::external_body]
#[verifier::reject_recursive_types(T)]
pub struct ExMpscSender<T>(mpsc::Sender<T>);

/// `futures::channel::mpsc::Receiver`: the end of a bounded queue that
/// takes messages out. Nothing of its inside is known here.
#[verifier::external_type_specification]
#[verifier::external_body]
#[verifier::reject_recursive_types(T)]
pub struct ExMpscReceiver<T>(mpsc::Receiver<T>);

/// `futures::channel::mpsc::TrySendError`: why a message was not queued,
/// with the message. Nothing of its inside is known here.
#[verifier::external_type_specification]
#[verifier::external_body]
#[verifier::reject_recursive_types(T)]
pub struct ExTrySendError<T>(mpsc::TrySendError<T>);

/// `futures::channel::oneshot::Sender`: the end of a slot that fills it.
/// Nothing of its inside is known here.
#[verifier::external_type_specification]
#[verifier::external_body]
#[verifier::reject_recursive_types(T)]
pub struct ExOneshotSender<T>(oneshot::Sender<T>);

/// `futures::channel::oneshot::Receiver`: the end of a slot that waits for
/// the value. Nothing of its inside is known here.
#[verifier::external_type_specification]
#[verifier::external_body]
#[verifier::reject_recursive_types(T)]
pub struct ExOneshotReceiver<T>(oneshot::Receiver<T>);

/// `futures::channel::oneshot::Canceled`: the filling end of a slot was
/// dropped before it filled the slot.
#[verifier::external_type_specification]
#[verifier::external_body]
pub struct ExCanceled(oneshot::Canceled);

/// `futures::channel::oneshot::channel`: a slot for one value, with the end
/// that fills it and the end that waits for it. Nothing is claimed of them.
pub assume_specification<T>[ oneshot::channel::<T> ]() -> (ends: (
    oneshot::Sender<T>,
    oneshot::Receiver<T>,
))
;

/// `futures::channel::oneshot::Sender::send`: fills the slot. Where the
/// waiting end is gone it fails, and the error is the value that was to be
/// sent.
pub assume_specification<T>[ oneshot::Sender::<T>::send ](sender: oneshot::Sender<T>, t: T) -> (r:
    Result<(), T>)
    ensures
        r matches Err(back) ==> back == t,
;

} // verus!
