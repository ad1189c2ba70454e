//! The events that the bridge hands to the consumer, each with the handle
//! through which the consumer answers it once.

use crate::error::{ApiError, MyError, MyResult};
use futures::channel::mpsc;
use futures::channel::oneshot;
use vstd::prelude::*;

verus! {

/// The handle through which the consumer answers one event. It is used up
/// by the answer. Dropped without one, it lets the caller see `Canceled`.
#[verifier::reject_recursive_types(T)]
pub struct EventResponse<T>(pub oneshot::Sender<MyResult<T>>);

/// The caller's end of a reply. What `EventResponse` answers arrives at
/// `slot`; the caller waits on it, and hands what came out to `resolve`.
///
/// The reply to an `Unload` event also keeps the sending end of the queue
/// that the event went into, so that the queue is given up only when the
/// reply is resolved or dropped: behind the consumer's answer, not before.
#[verifier::reject_recursive_types(T)]
pub struct Reply<T> {
    pub slot: oneshot::Receiver<MyResult<T>>,
    hold: Option<EventSender>,
}

/// A new instance begins.
pub struct Load {
    /// The host's handle of this module.
    pub hinst: usize,
    /// The directory that the instance is loaded from.
    pub load_dir: String,
    pub res: EventResponse<()>,
}

/// The instance ends.
pub struct Unload {
    pub res: EventResponse<()>,
}

/// A request of the host, as the text that it sent.
pub struct Request {
    pub req: String,
    pub res: EventResponse<String>,
}

/// What the consumer is handed, one after the other.
pub enum Event {
    Load(Load),
    Unload(Unload),
    Request(Request),
}

/// An event over plain values: what it says, without the handle for the
/// answer.
pub enum EventView {
    Load { hinst: usize, load_dir: Seq<char> },
    Unload,
    Request { req: Seq<char> },
}

impl View for Event {
    type V = EventView;

    open spec fn view(&self) -> EventView {
        match self {
            Event::Load(load) => EventView::Load { hinst: load.hinst, load_dir: load.load_dir@ },
            Event::Unload(_) => EventView::Unload,
            Event::Request(request) => EventView::Request { req: request.req@ },
        }
    }
}

/// The bridge's end of the event queue.
pub type EventSender = mpsc::Sender<Event>;

/// The consumer's end of the event queue.
pub type EventReceiver = mpsc::Receiver<Event>;

/// The events that `sender` has put into its queue since the queue was
/// made, oldest first. This is not what waits in the queue: the consumer
/// takes events out at its own pace, in this order.
pub uninterp spec fn queued(sender: EventSender) -> Seq<EventView>;

/// `futures::channel::mpsc::channel` for events: a new bounded queue, with
/// the end that puts events in, which has put in none yet, and the end
/// that takes them out. It refuses a buffer of a quarter of `usize::MAX` or
/// more.
#[verifier::external_body]
pub(crate) fn event_queue(buffer: usize) -> (ends: (EventSender, EventReceiver))
    requires
        buffer < usize::MAX / 4,
    ensures
        queued(ends.0) == Seq::<EventView>::empty(),
{
    mpsc::channel::<Event>(buffer)
}

/// `futures::channel::mpsc::Sender::try_send` for events: puts the event
/// into the queue without waiting and succeeds, or puts nothing in and
/// hands the event back in the error, where the queue is full or the
/// consumer's end is gone. Which of the two happens is not claimed.
#[verifier::external_body]
pub(crate) fn queue_event(sender: &mut EventSender, event: Event) -> (r: Result<
    (),
    mpsc::TrySendError<Event>,
>)
    ensures
        queued(*final(sender)) == if r is Ok {
            queued(*old(sender)).push(event@)
        } else {
            queued(*old(sender))
        },
{
    sender.try_send(event)
}

/// What the caller gets for what came out of a reply slot: the consumer's
/// answer, or `Canceled` where the consumer dropped the handle.
pub fn replied<T>(outcome: Result<MyResult<T>, oneshot::Canceled>) -> (r: MyResult<T>)
    ensures
        match outcome {
            Ok(answer) => r == answer,
            Err(_) => r == Err::<T, MyError>(MyError::Api(ApiError::Canceled)),
        },
{
    match outcome {
        Ok(answer) => answer,
        Err(_) => Err(MyError::Api(ApiError::Canceled)),
    }
}

/// What the consumer gets for its attempt to answer: success, or
/// `Canceled` where the caller no longer waits.
pub fn answered<T>(outcome: Result<(), MyResult<T>>) -> (r: MyResult<()>)
    ensures
        match outcome {
            Ok(_) => r == Ok::<(), MyError>(()),
            Err(_) => r == Err::<(), MyError>(MyError::Api(ApiError::Canceled)),
        },
{
    match outcome {
        Ok(_) => Ok(()),
        Err(_) => Err(MyError::Api(ApiError::Canceled)),
    }
}

/// What was put into the queue of `sender`, if there is a sender.
pub open spec fn queued_of(sender: Option<EventSender>) -> Option<Seq<EventView>> {
    match sender {
        Some(sender) => Some(queued(sender)),
        None => None,
    }
}

/// A fresh reply slot: the handle for the consumer and the end for the
/// caller, which keeps no queue.
pub fn reply_slot<T>() -> (r: (EventResponse<T>, Reply<T>))
    ensures
        r.1.held() is None,
{
    let (tx, rx) = oneshot::channel::<MyResult<T>>();
    (EventResponse(tx), Reply { slot: rx, hold: None })
}

impl<T> EventResponse<T> {
    /// Answers the event. Fails with `Canceled`, and with nothing else,
    /// where the caller no longer waits.
    pub fn send(self, item: MyResult<T>) -> (r: MyResult<()>)
        ensures
            r matches Err(e) ==> e == MyError::Api(ApiError::Canceled),
    {
        answered(self.0.send(item))
    }
}

impl<T> Reply<T> {
    /// What was put into the queue that this reply keeps, if it keeps one.
    pub closed spec fn held(&self) -> Option<Seq<EventView>> {
        queued_of(self.hold)
    }

    /// The slot at which the answer arrives.
    pub closed spec fn waits_on(&self) -> oneshot::Receiver<MyResult<T>> {
        self.slot
    }

    /// This reply, keeping `sender` from here on.
    pub(crate) fn holding(self, sender: Option<EventSender>) -> (r: Reply<T>)
        ensures
            r.held() == queued_of(sender),
            r.waits_on() == self.waits_on(),
    {
        Reply { slot: self.slot, hold: sender }
    }

    /// Takes what came out of the slot and gives the caller's result: the
    /// consumer's answer, or `Canceled` where the consumer dropped the
    /// handle. The reply is used up, and the queue that it kept is given up
    /// with it.
    pub fn resolve(self, outcome: Result<MyResult<T>, oneshot::Canceled>) -> (r: MyResult<T>)
        ensures
            match outcome {
                Ok(answer) => r == answer,
                Err(_) => r == Err::<T, MyError>(MyError::Api(ApiError::Canceled)),
            },
    {
        replied(outcome)
    }
}

} // verus!
