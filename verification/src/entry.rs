//! The entry of the host's calls, and the way of a call to the consumer.
//! `RawEntry` is loaded while it holds the sending end of an event queue.
//! A call queues one event and hands back the reply to wait on; the wait
//! itself is the caller's, and what came out of it goes to `Reply::resolve`
//! and, for a `Load` event, to `load_answer`. What a call does to the life
//! of the instance is what `lifecycle` says of its step.

use crate::error::{ApiError, MyError, MyResult};
use crate::event::{
    event_queue, queue_event, queued, queued_of, reply_slot, Event, EventReceiver, EventSender,
    EventView, Load, Reply, Request, Unload,
};
use crate::lifecycle::{after, refusal, Lifecycle, Step};
use futures::channel::mpsc;
use vstd::prelude::*;

verus! {

/// The process is about to unload the module.
pub const DLL_PROCESS_DETACH: u32 = 0;

/// The process has loaded the module.
pub const DLL_PROCESS_ATTACH: u32 = 1;

/// A thread of the process has started.
pub const DLL_THREAD_ATTACH: u32 = 2;

/// A thread of the process has ended.
pub const DLL_THREAD_DETACH: u32 = 3;

/// How many events the queue buffers besides the one slot that the sender
/// has for itself.
pub const EVENT_BUFFER: usize = 16;

/// What a successful `load` hands over.
pub struct Instance {
    /// The consumer's end of the event queue. The `Load` event is in it.
    pub events: EventReceiver,
    /// Where the consumer's answer to the `Load` event arrives.
    pub reply: Reply<()>,
    /// The end of the instance that was loaded before, if one was: the
    /// reply to its `Unload` event, or why that event was not queued.
    pub replaced: Option<MyResult<Reply<()>>>,
}

/// The life of the instance and the host's handle of the module. Every
/// call takes the entry for itself, so calls come one after the other; a
/// host that calls from several threads keeps the entry behind a lock.
pub struct RawEntry {
    h_inst: usize,
    event_sender: Option<EventSender>,
    ended: Ghost<Seq<EventView>>,
}

/// What a call gets for its attempt to queue an event: success, or
/// `SendFailed` where the queue was full or the consumer gone.
pub fn sent(outcome: Result<(), mpsc::TrySendError<Event>>) -> (r: MyResult<()>)
    ensures
        match outcome {
            Ok(_) => r == Ok::<(), MyError>(()),
            Err(_) => r == Err::<(), MyError>(MyError::Api(ApiError::SendFailed)),
        },
{
    match outcome {
        Ok(_) => Ok(()),
        Err(_) => Err(MyError::Api(ApiError::SendFailed)),
    }
}

/// `r` is the failure of a call that did not get its event into the queue:
/// `NotLoaded` where nothing is loaded, `SendFailed` where an instance is.
pub open spec fn not_queued<T>(state: Lifecycle, r: MyResult<T>) -> bool {
    r == Err::<T, MyError>(
        MyError::Api(
            if state == Lifecycle::Unloaded {
                ApiError::NotLoaded
            } else {
                ApiError::SendFailed
            },
        ),
    )
}

/// The events of the requests `reqs`, in their order.
pub open spec fn request_events(reqs: Seq<Seq<char>>) -> Seq<EventView> {
    Seq::new(reqs.len(), |i: int| EventView::Request { req: reqs[i] })
}

/// Requests that are submitted one after the other and get into the queue
/// stand in the queue in the order of their submission, behind what was
/// queued before. `queues[i]` is what was queued before the request
/// `reqs[i]` was submitted, and `queues[i + 1]` what was queued after.
pub proof fn lemma_submission_order(queues: Seq<Seq<EventView>>, reqs: Seq<Seq<char>>)
    requires
        queues.len() == reqs.len() + 1,
        forall|i: int|
            0 <= i < reqs.len() ==> #[trigger] queues[i + 1] == queues[i].push(
                EventView::Request { req: reqs[i] },
            ),
    ensures
        queues.last() == queues[0] + request_events(reqs),
    decreases reqs.len(),
{
    if reqs.len() == 0 {
        assert(queues[0] + request_events(reqs) =~= queues[0]);
    } else {
        let n = reqs.len() - 1;
        lemma_submission_order(queues.drop_last(), reqs.drop_last());
        assert(queues[n + 1] == queues[n].push(EventView::Request { req: reqs[n] }));
        assert(queues.drop_last().last() == queues[n]);
        assert(queues[0] + request_events(reqs) =~= (queues[0] + request_events(
            reqs.drop_last(),
        )).push(EventView::Request { req: reqs[n] }));
    }
}

/// What beginning an instance does to the queue that was there: where an
/// instance was loaded, its queue is given up, with the one `Unload` event
/// behind all that was queued before, or, where that event could not be
/// queued, with what was queued before; where none was loaded, the record
/// of the queue given up last stays.
pub open spec fn replaces(
    state: Lifecycle,
    queued: Seq<EventView>,
    ended_before: Seq<EventView>,
    ended: Seq<EventView>,
) -> bool {
    if state == Lifecycle::Loaded {
        ended == queued.push(EventView::Unload) || ended == queued
    } else {
        ended == ended_before
    }
}

/// `replaced` is the end of the instance that was there before a new one
/// began: none where nothing was loaded; else the reply to the `Unload`
/// event, which keeps the queue that was given up, where that event was
/// queued, and `SendFailed` where it was not.
pub open spec fn replaced_by(
    state: Lifecycle,
    queued: Seq<EventView>,
    ended: Seq<EventView>,
    replaced: Option<MyResult<Reply<()>>>,
) -> bool {
    match replaced {
        None => state == Lifecycle::Unloaded,
        Some(Ok(reply)) => state == Lifecycle::Loaded && ended == queued.push(EventView::Unload)
            && reply.held() == Some(ended),
        Some(Err(e)) => state == Lifecycle::Loaded && ended == queued && e == MyError::Api(
            ApiError::SendFailed,
        ),
    }
}

/// What the host is told of a call that ended: true exactly where it went
/// well.
pub fn went_well<T>(outcome: &MyResult<T>) -> (r: bool)
    ensures
        r == (outcome is Ok),
{
    outcome.is_ok()
}

impl RawEntry {
    /// Where the life of the instance stands.
    pub closed spec fn state(&self) -> Lifecycle {
        if self.event_sender is Some {
            Lifecycle::Loaded
        } else {
            Lifecycle::Unloaded
        }
    }

    /// An instance is loaded.
    pub open spec fn is_loaded(&self) -> bool {
        self.state() == Lifecycle::Loaded
    }

    /// The events that were put into the queue of the instance that is
    /// loaded, oldest first; none where nothing is loaded.
    pub closed spec fn queued(&self) -> Seq<EventView> {
        match self.event_sender {
            Some(sender) => queued(sender),
            None => Seq::empty(),
        }
    }

    /// The events that had been put into the queue that the entry gave up
    /// last, oldest first, at the moment at which it gave the queue up.
    pub closed spec fn ended(&self) -> Seq<EventView> {
        self.ended@
    }

    /// The host's handle of the module, as last set.
    pub closed spec fn spec_hinst(&self) -> usize {
        self.h_inst
    }

    /// The entry of a module that has not been attached: nothing loaded,
    /// nothing ended, handle 0.
    pub fn new() -> (r: RawEntry)
        ensures
            r.state() == Lifecycle::Unloaded,
            r.ended() == Seq::<EventView>::empty(),
            r.spec_hinst() == 0,
    {
        RawEntry { h_inst: 0, event_sender: None, ended: Ghost(Seq::empty()) }
    }

    /// Where nothing is loaded, nothing is queued.
    pub proof fn lemma_unloaded_queue(&self)
        ensures
            self.state() == Lifecycle::Unloaded ==> self.queued() == Seq::<EventView>::empty(),
    {
    }

    /// Tells whether an instance is loaded.
    pub fn loaded(&self) -> (r: bool)
        ensures
            r == self.is_loaded(),
    {
        self.event_sender.is_some()
    }

    /// The host's handle of the module.
    #[verifier::when_used_as_spec(spec_hinst)]
    pub fn hinst(&self) -> (r: usize)
        ensures
            r == self.spec_hinst(),
    {
        self.h_inst
    }

    /// Keeps the host's handle of the module.
    pub fn set_hinst(&mut self, hinst: usize)
        ensures
            final(self).spec_hinst() == hinst,
            final(self).state() == old(self).state(),
            final(self).queued() == old(self).queued(),
            final(self).ended() == old(self).ended(),
    {
        self.h_inst = hinst;
    }

    /// The host's notification of attaching and detaching. Attaching to the
    /// process keeps the handle. Detaching from it ends the instance at
    /// once, as `unload_sync` does: nothing more is queued, nothing is
    /// waited for. The notifications of threads change nothing. Always
    /// true.
    pub fn dllmain(&mut self, hinst: usize, ul_reason_for_call: u32) -> (r: bool)
        ensures
            r,
            final(self).spec_hinst() == if ul_reason_for_call == DLL_PROCESS_ATTACH {
                hinst
            } else {
                old(self).spec_hinst()
            },
            final(self).state() == if ul_reason_for_call == DLL_PROCESS_DETACH {
                after(old(self).state(), Step::Detach)
            } else {
                old(self).state()
            },
            final(self).ended() == if ul_reason_for_call == DLL_PROCESS_DETACH {
                old(self).queued()
            } else {
                old(self).ended()
            },
            ul_reason_for_call != DLL_PROCESS_DETACH ==> final(self).queued() == old(self).queued(),
    {
        if ul_reason_for_call == DLL_PROCESS_ATTACH {
            self.set_hinst(hinst);
            true
        } else if ul_reason_for_call == DLL_PROCESS_DETACH {
            self.unload_sync()
        } else {
            true
        }
    }

    /// Begins an instance with what came of turning the host's bytes for
    /// the load directory into text: ends the instance that is loaded, if
    /// one is, as `unload_impl` does; then, where there is a text, goes on
    /// as `load_impl` does.
    ///
    /// Fails with the failure that `load_dir` is, and with `SendFailed`
    /// where the `Load` event cannot be queued. After a failure nothing is
    /// loaded. How the old instance ended does not count: on success its
    /// end is handed over in `replaced`, for the caller to wait on.
    pub fn load(&mut self, load_dir: MyResult<String>) -> (r: MyResult<Instance>)
        ensures
            final(self).state() == after(
                old(self).state(),
                Step::BeginInstance { queued: r.is_ok() },
            ),
            replaces(old(self).state(), old(self).queued(), old(self).ended(), final(self).ended()),
            r matches Ok(instance) ==> load_dir is Ok && final(self).queued() == seq![
                EventView::Load { hinst: old(self).spec_hinst(), load_dir: load_dir->Ok_0@ },
            ] && replaced_by(
                old(self).state(),
                old(self).queued(),
                final(self).ended(),
                instance.replaced,
            ),
            r matches Err(e) ==> e == match load_dir {
                Ok(_) => MyError::Api(ApiError::SendFailed),
                Err(cause) => cause,
            },
            final(self).spec_hinst() == old(self).spec_hinst(),
    {
        let replaced = self.replace();
        match load_dir {
            Err(cause) => Err(cause),
            Ok(text) => match self.load_impl(text) {
                Err(e) => Err(e),
                Ok(instance) => Ok(
                    Instance { events: instance.events, reply: instance.reply, replaced },
                ),
            },
        }
    }

    /// Ends the instance that is loaded, if one is, as `unload_impl` does,
    /// and hands back its end.
    pub fn replace(&mut self) -> (r: Option<MyResult<Reply<()>>>)
        ensures
            final(self).state() == Lifecycle::Unloaded,
            replaces(old(self).state(), old(self).queued(), old(self).ended(), final(self).ended()),
            replaced_by(old(self).state(), old(self).queued(), final(self).ended(), r),
            final(self).spec_hinst() == old(self).spec_hinst(),
    {
        if self.loaded() {
            Some(self.unload_impl())
        } else {
            None
        }
    }

    /// Begins an instance: ends the one that is loaded, if one is, as
    /// `unload_impl` does; makes a new event queue; and queues the `Load`
    /// event with the module's handle and `load_dir`. The `Unload` event
    /// goes into the old queue before the new queue is made.
    ///
    /// Fails only where the `Load` event cannot be queued; the new queue is
    /// then given up again, and nothing is loaded. How the old instance
    /// ended does not count: on success its end is handed over in
    /// `replaced`, for the caller to wait on.
    pub fn load_impl(&mut self, load_dir: String) -> (r: MyResult<Instance>)
        ensures
            final(self).state() == after(
                old(self).state(),
                Step::BeginInstance { queued: r.is_ok() },
            ),
            replaces(old(self).state(), old(self).queued(), old(self).ended(), final(self).ended()),
            r matches Ok(instance) ==> final(self).queued() == seq![
                EventView::Load { hinst: old(self).spec_hinst(), load_dir: load_dir@ },
            ] && replaced_by(
                old(self).state(),
                old(self).queued(),
                final(self).ended(),
                instance.replaced,
            ),
            r matches Err(e) ==> e == MyError::Api(ApiError::SendFailed),
            final(self).spec_hinst() == old(self).spec_hinst(),
    {
        let replaced = self.replace();
        let (tx, rx) = event_queue(EVENT_BUFFER);
        self.event_sender = Some(tx);
        let (res, reply) = reply_slot::<()>();
        let hinst = self.h_inst;
        let queued = self.send_event(Event::Load(Load { hinst, load_dir, res }));
        self.load_outcome(queued, rx, reply, replaced)
    }

    /// What `load_impl` comes to, for each outcome of queueing the `Load`
    /// event and each end of the instance before: success exactly where
    /// the event was queued, whatever the end of the instance before was;
    /// else the failure of queueing, with the new queue given up again.
    pub fn load_outcome(
        &mut self,
        queued: MyResult<()>,
        events: EventReceiver,
        reply: Reply<()>,
        replaced: Option<MyResult<Reply<()>>>,
    ) -> (r: MyResult<Instance>)
        ensures
            match queued {
                Ok(_) => r == Ok::<Instance, MyError>(Instance { events, reply, replaced })
                    && final(self).state() == old(self).state() && final(self).queued()
                    == old(self).queued(),
                Err(e) => r == Err::<Instance, MyError>(e) && final(self).state()
                    == Lifecycle::Unloaded,
            },
            final(self).ended() == old(self).ended(),
            final(self).spec_hinst() == old(self).spec_hinst(),
    {
        match queued {
            Err(e) => {
                self.event_sender = None;
                Err(e)
            },
            Ok(_) => Ok(Instance { events, reply, replaced }),
        }
    }

    /// Takes the consumer's answer to the `Load` event, or `Canceled` in
    /// its place where the consumer dropped the handle. An answer without
    /// failure leaves the instance loaded, as it is. A failure ends the
    /// instance at once, as `unload_sync` does: the queue is given up.
    /// Returns the answer.
    pub fn load_answer(&mut self, answer: MyResult<()>) -> (r: MyResult<()>)
        ensures
            r == answer,
            final(self).state() == after(
                old(self).state(),
                Step::LoadAnswer { accepted: answer.is_ok() },
            ),
            final(self).queued() == if answer.is_ok() {
                old(self).queued()
            } else {
                Seq::<EventView>::empty()
            },
            final(self).ended() == if answer.is_ok() {
                old(self).ended()
            } else {
                old(self).queued()
            },
            final(self).spec_hinst() == old(self).spec_hinst(),
    {
        if answer.is_err() {
            self.unload_drop();
        }
        answer
    }

    /// Ends the instance at once, without telling the consumer: the queue
    /// is given up as it is, and the consumer finds it closed. For the
    /// moment at which the host detaches the module and nothing can be
    /// waited for. Always true.
    pub fn unload_sync(&mut self) -> (r: bool)
        ensures
            r,
            final(self).state() == after(old(self).state(), Step::Detach),
            final(self).ended() == old(self).queued(),
            final(self).spec_hinst() == old(self).spec_hinst(),
    {
        self.unload_drop();
        true
    }

    /// Ends the instance: queues the `Unload` event, as `unload_send` does,
    /// and then, however that went, takes the queue out of the entry, so
    /// that no later call reaches it.
    ///
    /// Hands back the reply to wait on, which keeps the queue until it is
    /// resolved. Fails with `NotLoaded` where nothing is loaded and with
    /// `SendFailed` where the event cannot be queued; the queue is then
    /// given up at once. The queue that is given up holds the one `Unload`
    /// event behind all that was queued before, or, after a failure, what
    /// was queued before.
    pub fn unload_impl(&mut self) -> (r: MyResult<Reply<()>>)
        ensures
            final(self).state() == after(old(self).state(), Step::EndInstance),
            final(self).ended() == if r is Ok {
                old(self).queued().push(EventView::Unload)
            } else {
                old(self).queued()
            },
            r is Err ==> not_queued(old(self).state(), r),
            old(self).state() == Lifecycle::Unloaded ==> r is Err,
            r matches Ok(reply) ==> reply.held() == Some(final(self).ended()),
            final(self).spec_hinst() == old(self).spec_hinst(),
    {
        let sent = self.unload_send();
        let sender = self.give_up();
        match sent {
            Err(e) => Err(e),
            Ok(reply) => Ok(reply.holding(sender)),
        }
    }

    /// Queues the `Unload` event and hands back the reply to wait on.
    ///
    /// Fails with `NotLoaded` where nothing is loaded and with `SendFailed`
    /// where the event cannot be queued. After a failure nothing has been
    /// queued; else the event has, behind all that were queued before.
    pub fn unload_send(&mut self) -> (r: MyResult<Reply<()>>)
        ensures
            final(self).state() == old(self).state(),
            final(self).queued() == if r is Ok {
                old(self).queued().push(EventView::Unload)
            } else {
                old(self).queued()
            },
            r is Err ==> not_queued(old(self).state(), r),
            old(self).state() == Lifecycle::Unloaded ==> r is Err,
            r matches Ok(reply) ==> reply.held() is None,
            final(self).ended() == old(self).ended(),
            final(self).spec_hinst() == old(self).spec_hinst(),
    {
        let (res, reply) = reply_slot::<()>();
        match self.send_event(Event::Unload(Unload { res })) {
            Err(e) => Err(e),
            Ok(_) => Ok(reply),
        }
    }

    /// Gives up the queue, as it is: nothing is loaded from here on.
    pub fn unload_drop(&mut self)
        ensures
            final(self).state() == Lifecycle::Unloaded,
            final(self).ended() == old(self).queued(),
            final(self).spec_hinst() == old(self).spec_hinst(),
    {
        let _ = self.give_up();
    }

    /// Takes the queue out of the entry, as it is.
    fn give_up(&mut self) -> (r: Option<EventSender>)
        ensures
            final(self).state() == Lifecycle::Unloaded,
            final(self).ended() == old(self).queued(),
            r is Some == old(self).is_loaded(),
            r is Some ==> queued_of(r) == Some(old(self).queued()),
            final(self).spec_hinst() == old(self).spec_hinst(),
    {
        let ghost before = self.queued();
        let sender = self.event_sender.take();
        self.ended = Ghost(before);
        sender
    }

    /// Hands a request to the consumer: queues the `Request` event with the
    /// text, and hands back the reply to wait on.
    ///
    /// Fails with `NotLoaded` where nothing is loaded and with `SendFailed`
    /// where the event cannot be queued. After a failure nothing has been
    /// queued; else the event has, behind all that were queued before.
    pub fn request_impl(&mut self, req: String) -> (r: MyResult<Reply<String>>)
        ensures
            final(self).state() == after(old(self).state(), Step::SubmitRequest),
            final(self).queued() == if r is Ok {
                old(self).queued().push(EventView::Request { req: req@ })
            } else {
                old(self).queued()
            },
            r is Err ==> not_queued(old(self).state(), r),
            refusal(old(self).state(), Step::SubmitRequest) is Some ==> r is Err,
            r matches Ok(reply) ==> reply.held() is None,
            final(self).ended() == old(self).ended(),
            final(self).spec_hinst() == old(self).spec_hinst(),
    {
        let (res, reply) = reply_slot::<String>();
        match self.send_event(Event::Request(Request { req, res })) {
            Err(e) => Err(e),
            Ok(_) => Ok(reply),
        }
    }

    /// Queues an event without waiting. Fails with `NotLoaded` where
    /// nothing is loaded, else with `SendFailed` where the queue is full or
    /// the consumer gone. An event that is not queued is dropped, and its
    /// reply handle with it.
    pub fn send_event(&mut self, event: Event) -> (r: MyResult<()>)
        ensures
            final(self).state() == old(self).state(),
            final(self).spec_hinst() == old(self).spec_hinst(),
            final(self).ended() == old(self).ended(),
            final(self).queued() == if r is Ok {
                old(self).queued().push(event@)
            } else {
                old(self).queued()
            },
            r is Err ==> not_queued(old(self).state(), r),
            old(self).state() == Lifecycle::Unloaded ==> r is Err,
    {
        match self.event_sender.as_mut() {
            None => Err(MyError::Api(ApiError::NotLoaded)),
            Some(sender) => sent(queue_event(sender, event)),
        }
    }
}

} // verus!
