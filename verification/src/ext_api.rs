//! Taking an event apart, and answering it.

use crate::error::{ApiError, MyError, MyResult};
use crate::event::{EventResponse, Load, Request, Unload};
use vstd::prelude::*;

verus! {

/// The parts of a `Load` event.
pub trait LoadExt<LOAD> {
    fn value(self) -> (usize, LOAD, EventResponse<()>);
}

/// The part of an `Unload` event.
pub trait UnloadExt {
    fn value(self) -> EventResponse<()>;
}

/// Answering an event.
pub trait EventResponseExt<RES> {
    fn done(self, item: MyResult<RES>) -> MyResult<()>;
}

/// The parts of a `Request` event.
pub trait RequestExt<REQ, RES> {
    fn value(self) -> (REQ, EventResponse<RES>);
}

impl LoadExt<String> for Load {
    fn value(self) -> (r: (usize, String, EventResponse<()>))
        ensures
            r == (self.hinst, self.load_dir, self.res),
    {
        (self.hinst, self.load_dir, self.res)
    }
}

impl UnloadExt for Unload {
    fn value(self) -> (r: EventResponse<()>)
        ensures
            r == self.res,
    {
        self.res
    }
}

impl RequestExt<String, String> for Request {
    fn value(self) -> (r: (String, EventResponse<String>))
        ensures
            r == (self.req, self.res),
    {
        (self.req, self.res)
    }
}

impl<T> EventResponseExt<T> for EventResponse<T> {
    /// Answers the event, as `send` does.
    fn done(self, item: MyResult<T>) -> (r: MyResult<()>)
        ensures
            r matches Err(e) ==> e == MyError::Api(ApiError::Canceled),
    {
        self.send(item)
    }
}

} // verus!
