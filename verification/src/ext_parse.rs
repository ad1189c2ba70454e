//! Decoding the text of a request where it is held.

use crate::error::{MyError, MyResult, ParseErrorView};
use crate::parsers::req::{decode, RequestView, ShioriRequest};
use vstd::prelude::*;

verus! {

/// A text that can be decoded as a request.
pub trait ShioriRequestExt {
    /// Decodes the text as a request.
    fn parse_request(&self) -> MyResult<ShioriRequest>;
}

impl ShioriRequestExt for String {
    fn parse_request(&self) -> (r: MyResult<ShioriRequest>)
        ensures
            match r {
                Ok(req) => decode(self@) == Ok::<RequestView, ParseErrorView>(req@),
                Err(e) => e matches MyError::ParseRequest(cause) && decode(self@) == Err::<
                    RequestView,
                    ParseErrorView,
                >(cause@),
            },
    {
        match ShioriRequest::parse(self.as_str()) {
            Ok(req) => Ok(req),
            Err(cause) => Err(MyError::from(cause)),
        }
    }
}

} // verus!
