//! The wire text of a response.

use crate::error::{MyError, MyErrorView};
use vstd::prelude::*;
use vstd::string::*;

verus! {

/// The response that says that there is nothing to answer.
pub const NO_CONTENT_204: &'static str = "SHIORI/3.0 204 No Content\r\nCharset: UTF-8\r\n\r\n";

/// The text of the response that carries `value`.
pub open spec fn ok_text(value: Seq<char>) -> Seq<char> {
    "SHIORI/3.0 200 OK\r\nCharset: UTF-8\r\n"@ + "Value: "@ + value + "\r\n\r\n"@
}

/// The text of the response to a failure: the fixed text for "no content",
/// for any other failure a status 500 with its description.
pub open spec fn server_error_text(err: MyErrorView) -> Seq<char> {
    match err {
        MyErrorView::NoContent => "SHIORI/3.0 204 No Content\r\nCharset: UTF-8\r\n\r\n"@,
        _ => "SHIORI/3.0 500 Internal Server Error\r\nCharset: UTF-8\r\n"@ + "X-ERROR-REASON: "@
            + err.message() + "\r\n\r\n"@,
    }
}

/// The text that the host gets for the outcome of a request: the consumer's
/// answer as it is, or the response to the failure.
pub open spec fn response_text(outcome: Result<Seq<char>, MyErrorView>) -> Seq<char> {
    match outcome {
        Ok(answer) => answer,
        Err(err) => server_error_text(err),
    }
}

/// Makes the response to a failure.
pub fn server_error(err: MyError) -> (r: String)
    ensures
        r@ == server_error_text(err@),
{
    match err {
        MyError::NoContent => String::from_str(NO_CONTENT_204),
        _ => {
            let mut buf = String::from_str(
                "SHIORI/3.0 500 Internal Server Error\r\nCharset: UTF-8\r\n",
            );
            buf.append("X-ERROR-REASON: ");
            let reason = err.message();
            buf.append(reason.as_str());
            buf.append("\r\n\r\n");
            buf
        },
    }
}

/// Makes the response "200 OK" that carries `value`.
pub fn ok(value: &str) -> (r: String)
    ensures
        r@ == ok_text(value@),
{
    let mut buf = String::from_str("SHIORI/3.0 200 OK\r\nCharset: UTF-8\r\n");
    buf.append("Value: ");
    buf.append(value);
    buf.append("\r\n\r\n");
    buf
}

/// Makes the text that the host gets for the outcome of a request.
pub fn response(outcome: Result<String, MyError>) -> (r: String)
    ensures
        r@ == response_text(
            match outcome {
                Ok(answer) => Ok(answer@),
                Err(err) => Err(err@),
            },
        ),
{
    match outcome {
        Ok(answer) => answer,
        Err(err) => server_error(err),
    }
}

} // verus!
