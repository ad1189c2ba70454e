//! The failures of the decoder, of the bridge, and of the plugin as a whole,
//! each with the text that describes it.

use crate::parsers::number::{decimal, push_decimal};
use vstd::prelude::*;
use vstd::string::*;

verus! {

/// Why a text is no request.
#[derive(Clone, Debug, PartialEq, Eq)]
pub enum ParseError {
    /// The first line is no header.
    MalformedHeader,
    /// A line behind the header has no colon followed by a space. `line`
    /// is that line; `position` is its index among the lines of the text,
    /// the header being line 0.
    MalformedKeyValue { line: String, position: usize },
}

/// A `ParseError` over plain values.
pub enum ParseErrorView {
    MalformedHeader,
    MalformedKeyValue { line: Seq<char>, position: int },
}

impl View for ParseError {
    type V = ParseErrorView;

    open spec fn view(&self) -> ParseErrorView {
        match self {
            ParseError::MalformedHeader => ParseErrorView::MalformedHeader,
            ParseError::MalformedKeyValue { line, position } => ParseErrorView::MalformedKeyValue {
                line: line@,
                position: *position as int,
            },
        }
    }
}

impl ParseErrorView {
    /// The text that describes the failure.
    pub open spec fn message(self) -> Seq<char> {
        match self {
            ParseErrorView::MalformedHeader => "malformed header"@,
            ParseErrorView::MalformedKeyValue { line, position } => "malformed key-value line "@
                + decimal(position as nat) + ": "@ + line,
        }
    }
}

impl ParseError {
    /// The text that describes the failure.
    pub fn message(&self) -> (r: String)
        ensures
            r@ == self@.message(),
    {
        match self {
            ParseError::MalformedHeader => String::from_str("malformed header"),
            ParseError::MalformedKeyValue { line, position } => {
                let mut r = String::from_str("malformed key-value line ");
                push_decimal(&mut r, *position as u64);
                r.append(": ");
                r.append(line.as_str());
                r
            },
        }
    }
}

/// Why a call did not get through to the consumer and back.
#[derive(Clone, Copy, Debug, PartialEq, Eq, Structural)]
pub enum ApiError {
    /// No instance is loaded.
    NotLoaded,
    /// The event could not be queued: the queue is full, or the consumer is
    /// gone.
    SendFailed,
    /// The consumer dropped the reply handle without an answer.
    Canceled,
}

impl ApiError {
    /// The text that describes the failure.
    pub open spec fn spec_message(self) -> Seq<char> {
        match self {
            ApiError::NotLoaded => "not loaded"@,
            ApiError::SendFailed => "event send error"@,
            ApiError::Canceled => "event canceled"@,
        }
    }

    /// The text that describes the failure.
    pub fn message(&self) -> (r: String)
        ensures
            r@ == self.spec_message(),
    {
        match self {
            ApiError::NotLoaded => String::from_str("not loaded"),
            ApiError::SendFailed => String::from_str("event send error"),
            ApiError::Canceled => String::from_str("event canceled"),
        }
    }
}

/// What the plugin can fail with.
#[derive(Clone, Debug, PartialEq, Eq)]
pub enum MyError {
    Others,
    Load,
    NotInitialized,
    Poison,
    /// A request text was no request.
    ParseRequest(ParseError),
    EncodeAnsi,
    EncodeUtf8,
    /// The script engine failed.
    Script { message: String },
    /// There is nothing to answer: no failure, but no text either.
    NoContent,
    /// The call did not get through the bridge.
    Api(ApiError),
}

/// A `MyError` over plain values.
pub enum MyErrorView {
    Others,
    Load,
    NotInitialized,
    Poison,
    ParseRequest(ParseErrorView),
    EncodeAnsi,
    EncodeUtf8,
    Script { message: Seq<char> },
    NoContent,
    Api(ApiError),
}

impl View for MyError {
    type V = MyErrorView;

    open spec fn view(&self) -> MyErrorView {
        match self {
            MyError::Others => MyErrorView::Others,
            MyError::Load => MyErrorView::Load,
            MyError::NotInitialized => MyErrorView::NotInitialized,
            MyError::Poison => MyErrorView::Poison,
            MyError::ParseRequest(e) => MyErrorView::ParseRequest(e@),
            MyError::EncodeAnsi => MyErrorView::EncodeAnsi,
            MyError::EncodeUtf8 => MyErrorView::EncodeUtf8,
            MyError::Script { message } => MyErrorView::Script { message: message@ },
            MyError::NoContent => MyErrorView::NoContent,
            MyError::Api(e) => MyErrorView::Api(*e),
        }
    }
}

impl MyErrorView {
    /// The text that describes the failure.
    pub open spec fn message(self) -> Seq<char> {
        match self {
            MyErrorView::Others => "others error"@,
            MyErrorView::Load => "load error"@,
            MyErrorView::NotInitialized => "not initialized error"@,
            MyErrorView::Poison => "Poison error"@,
            MyErrorView::ParseRequest(e) => "Shiori request parse error for '"@ + e.message()
                + "'"@,
            MyErrorView::EncodeAnsi => "ANSI encodeing error"@,
            MyErrorView::EncodeUtf8 => "UTF8 encodeing error"@,
            MyErrorView::Script { message } => "script error: "@ + message,
            MyErrorView::NoContent => "no content"@,
            MyErrorView::Api(e) => e.spec_message(),
        }
    }
}

/// What a fallible call of the plugin returns.
pub type MyResult<T> = Result<T, MyError>;

/// The failure of the decoder as a failure of the plugin.
impl From<ParseError> for MyError {
    fn from(error: ParseError) -> (r: MyError) {
        MyError::ParseRequest(error)
    }
}

impl vstd::std_specs::convert::FromSpecImpl<ParseError> for MyError {
    open spec fn obeys_from_spec() -> bool {
        true
    }

    open spec fn from_spec(error: ParseError) -> MyError {
        MyError::ParseRequest(error)
    }
}

/// The failure of the bridge as a failure of the plugin.
impl From<ApiError> for MyError {
    fn from(error: ApiError) -> (r: MyError) {
        MyError::Api(error)
    }
}

impl vstd::std_specs::convert::FromSpecImpl<ApiError> for MyError {
    open spec fn obeys_from_spec() -> bool {
        true
    }

    open spec fn from_spec(error: ApiError) -> MyError {
        MyError::Api(error)
    }
}

impl MyError {
    /// The failure of a script, with the engine's message.
    pub fn script_error(message: String) -> (r: MyError)
        ensures
            r == (MyError::Script { message }),
    {
        MyError::Script { message }
    }

    /// The text that describes the failure.
    pub fn message(&self) -> (r: String)
        ensures
            r@ == self@.message(),
    {
        match self {
            MyError::Others => String::from_str("others error"),
            MyError::Load => String::from_str("load error"),
            MyError::NotInitialized => String::from_str("not initialized error"),
            MyError::Poison => String::from_str("Poison error"),
            MyError::ParseRequest(e) => {
                let mut r = String::from_str("Shiori request parse error for '");
                let inner = e.message();
                r.append(inner.as_str());
                r.append("'");
                r
            },
            MyError::EncodeAnsi => String::from_str("ANSI encodeing error"),
            MyError::EncodeUtf8 => String::from_str("UTF8 encodeing error"),
            MyError::Script { message } => {
                let mut r = String::from_str("script error: ");
                r.append(message.as_str());
                r
            },
            MyError::NoContent => String::from_str("no content"),
            MyError::Api(e) => e.message(),
        }
    }
}

} // verus!
