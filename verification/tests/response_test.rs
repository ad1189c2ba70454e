use shiori3::error::{ApiError, MyError, ParseError};
use shiori3::response::{ok, response, server_error, NO_CONTENT_204};

#[test]
fn response_test() {
    {
        let value = "何か喋った。";
        assert_eq!(ok(value), "SHIORI/3.0 200 OK\r\nCharset: UTF-8\r\nValue: 何か喋った。\r\n\r\n");
    }
    assert_eq!(
        server_error(MyError::Poison),
        "SHIORI/3.0 500 Internal Server Error\r\nCharset: UTF-8\r\nX-ERROR-REASON: Poison error\r\n\r\n"
    );
    assert_eq!(server_error(MyError::NoContent), "SHIORI/3.0 204 No Content\r\nCharset: UTF-8\r\n\r\n");
    assert_eq!(server_error(MyError::NoContent), NO_CONTENT_204);
}

#[test]
fn response_of_an_outcome() {
    assert_eq!(response(Ok("as it is".to_string())), "as it is");
    assert_eq!(response(Err(MyError::NoContent)), NO_CONTENT_204);
    assert_eq!(
        response(Err(MyError::Api(ApiError::NotLoaded))),
        "SHIORI/3.0 500 Internal Server Error\r\nCharset: UTF-8\r\nX-ERROR-REASON: not loaded\r\n\r\n"
    );
}

#[test]
fn error_messages() {
    assert_eq!(MyError::Others.message(), "others error");
    assert_eq!(MyError::Load.message(), "load error");
    assert_eq!(MyError::NotInitialized.message(), "not initialized error");
    assert_eq!(MyError::Poison.message(), "Poison error");
    assert_eq!(MyError::EncodeAnsi.message(), "ANSI encodeing error");
    assert_eq!(MyError::EncodeUtf8.message(), "UTF8 encodeing error");
    assert_eq!(MyError::script_error("boom".to_string()).message(), "script error: boom");
    assert_eq!(MyError::script_error("boom".to_string()), MyError::Script { message: "boom".to_string() });
    assert_eq!(MyError::NoContent.message(), "no content");
    assert_eq!(MyError::from(ApiError::NotLoaded).message(), "not loaded");
    assert_eq!(MyError::from(ApiError::SendFailed).message(), "event send error");
    assert_eq!(MyError::from(ApiError::Canceled).message(), "event canceled");
    assert_eq!(ApiError::Canceled.message(), "event canceled");
    assert_eq!(ParseError::MalformedHeader.message(), "malformed header");
    assert_eq!(
        ParseError::MalformedKeyValue { line: "a b".to_string(), position: 12 }.message(),
        "malformed key-value line 12: a b"
    );
    assert_eq!(
        MyError::from(ParseError::MalformedHeader).message(),
        "Shiori request parse error for 'malformed header'"
    );
}
