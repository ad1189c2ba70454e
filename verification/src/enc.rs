//! Turning the host's bytes into text and back. The host hands over the
//! load directory in its native 8-bit encoding. This library takes that
//! encoding to be UTF-8 for both of its code pages, which is what it is on
//! every system but Windows.

use crate::error::{MyError, MyResult};
use vstd::prelude::*;
use vstd::string::*;
use vstd::utf8::*;

verus! {

/// `core::str::Utf8Error` of the standard library: why bytes are no UTF-8.
/// Nothing of its inside is known here.
#[verifier::external_type_specification]
#[verifier::external_body]
pub struct ExUtf8Error(core::str::Utf8Error);

/// `core::str::from_utf8` of the standard library: it succeeds exactly on
/// bytes that are UTF-8, and the string it returns is made of those bytes.
pub assume_specification[ core::str::from_utf8 ](v: &[u8]) -> (r: Result<
    &str,
    core::str::Utf8Error,
>)
    ensures
        r.is_ok() == valid_utf8(v@),
        r matches Ok(s) ==> s.spec_bytes() == v@,
;

/// A converter between text and a multibyte encoding.
pub trait Encoder {
    /// Converts bytes to text.
    fn to_string(&self, data: &[u8]) -> MyResult<String>;

    /// Converts text to bytes.
    fn to_bytes(&self, data: &str) -> MyResult<Vec<u8>>;
}

/// The host's two 8-bit code pages.
#[derive(Clone, Copy, Debug, PartialEq, Eq, Structural)]
pub enum Encoding {
    /// The code page of the system.
    ANSI,
    /// The code page of the console.
    OEM,
}

impl Encoding {
    /// The text that `data` encodes, if it encodes one.
    pub open spec fn decoded(&self, data: Seq<u8>) -> Option<Seq<char>> {
        if valid_utf8(data) {
            Some(decode_utf8(data))
        } else {
            None
        }
    }

    /// The bytes that encode `text`.
    pub open spec fn encoded(&self, text: Seq<char>) -> Seq<u8> {
        encode_utf8(text)
    }
}

impl Encoder for Encoding {
    /// Converts bytes to text. Fails with `EncodeAnsi` where the bytes
    /// encode no text.
    fn to_string(&self, data: &[u8]) -> (r: MyResult<String>)
        ensures
            match self.decoded(data@) {
                Some(text) => r matches Ok(s) && s@ == text,
                None => r == Err::<String, MyError>(MyError::EncodeAnsi),
            },
    {
        match core::str::from_utf8(data) {
            Ok(s) => {
                proof {
                    encode_utf8_decode_utf8(s@);
                }
                Ok(s.to_owned())
            },
            Err(_) => Err(MyError::EncodeAnsi),
        }
    }

    /// Converts text to bytes. Never fails.
    fn to_bytes(&self, data: &str) -> (r: MyResult<Vec<u8>>)
        ensures
            r matches Ok(bytes) && bytes@ == self.encoded(data@),
    {
        Ok(data.as_bytes_vec())
    }
}

/// Decoding what was encoded gives the text back.
pub proof fn lemma_encoding_round_trip(encoding: Encoding, text: Seq<char>)
    ensures
        encoding.decoded(encoding.encoded(text)) == Some(text),
{
    encode_utf8_valid_utf8(text);
    encode_utf8_decode_utf8(text);
}

} // verus!
