//! Core of a SHIORI/3.0 ghost plugin: the request decoder and the bridge that
//! hands each blocking host call to a single ordered consumer.

pub mod channel;
pub mod enc;
pub mod entry;
pub mod error;
pub mod event;
pub mod ext_api;
pub mod ext_parse;
pub mod lifecycle;
pub mod parsers;
pub mod response;
pub mod text;

pub use crate::enc::Encoder;
pub use crate::enc::Encoding;
pub use crate::entry::RawEntry;
pub use crate::error::MyError as ShioriError;
pub use crate::error::MyResult as ShioriResult;
pub use crate::parsers::req;
